//! The scope discipline of the expression walk: how deep it may nest, and
//! what a block or a `let ... in` body may change of the scope around it.
//!
//! A block's own `let` bindings, the captures recorded for them and its
//! inference frame end with the block. What the block gave away of the
//! bindings around it stays given away: only the names the block itself
//! introduced are forgotten.

use vstd::prelude::*;
use crate::analyzer::{insert_name, let_binding_names, let_binding_type, let_bound, lookup_names, SemanticAnalyzer};
use crate::ast::Span;
use crate::closures::copy_names;
use crate::error::{error_views, CompilerError, ErrorView};
use crate::sem_type::{SType, SemType};
use crate::text::views;

verus! {

broadcast use vstd::std_specs::vec::group_vec_axioms;

/// How many expressions deep the walk may go before it gives up on an
/// expression.
pub const MAX_EXPR_DEPTH: usize = 500;

/// The depth after entering an expression at depth `d`, when it is
/// allowed.
pub open spec fn entered_depth(d: usize) -> usize {
    if d == usize::MAX { d } else { (d + 1) as usize }
}

/// The depth after leaving an expression at depth `d`.
pub open spec fn left_depth(d: usize) -> usize {
    if d == 0 { 0 } else { (d - 1) as usize }
}

/// What a block saves of the scope around it on entry.
pub struct BlockScope {
    pub lets: Vec<(String, SemType)>,
    pub captures: Vec<(String, Vec<String>)>,
    pub consumed: Vec<String>,
    pub inference: Vec<Vec<String>>,
}

/// The frames of names as names.
pub open spec fn scope_views(s: Seq<Vec<String>>) -> Seq<Seq<Seq<char>>> {
    s.map_values(|v: Vec<String>| views(v@))
}

/// Opening a block in the state `before` saved `saved` and left `after`:
/// `saved` holds the scope of `before`, and `after` is `before` with an
/// empty inference frame pushed for the names the block binds.
pub open spec fn block_opened(before: SemanticAnalyzer, saved: BlockScope, after: SemanticAnalyzer) -> bool {
    &&& let_views(saved.lets@) == let_views(before.local_let_bindings@)
    &&& binding_capture_views(saved.captures@) == binding_capture_views(before.closure_binding_captures@)
    &&& views(saved.consumed@) == views(before.consumed_bindings@)
    &&& scope_views(saved.inference@) == scope_views(before.inference_scopes@)
    &&& after.inference_scopes@.len() == before.inference_scopes@.len() + 1
    &&& after.inference_scopes@.drop_last() == before.inference_scopes@
    &&& after.inference_scopes@.last()@.len() == 0
    &&& after.errors == before.errors
    &&& after.same_state((SemanticAnalyzer { inference_scopes: after.inference_scopes, ..before }))
}

/// Closing a block in the state `before` with what opening it saved left
/// `after`: the local bindings, the recorded captures and the inference
/// frames are those saved, and a binding given away inside stays given
/// away unless the block introduced it.
pub open spec fn block_closed(before: SemanticAnalyzer, saved: BlockScope, after: SemanticAnalyzer) -> bool {
    &&& after.local_let_bindings == saved.lets
    &&& after.closure_binding_captures == saved.captures
    &&& after.inference_scopes == saved.inference
    &&& views(after.consumed_bindings@).to_set() == consumed_after_block(views(saved.consumed@),
        views(before.consumed_bindings@), before.local_let_bindings@, saved.lets@)
    &&& after.errors == before.errors
    &&& after.same_state((SemanticAnalyzer {
        local_let_bindings: saved.lets,
        closure_binding_captures: saved.captures,
        inference_scopes: saved.inference,
        consumed_bindings: after.consumed_bindings,
        ..before
    }))
}

/// Bindings with the same names and types have the same names.
pub proof fn lemma_let_views_names(a: Seq<(String, SemType)>, b: Seq<(String, SemType)>)
    requires
        let_views(a) == let_views(b),
    ensures
        let_binding_names(a) == let_binding_names(b),
{
    assert(let_views(a).len() == a.len());
    assert(let_views(b).len() == b.len());
    assert(a.len() == b.len());
    assert forall|i: int| 0 <= i < a.len() implies let_binding_names(a)[i] == let_binding_names(b)[i] by {
        assert(let_views(a)[i] == let_views(b)[i]);
        assert(let_views(a)[i].0 == a[i].0@);
        assert(let_views(b)[i].0 == b[i].0@);
        assert(let_binding_names(a)[i] == a[i].0@);
        assert(let_binding_names(b)[i] == b[i].0@);
    }
    assert(let_binding_names(a) =~= let_binding_names(b));
}

/// The local bindings as names and types.
pub open spec fn let_views(bs: Seq<(String, SemType)>) -> Seq<(Seq<char>, SType)> {
    bs.map_values(|b: (String, SemType)| (b.0@, b.1@))
}

/// The recorded closure captures as names.
pub open spec fn binding_capture_views(cs: Seq<(String, Vec<String>)>) -> Seq<(Seq<char>, Seq<Seq<char>>)> {
    cs.map_values(|c: (String, Vec<String>)| (c.0@, views(c.1@)))
}

/// `n` is a binding that the block introduced: bound at its end, and not
/// before it.
pub open spec fn introduced_in_block(cur_lets: Seq<(String, SemType)>, saved_lets: Seq<(String, SemType)>, n: Seq<char>) -> bool {
    let_binding_names(cur_lets).contains(n) && !let_binding_names(saved_lets).contains(n)
}

/// The bindings given away after a block: those given away before it,
/// and those the block gave away that it did not introduce.
pub open spec fn consumed_after_block(saved: Seq<Seq<char>>, cur: Seq<Seq<char>>, cur_lets: Seq<(String, SemType)>,
    saved_lets: Seq<(String, SemType)>) -> Set<Seq<char>> {
    Set::new(|n: Seq<char>| saved.contains(n) || (cur.contains(n) && !introduced_in_block(cur_lets, saved_lets, n)))
}

pub proof fn lemma_take_push_contains(s: Seq<Seq<char>>, k: int, n: Seq<char>)
    requires
        0 <= k < s.len(),
    ensures
        s.take(k + 1).contains(n) <==> (s.take(k).contains(n) || n == s[k]),
{
    let longer = s.take(k + 1);
    let shorter = s.take(k);
    if longer.contains(n) {
        let i = choose|i: int| 0 <= i < longer.len() && longer[i] == n;
        if i < k {
            assert(shorter[i] == n);
        }
    }
    if shorter.contains(n) {
        let i = choose|i: int| 0 <= i < shorter.len() && shorter[i] == n;
        assert(longer[i] == n);
    }
    if n == s[k] {
        assert(longer[k] == n);
    }
}

/// A copy of the local bindings.
fn copy_lets(bs: &Vec<(String, SemType)>) -> (r: Vec<(String, SemType)>)
    ensures
        let_views(r@) == let_views(bs@),
{
    let mut out: Vec<(String, SemType)> = Vec::new();
    let mut k: usize = 0;
    while k < bs.len()
        invariant
            k <= bs@.len(),
            let_views(out@) == let_views(bs@.take(k as int)),
        decreases bs.len() - k,
    {
        let ghost before = out@;
        out.push((bs[k].0.clone(), bs[k].1.duplicate()));
        assert(let_views(out@) =~= let_views(bs@.take(k + 1))) by {
            assert(out@ =~= before.push(out@.last()));
            assert forall|i: int| 0 <= i < k implies let_views(out@)[i] == let_views(bs@.take(k + 1))[i] by {
                assert(let_views(before)[i] == let_views(bs@.take(k as int))[i]);
            }
        }
        k += 1;
    }
    assert(bs@.take(k as int) =~= bs@);
    out
}

/// A copy of the inference frames.
fn copy_scopes(s: &Vec<Vec<String>>) -> (r: Vec<Vec<String>>)
    ensures
        scope_views(r@) == scope_views(s@),
{
    let mut out: Vec<Vec<String>> = Vec::new();
    let mut k: usize = 0;
    while k < s.len()
        invariant
            k <= s@.len(),
            scope_views(out@) == scope_views(s@.take(k as int)),
        decreases s.len() - k,
    {
        let ghost before = out@;
        out.push(copy_names(&s[k]));
        assert(scope_views(out@) =~= scope_views(s@.take(k + 1))) by {
            assert forall|i: int| 0 <= i < k implies scope_views(out@)[i] == scope_views(s@.take(k + 1))[i] by {
                assert(scope_views(before)[i] == scope_views(s@.take(k as int))[i]);
            }
        }
        k += 1;
    }
    assert(s@.take(k as int) =~= s@);
    out
}

/// A copy of the recorded closure captures.
fn copy_captures(cs: &Vec<(String, Vec<String>)>) -> (r: Vec<(String, Vec<String>)>)
    ensures
        binding_capture_views(r@) == binding_capture_views(cs@),
{
    let mut out: Vec<(String, Vec<String>)> = Vec::new();
    let mut k: usize = 0;
    while k < cs.len()
        invariant
            k <= cs@.len(),
            binding_capture_views(out@) == binding_capture_views(cs@.take(k as int)),
        decreases cs.len() - k,
    {
        let ghost before = out@;
        out.push((cs[k].0.clone(), copy_names(&cs[k].1)));
        assert(binding_capture_views(out@) =~= binding_capture_views(cs@.take(k + 1))) by {
            assert forall|i: int| 0 <= i < k implies binding_capture_views(out@)[i] == binding_capture_views(cs@.take(k + 1))[i] by {
                assert(binding_capture_views(before)[i] == binding_capture_views(cs@.take(k as int))[i]);
            }
        }
        k += 1;
    }
    assert(cs@.take(k as int) =~= cs@);
    out
}

/// Recording `caps` under `name` in front of `entries` makes it what
/// `name` looks up, and leaves what every other name looks up.
pub proof fn lemma_lookup_in_front(entries: Seq<(String, Vec<String>)>, entry: (String, Vec<String>), m: Seq<char>)
    ensures
        lookup_names(seq![entry] + entries, m) == if entry.0@ == m { Some(views(entry.1@)) } else { lookup_names(entries, m) },
{
    assert((seq![entry] + entries).drop_first() =~= entries);
}

/// Binding `name` in front of the local bindings makes it what `name`
/// looks up, and leaves what every other name looks up.
proof fn lemma_let_in_front(bs: Seq<(String, SemType)>, entry: (String, SemType), m: Seq<char>)
    ensures
        let_binding_type(seq![entry] + bs, m) == if entry.0@ == m { Some(entry.1@) } else { let_binding_type(bs, m) },
        let_binding_names(seq![entry] + bs).to_set() == let_binding_names(bs).to_set().insert(entry.0@),
{
    assert((seq![entry] + bs).drop_first() =~= bs);
    assert(let_binding_names(seq![entry] + bs) =~= seq![entry.0@] + let_binding_names(bs));
    assert(let_binding_names(seq![entry] + bs).to_set() =~= let_binding_names(bs).to_set().insert(entry.0@)) by {
        let longer = seq![entry.0@] + let_binding_names(bs);
        assert forall|n: Seq<char>| longer.contains(n) <==> (let_binding_names(bs).contains(n) || n == entry.0@) by {
            if longer.contains(n) {
                let i = choose|i: int| 0 <= i < longer.len() && longer[i] == n;
                if i > 0 {
                    assert(let_binding_names(bs)[i - 1] == n);
                }
            }
            if let_binding_names(bs).contains(n) {
                let i = choose|i: int| 0 <= i < let_binding_names(bs).len() && let_binding_names(bs)[i] == n;
                assert(longer[i + 1] == n);
            }
            if n == entry.0@ {
                assert(longer[0] == n);
            }
        }
    }
}

impl SemanticAnalyzer {
    /// Bind `name` to `ty` among the local bindings, over any earlier
    /// binding of the name, and in the innermost inference frame. When
    /// the value is a closure, `captures` are what it captures: they are
    /// recorded under the name for this scope and for the whole function.
    pub fn declare_local_binding(&mut self, name: &str, ty: SemType, captures: Option<&Vec<String>>)
        ensures
            let_binding_type(final(self).local_let_bindings@, name@) == Some(ty@),
            forall|m: Seq<char>| m != name@ ==> let_binding_type(final(self).local_let_bindings@, m)
                == let_binding_type(old(self).local_let_bindings@, m),
            let_binding_names(final(self).local_let_bindings@).to_set()
                == let_binding_names(old(self).local_let_bindings@).to_set().insert(name@),
            match captures {
                Some(c) => {
                    &&& lookup_names(final(self).closure_binding_captures@, name@) == Some(views(c@))
                    &&& lookup_names(final(self).fn_scope_closure_captures@, name@) == Some(views(c@))
                    &&& forall|m: Seq<char>| m != name@ ==> lookup_names(final(self).closure_binding_captures@, m)
                        == lookup_names(old(self).closure_binding_captures@, m)
                    &&& forall|m: Seq<char>| m != name@ ==> lookup_names(final(self).fn_scope_closure_captures@, m)
                        == lookup_names(old(self).fn_scope_closure_captures@, m)
                },
                None => {
                    &&& final(self).closure_binding_captures == old(self).closure_binding_captures
                    &&& final(self).fn_scope_closure_captures == old(self).fn_scope_closure_captures
                },
            },
            final(self).inference_scopes@.len() == old(self).inference_scopes@.len(),
            old(self).inference_scopes@.len() > 0 ==> final(self).inference_scopes@.drop_last() == old(self).inference_scopes@.drop_last()
                && views(final(self).inference_scopes@.last()@).to_set() == views(old(self).inference_scopes@.last()@).to_set().insert(name@),
            old(self).inference_scopes@.len() == 0 ==> final(self).inference_scopes == old(self).inference_scopes,
            final(self).errors == old(self).errors,
            final(self).same_state((SemanticAnalyzer {
                local_let_bindings: final(self).local_let_bindings,
                closure_binding_captures: final(self).closure_binding_captures,
                fn_scope_closure_captures: final(self).fn_scope_closure_captures,
                inference_scopes: final(self).inference_scopes,
                ..*old(self)
            })),
    {
        let ghost s0 = *self;
        match captures {
            Some(c) => {
                let entry = (String::from_str(name), copy_names(c));
                proof {
                    assert forall|m: Seq<char>| lookup_names(seq![entry] + s0.closure_binding_captures@, m)
                        == (if entry.0@ == m { Some(views(entry.1@)) } else { lookup_names(s0.closure_binding_captures@, m) }) by {
                        lemma_lookup_in_front(s0.closure_binding_captures@, entry, m);
                    }
                }
                self.closure_binding_captures.insert(0, entry);
                assert(self.closure_binding_captures@ =~= seq![entry] + s0.closure_binding_captures@);
                let entry2 = (String::from_str(name), copy_names(c));
                proof {
                    assert forall|m: Seq<char>| lookup_names(seq![entry2] + s0.fn_scope_closure_captures@, m)
                        == (if entry2.0@ == m { Some(views(entry2.1@)) } else { lookup_names(s0.fn_scope_closure_captures@, m) }) by {
                        lemma_lookup_in_front(s0.fn_scope_closure_captures@, entry2, m);
                    }
                }
                self.fn_scope_closure_captures.insert(0, entry2);
                assert(self.fn_scope_closure_captures@ =~= seq![entry2] + s0.fn_scope_closure_captures@);
            },
            None => {},
        }
        let ghost s1 = *self;
        if self.inference_scopes.len() > 0 {
            let mut frame = self.inference_scopes.pop().unwrap();
            insert_name(&mut frame, String::from_str(name));
            let ghost rest = self.inference_scopes@;
            self.inference_scopes.push(frame);
            assert(self.inference_scopes@.drop_last() =~= rest);
        }
        let entry = (String::from_str(name), ty);
        proof {
            assert forall|m: Seq<char>| let_binding_type(seq![entry] + s0.local_let_bindings@, m)
                == (if entry.0@ == m { Some(entry.1@) } else { let_binding_type(s0.local_let_bindings@, m) }) by {
                lemma_let_in_front(s0.local_let_bindings@, entry, m);
            }
            lemma_let_in_front(s0.local_let_bindings@, entry, name@);
        }
        self.local_let_bindings.insert(0, entry);
        assert(self.local_let_bindings@ =~= seq![entry] + s0.local_let_bindings@);
    }

    /// Enter one more level of expression at `span`. Past the deepest
    /// nesting allowed, report `ExpressionDepthExceeded`, keep the depth
    /// where it was and return false; the expression is not walked.
    pub fn enter_expr(&mut self, span: Span) -> (r: bool)
        ensures
            r == (old(self).expr_depth < MAX_EXPR_DEPTH),
            r ==> final(self).expr_depth == entered_depth(old(self).expr_depth),
            r ==> final(self).errors == old(self).errors,
            !r ==> final(self).expr_depth == left_depth(entered_depth(old(self).expr_depth)),
            !r ==> error_views(final(self).errors@) == error_views(old(self).errors@).push(ErrorView::ExpressionDepthExceeded { span }),
            final(self).same_state((SemanticAnalyzer { expr_depth: final(self).expr_depth, ..*old(self) })),
    {
        self.expr_depth = self.expr_depth.saturating_add(1);
        if self.expr_depth > MAX_EXPR_DEPTH {
            self.expr_depth = self.expr_depth.saturating_sub(1);
            self.report(CompilerError::ExpressionDepthExceeded { span });
            return false;
        }
        true
    }

    /// Leave a level of expression entered with [`Self::enter_expr`].
    pub fn leave_expr(&mut self)
        ensures
            final(self).expr_depth == left_depth(old(self).expr_depth),
            final(self).errors == old(self).errors,
            final(self).same_state((SemanticAnalyzer { expr_depth: final(self).expr_depth, ..*old(self) })),
    {
        self.expr_depth = self.expr_depth.saturating_sub(1);
    }

    /// Open the scope of a block or a `let ... in` body: save the local
    /// bindings, the recorded captures and the bindings given away, and
    /// push an empty inference frame for the names the block binds.
    pub fn open_block_scope(&mut self) -> (saved: BlockScope)
        ensures
            block_opened(*old(self), saved, *final(self)),
    {
        let saved = BlockScope {
            lets: copy_lets(&self.local_let_bindings),
            captures: copy_captures(&self.closure_binding_captures),
            consumed: copy_names(&self.consumed_bindings),
            inference: copy_scopes(&self.inference_scopes),
        };
        let ghost before = self.inference_scopes@;
        self.inference_scopes.push(Vec::new());
        assert(self.inference_scopes@.drop_last() =~= before);
        saved
    }

    /// Close the scope that [`Self::open_block_scope`] opened: the local
    /// bindings, the recorded captures and the inference frames are those
    /// saved, and a binding given away inside stays given away unless the
    /// block introduced it.
    pub fn close_block_scope(&mut self, saved: BlockScope)
        ensures
            block_closed(*old(self), saved, *final(self)),
    {
        let ghost s0 = *self;
        let ghost sv = saved;
        let BlockScope { lets, captures, consumed, inference } = saved;
        let mut restored = consumed;
        let ghost vs = views(sv.consumed@);
        let ghost cur = views(self.consumed_bindings@);
        assert(vs.take(0) =~= Seq::<Seq<char>>::empty());
        assert(views(restored@).to_set() =~= consumed_after_block(vs, cur.take(0), s0.local_let_bindings@, sv.lets@)) by {
            assert forall|n: Seq<char>| views(restored@).to_set().contains(n) <==> consumed_after_block(vs, cur.take(0), s0.local_let_bindings@, sv.lets@).contains(n) by {
                assert(!cur.take(0).contains(n));
            }
        }
        let mut k: usize = 0;
        while k < self.consumed_bindings.len()
            invariant
                k <= self.consumed_bindings@.len(),
                *self == s0,
                cur == views(s0.consumed_bindings@),
                cur.len() == s0.consumed_bindings@.len(),
                lets == sv.lets,
                views(restored@).to_set() == consumed_after_block(vs, cur.take(k as int), s0.local_let_bindings@, sv.lets@),
            decreases self.consumed_bindings.len() - k,
        {
            let name = &self.consumed_bindings[k];
            assert(cur[k as int] == name@);
            let introduced = let_bound(&self.local_let_bindings, name.as_str()) && !let_bound(&lets, name.as_str());
            let ghost before = views(restored@).to_set();
            if !introduced {
                insert_name(&mut restored, name.clone());
            }
            proof {
                assert(views(restored@).to_set() =~= consumed_after_block(vs, cur.take(k + 1), s0.local_let_bindings@, sv.lets@)) by {
                    assert forall|n: Seq<char>| #![trigger consumed_after_block(vs, cur.take(k + 1), s0.local_let_bindings@, sv.lets@).contains(n)]
                        views(restored@).to_set().contains(n) <==> consumed_after_block(vs, cur.take(k + 1), s0.local_let_bindings@, sv.lets@).contains(n) by {
                        lemma_take_push_contains(cur, k as int, n);
                    }
                }
            }
            k += 1;
        }
        assert(cur.take(k as int) =~= cur);
        self.inference_scopes = inference;
        self.local_let_bindings = lets;
        self.closure_binding_captures = captures;
        self.consumed_bindings = restored;
    }
}

} // verus!

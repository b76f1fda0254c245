//! A closure value that escapes takes its captures with it.
//!
//! Where a closure value moves to another owner (a `sink` argument, a
//! field, an element of a collection), each binding it captures is
//! consumed, and so is each binding captured by a closure it captures,
//! transitively.

use vstd::prelude::*;
use crate::analyzer::{find_names, insert_name, lookup_names, SemanticAnalyzer};
use crate::ast::Expr;
use crate::closures::captures_of;
use crate::text::{list_contains, views};

verus! {

broadcast use vstd::std_specs::vec::group_vec_axioms;

/// The captures of the closure binding `n`; none when `n` is not one.
pub open spec fn captures_of_name(cb: Seq<(String, Vec<String>)>, n: Seq<char>) -> Seq<Seq<char>> {
    match lookup_names(cb, n) {
        Some(c) => c,
        None => seq![],
    }
}

/// The names reached from `init` in at most `k` steps from a closure
/// binding to one of its captures.
pub open spec fn reach_within(cb: Seq<(String, Vec<String>)>, init: Set<Seq<char>>, k: nat) -> Set<Seq<char>>
    decreases k,
{
    if k == 0 {
        init
    } else {
        let prev = reach_within(cb, init, (k - 1) as nat);
        prev.union(Set::new(|c: Seq<char>| exists|n: Seq<char>| prev.contains(n) && #[trigger] captures_of_name(cb, n).contains(c)))
    }
}

/// `init` and every name captured, transitively, by a closure binding
/// among them.
pub open spec fn transitive_captures(cb: Seq<(String, Vec<String>)>, init: Set<Seq<char>>) -> Set<Seq<char>> {
    Set::new(|c: Seq<char>| exists|k: nat| #[trigger] reach_within(cb, init, k).contains(c))
}

/// Every name that some closure binding captures.
pub open spec fn capture_universe(cb: Seq<(String, Vec<String>)>) -> Set<Seq<char>> {
    cb.map_values(|e: (String, Vec<String>)| views(e.1@)).flatten().to_set()
}

proof fn lemma_lookup_in_universe(cb: Seq<(String, Vec<String>)>, n: Seq<char>, c: Seq<char>)
    requires
        captures_of_name(cb, n).contains(c),
    ensures
        capture_universe(cb).contains(c),
    decreases cb.len(),
{
    let m = cb.map_values(|e: (String, Vec<String>)| views(e.1@));
    assert(m.flatten() == m[0] + m.drop_first().flatten());
    if cb[0].0@ == n {
        let i = choose|i: int| 0 <= i < views(cb[0].1@).len() && views(cb[0].1@)[i] == c;
        assert(m.flatten()[i] == c);
    } else {
        lemma_lookup_in_universe(cb.drop_first(), n, c);
        let rest = cb.drop_first().map_values(|e: (String, Vec<String>)| views(e.1@));
        assert(rest =~= m.drop_first());
        let j = choose|j: int| 0 <= j < rest.flatten().len() && rest.flatten()[j] == c;
        assert(m.flatten()[m[0].len() + j] == c);
    }
}

/// A set that holds `init` and the captures of each closure binding in it
/// holds every name reached from `init`.
proof fn lemma_reach_closed(cb: Seq<(String, Vec<String>)>, init: Set<Seq<char>>, v: Set<Seq<char>>, k: nat)
    requires
        init.subset_of(v),
        forall|n: Seq<char>, c: Seq<char>| v.contains(n) && #[trigger] captures_of_name(cb, n).contains(c) ==> v.contains(c),
    ensures
        reach_within(cb, init, k).subset_of(v),
    decreases k,
{
    if k > 0 {
        lemma_reach_closed(cb, init, v, (k - 1) as nat);
    }
}

/// The captures of a name reached are reached.
proof fn lemma_reach_step(cb: Seq<(String, Vec<String>)>, init: Set<Seq<char>>, n: Seq<char>, c: Seq<char>)
    requires
        transitive_captures(cb, init).contains(n),
        captures_of_name(cb, n).contains(c),
    ensures
        transitive_captures(cb, init).contains(c),
{
    let k = choose|k: nat| #[trigger] reach_within(cb, init, k).contains(n);
    assert(reach_within(cb, init, k + 1).contains(c));
}

impl SemanticAnalyzer {
    /// Mark each of `initial` consumed, and each binding that a closure
    /// binding among them captures, transitively.
    pub fn mark_captures_consumed(&mut self, initial: &Vec<String>)
        ensures
            views(final(self).consumed_bindings@).to_set() == views(old(self).consumed_bindings@).to_set().union(
                transitive_captures(old(self).closure_binding_captures@, views(initial@).to_set()),
            ),
            views(old(self).consumed_bindings@).no_duplicates() ==> views(final(self).consumed_bindings@).no_duplicates(),
            final(self).same_but_consumed(*old(self)),
    {
        let ghost cb = self.closure_binding_captures@;
        let ghost init = views(initial@).to_set();
        let ghost t = transitive_captures(cb, init);
        let ghost u = init.union(capture_universe(cb));
        let ghost c0 = views(self.consumed_bindings@).to_set();
        let ghost s0 = *self;
        proof {
            vstd::seq_lib::seq_to_set_is_finite(views(initial@));
            vstd::seq_lib::seq_to_set_is_finite(cb.map_values(|e: (String, Vec<String>)| views(e.1@)).flatten());
            assert forall|n: Seq<char>| init.contains(n) implies t.contains(n) by {
                assert(reach_within(cb, init, 0).contains(n));
            }
        }
        let mut visited: Vec<String> = Vec::new();
        let mut stack: Vec<String> = crate::closures::copy_names(initial);
        assert(views(stack@).to_set() =~= init);
        while stack.len() > 0
            invariant
                u.finite(),
                self.closure_binding_captures@ == cb,
                self.same_but_consumed(s0),
                views(visited@).to_set().subset_of(t),
                forall|i: int| 0 <= i < stack@.len() ==> t.contains(#[trigger] views(stack@)[i]),
                forall|n: Seq<char>| init.contains(n) ==> views(visited@).contains(n) || views(stack@).contains(n),
                forall|n: Seq<char>, c: Seq<char>| views(visited@).contains(n) && #[trigger] captures_of_name(cb, n).contains(c)
                    ==> views(visited@).contains(c) || views(stack@).contains(c),
                views(visited@).to_set().subset_of(u),
                forall|i: int| 0 <= i < stack@.len() ==> u.contains(#[trigger] views(stack@)[i]),
                views(self.consumed_bindings@).to_set() == c0.union(views(visited@).to_set()),
                views(s0.consumed_bindings@).no_duplicates() ==> views(self.consumed_bindings@).no_duplicates(),
            decreases u.difference(views(visited@).to_set()).len(), stack@.len(),
        {
            let ghost before_stack = views(stack@);
            let ghost before_visited = views(visited@);
            let name = stack.pop().unwrap();
            assert(before_stack =~= views(stack@).push(name@));
            assert(before_stack[before_stack.len() - 1] == name@);
            assert forall|i: int| 0 <= i < stack@.len() implies t.contains(#[trigger] views(stack@)[i])
                && u.contains(views(stack@)[i]) by {
                assert(views(stack@)[i] == before_stack[i]);
            }
            assert(t.contains(name@) && u.contains(name@));
            let ghost after_pop = views(stack@);
            assert(forall|x: Seq<char>| views(stack@).contains(x) ==> before_stack.contains(x)) by {
                assert forall|x: Seq<char>| views(stack@).contains(x) implies before_stack.contains(x) by {
                    let j = choose|j: int| 0 <= j < views(stack@).len() && views(stack@)[j] == x;
                    assert(before_stack[j] == x);
                }
            }
            assert(forall|x: Seq<char>| before_stack.contains(x) ==> views(stack@).contains(x) || x == name@) by {
                assert forall|x: Seq<char>| before_stack.contains(x) implies views(stack@).contains(x) || x == name@ by {
                    let j = choose|j: int| 0 <= j < before_stack.len() && before_stack[j] == x;
                    if j < views(stack@).len() {
                        assert(views(stack@)[j] == x);
                    }
                }
            }
            if list_contains(&visited, name.as_str()) {
                assert(views(visited@).to_set() == before_visited.to_set());
            } else {
                let copy = name.clone();
                visited.push(copy);
                assert(views(visited@) =~= before_visited.push(name@));
                assert(views(visited@).to_set() =~= before_visited.to_set().insert(name@)) by {
                    assert forall|x: Seq<char>| views(visited@).contains(x) <==> (before_visited.contains(x) || x == name@) by {
                        if before_visited.contains(x) {
                            let j = choose|j: int| 0 <= j < before_visited.len() && before_visited[j] == x;
                            assert(views(visited@)[j] == x);
                        }
                        if x == name@ {
                            assert(views(visited@)[before_visited.len() as int] == x);
                        }
                        if views(visited@).contains(x) {
                            let j = choose|j: int| 0 <= j < views(visited@).len() && views(visited@)[j] == x;
                            if j < before_visited.len() {
                                assert(before_visited[j] == x);
                            }
                        }
                    }
                }
                proof {
                    assert(u.difference(views(visited@).to_set()) =~= u.difference(before_visited.to_set()).remove(name@));
                    assert(u.difference(before_visited.to_set()).contains(name@));
                }
                match find_names(&self.closure_binding_captures, name.as_str()) {
                    Some(nested) => {
                        assert(captures_of_name(cb, name@) == views(nested@));
                        let ghost mid = views(stack@);
                        assert(mid == after_pop);
                        let mut j: usize = 0;
                        while j < nested.len()
                            invariant
                                j <= nested@.len(),
                                captures_of_name(cb, name@) == views(nested@),
                                views(visited@).contains(name@),
                                forall|i: int| 0 <= i < stack@.len() ==> t.contains(#[trigger] views(stack@)[i]),
                                forall|i: int| 0 <= i < stack@.len() ==> u.contains(#[trigger] views(stack@)[i]),
                                forall|x: Seq<char>| mid.contains(x) ==> views(stack@).contains(x),
                                forall|i: int| 0 <= i < j ==> views(visited@).contains(#[trigger] views(nested@)[i])
                                    || views(stack@).contains(views(nested@)[i]),
                            decreases nested.len() - j,
                        {
                            let cap = &nested[j];
                            if !list_contains(&visited, cap.as_str()) {
                                let ghost sb = views(stack@);
                                let copy = cap.clone();
                                stack.push(copy);
                                assert(views(stack@) =~= sb.push(cap@));
                                proof {
                                    assert(captures_of_name(cb, name@).contains(cap@)) by {
                                        assert(captures_of_name(cb, name@)[j as int] == cap@);
                                    }
                                    lemma_reach_step(cb, init, name@, cap@);
                                    lemma_lookup_in_universe(cb, name@, cap@);
                                    assert forall|x: Seq<char>| sb.contains(x) implies views(stack@).contains(x) by {
                                        let q = choose|q: int| 0 <= q < sb.len() && sb[q] == x;
                                        assert(views(stack@)[q] == x);
                                    }
                                    assert(views(stack@)[sb.len() as int] == cap@);
                                    assert forall|i: int| 0 <= i < j + 1 implies views(visited@).contains(#[trigger] views(nested@)[i])
                                        || views(stack@).contains(views(nested@)[i]) by {
                                        if i < j {
                                            if sb.contains(views(nested@)[i]) {
                                            }
                                        }
                                    }
                                }
                            }
                            j += 1;
                        }
                        assert forall|c: Seq<char>| captures_of_name(cb, name@).contains(c)
                            implies views(visited@).contains(c) || views(stack@).contains(c) by {
                            let q = choose|q: int| 0 <= q < views(nested@).len() && views(nested@)[q] == c;
                            assert(views(visited@).contains(views(nested@)[q]) || views(stack@).contains(views(nested@)[q]));
                        }
                    },
                    None => {
                        assert(captures_of_name(cb, name@) =~= Seq::<Seq<char>>::empty());
                    },
                }
                insert_name(&mut self.consumed_bindings, name);
            }
            proof {
                assert(views(visited@).contains(name@)) by {
                    assert(views(visited@).to_set().contains(name@));
                }
                assert forall|x: Seq<char>| before_visited.contains(x) implies views(visited@).contains(x) by {
                    assert(before_visited.to_set().contains(x));
                    assert(views(visited@).to_set().contains(x));
                }
                assert forall|x: Seq<char>| views(visited@).contains(x) implies before_visited.contains(x) || x == name@ by {
                    assert(views(visited@).to_set().contains(x));
                }
                assert forall|n: Seq<char>| init.contains(n) implies views(visited@).contains(n) || views(stack@).contains(n) by {
                    if !before_visited.contains(n) {
                        assert(before_stack.contains(n));
                        if n != name@ {
                            assert(after_pop.contains(n));
                        }
                    }
                }
                assert forall|n: Seq<char>, c: Seq<char>| views(visited@).contains(n) && #[trigger] captures_of_name(cb, n).contains(c)
                    implies views(visited@).contains(c) || views(stack@).contains(c) by {
                    if before_visited.contains(n) {
                        if !before_visited.contains(c) {
                            assert(before_stack.contains(c));
                            if c != name@ {
                                assert(after_pop.contains(c));
                            }
                        }
                    }
                }
            }
        }
        proof {
            assert forall|n: Seq<char>| init.contains(n) implies views(visited@).to_set().contains(n) by {
                assert(views(visited@).contains(n));
            }
            assert forall|n: Seq<char>, c: Seq<char>| views(visited@).to_set().contains(n) && #[trigger] captures_of_name(cb, n).contains(c)
                implies views(visited@).to_set().contains(c) by {
                assert(views(visited@).contains(n));
            }
            assert forall|c: Seq<char>| t.contains(c) implies views(visited@).to_set().contains(c) by {
                let k = choose|k: nat| #[trigger] reach_within(cb, init, k).contains(c);
                lemma_reach_closed(cb, init, views(visited@).to_set(), k);
            }
            assert(views(visited@).to_set() =~= t);
        }
    }

    /// If `expr` is a closure value (a tracked closure binding or a
    /// literal), mark its captures consumed, transitively: it escapes at
    /// a sink argument, a field or an element of a collection.
    pub fn escape_closure_value(&mut self, expr: &Expr)
        ensures
            views(final(self).consumed_bindings@).to_set() == views(old(self).consumed_bindings@).to_set().union(
                match captures_of(old(self).closure_binding_captures@, *expr) {
                    Some(caps) => transitive_captures(old(self).closure_binding_captures@, caps.to_set()),
                    None => Set::<Seq<char>>::empty(),
                },
            ),
            views(old(self).consumed_bindings@).no_duplicates() ==> views(final(self).consumed_bindings@).no_duplicates(),
            final(self).same_but_consumed(*old(self)),
    {
        match self.closure_captures_of_expr(expr) {
            Some(caps) => self.mark_captures_consumed(&caps),
            None => {
                assert(views(self.consumed_bindings@).to_set() =~= views(self.consumed_bindings@).to_set().union(Set::<Seq<char>>::empty()));
            },
        }
    }
}

} // verus!

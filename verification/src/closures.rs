//! Closure escape and capture tracking.
//!
//! Tracks the captures of closure values as they flow through the program
//! (assignment, sink-pass, struct field, return) so that ownership moves
//! with a closure that leaves its function.

use vstd::prelude::*;
use crate::analyzer::{find_convention, find_names, insert_name, lookup_convention, lookup_names, SemanticAnalyzer};
use crate::ast::{ClosureParam, Expr, Ident, MatchArm, ParamConvention, Span, Type};
use crate::free_vars::{closure_param_names, closure_params_scope, dedup_into, free_refs, scope_set};
use crate::text::views;

verus! {

broadcast use vstd::std_specs::vec::group_vec_axioms;

/// The scope of a closure's parameters alone binds exactly their names.
pub proof fn lemma_scope_set_of_params(params: Vec<String>)
    ensures
        scope_set(params@, seq![]) == views(params@).to_set(),
{
    assert(scope_set(params@, seq![]) =~= views(params@).to_set());
}

/// The captures of a closure literal: each free name of its body, once,
/// in the order met.
pub open spec fn literal_captures(params: Seq<ClosureParam>, body: Expr) -> Seq<Seq<char>> {
    dedup_into(seq![], free_refs(body, closure_param_names(params).to_set()))
}

/// The captures for a closure value: a tracked closure binding, a closure
/// literal, or a group around one; `None` for anything else.
pub open spec fn captures_of(tracked_bindings: Seq<(String, Vec<String>)>, e: Expr) -> Option<Seq<Seq<char>>>
    decreases e,
{
    match e {
        Expr::Reference { path, .. } => {
            if path@.len() == 1 { lookup_names(tracked_bindings, path@[0].name@) } else { None }
        },
        Expr::ClosureExpr { params, body, .. } => Some(literal_captures(params@, *body)),
        Expr::Group { expr, .. } => captures_of(tracked_bindings, *expr),
        _ => None,
    }
}

/// The views of a list of captured names with their spans.
pub open spec fn capture_views(s: Seq<(Vec<String>, Span)>) -> Seq<(Seq<Seq<char>>, Span)> {
    s.map_values(|p: (Vec<String>, Span)| (views(p.0@), p.1))
}

/// The names of `caps` that are `sink` parameters of the current function.
pub open spec fn sink_params_in(conventions: Seq<(String, ParamConvention)>, caps: Seq<Seq<char>>) -> Set<Seq<char>> {
    caps.to_set().filter(|n: Seq<char>| lookup_convention(conventions, n) == Some(ParamConvention::Sink))
}

/// The names that any of the capture lists of `s` holds.
pub open spec fn all_capture_names(s: Seq<(Seq<Seq<char>>, Span)>) -> Set<Seq<char>> {
    Set::new(|n: Seq<char>| exists|i: int| 0 <= i < s.len() && (#[trigger] s[i]).0.contains(n))
}

/// A return type that can carry a closure out of the function: anything
/// but a primitive, or no declared type.
pub open spec fn carries_aggregate(return_type: Option<&Type>) -> bool {
    match return_type {
        Some(t) => !(*t is Primitive),
        None => false,
    }
}

impl SemanticAnalyzer {
    /// Closures that escape through the result of `e`, each with its
    /// captures and its span. Blocks, `let` bodies, and the branches of
    /// `if` and `match` pass their result on; a struct constructor, an
    /// enum payload, a tuple, an array and a dictionary hold theirs.
    pub open spec fn returned_captures(&self, e: Expr) -> Seq<(Seq<Seq<char>>, Span)>
        decreases e,
    {
        match e {
            Expr::ClosureExpr { params, body, span, .. } => seq![(literal_captures(params@, *body), span)],
            Expr::Reference { path, span } => {
                if path@.len() == 1 {
                    match lookup_names(self.fn_scope_closure_captures@, path@[0].name@) {
                        Some(c) => seq![(c, span)],
                        None => match lookup_names(self.closure_binding_captures@, path@[0].name@) {
                            Some(c) => seq![(c, span)],
                            None => seq![],
                        },
                    }
                } else {
                    seq![]
                }
            },
            Expr::Group { expr, .. } => self.returned_captures(*expr),
            Expr::Block { result, .. } => self.returned_captures(*result),
            Expr::LetExpr { body, .. } => self.returned_captures(*body),
            Expr::IfExpr { then_branch, else_branch, .. } => self.returned_captures(*then_branch) + match else_branch {
                Some(x) => self.returned_captures(*x),
                None => seq![],
            },
            Expr::MatchExpr { arms, .. } => self.returned_captures_arms(arms@),
            Expr::Invocation { path, args, .. } => {
                if path@.len() > 0 && self.symbols.has_struct(path@.last().name@) {
                    self.returned_captures_args(args@)
                } else {
                    seq![]
                }
            },
            Expr::EnumInstantiation { data, .. } => self.returned_captures_labeled(data@),
            Expr::InferredEnumInstantiation { data, .. } => self.returned_captures_labeled(data@),
            Expr::Tuple { fields, .. } => self.returned_captures_labeled(fields@),
            Expr::Array { elements, .. } => self.returned_captures_list(elements@),
            Expr::DictLiteral { entries, .. } => self.returned_captures_entries(entries@),
            _ => seq![],
        }
    }

    pub open spec fn returned_captures_arms(&self, s: Seq<MatchArm>) -> Seq<(Seq<Seq<char>>, Span)>
        decreases s,
    {
        if s.len() == 0 { seq![] } else { self.returned_captures_arms(s.drop_last()) + self.returned_captures(s.last().body) }
    }

    pub open spec fn returned_captures_args(&self, s: Seq<(Option<Ident>, Expr)>) -> Seq<(Seq<Seq<char>>, Span)>
        decreases s,
    {
        if s.len() == 0 { seq![] } else { self.returned_captures_args(s.drop_last()) + self.returned_captures(s.last().1) }
    }

    pub open spec fn returned_captures_labeled(&self, s: Seq<(Ident, Expr)>) -> Seq<(Seq<Seq<char>>, Span)>
        decreases s,
    {
        if s.len() == 0 { seq![] } else { self.returned_captures_labeled(s.drop_last()) + self.returned_captures(s.last().1) }
    }

    pub open spec fn returned_captures_list(&self, s: Seq<Expr>) -> Seq<(Seq<Seq<char>>, Span)>
        decreases s,
    {
        if s.len() == 0 { seq![] } else { self.returned_captures_list(s.drop_last()) + self.returned_captures(s.last()) }
    }

    pub open spec fn returned_captures_entries(&self, s: Seq<(Expr, Expr)>) -> Seq<(Seq<Seq<char>>, Span)>
        decreases s,
    {
        if s.len() == 0 {
            seq![]
        } else {
            self.returned_captures_entries(s.drop_last()) + self.returned_captures(s.last().0)
                + self.returned_captures(s.last().1)
        }
    }

    /// The captures of the closure literal `params => body`.
    fn captures_of_literal(params: &Vec<ClosureParam>, body: &Expr) -> (r: Vec<String>)
        ensures
            views(r@) == literal_captures(params@, *body),
    {
        let scope = closure_params_scope(params);
        proof { lemma_scope_set_of_params(scope); }
        Self::collect_free_variables(body, &scope)
    }

    /// Captures for a closure value: tracked binding, literal, or `Group`
    /// wrapping one. `None` for anything else.
    pub fn closure_captures_of_expr(&self, expr: &Expr) -> (r: Option<Vec<String>>)
        ensures
            r is Some <==> captures_of(self.closure_binding_captures@, *expr) is Some,
            r matches Some(v) ==> captures_of(self.closure_binding_captures@, *expr) == Some(views(v@)),
        decreases *expr,
    {
        match expr {
            Expr::Reference { path, .. } => {
                if path.len() != 1 {
                    return None;
                }
                match find_names(&self.closure_binding_captures, path[0].name.as_str()) {
                    Some(caps) => Some(copy_names(caps)),
                    None => None,
                }
            },
            Expr::ClosureExpr { params, body, .. } => Some(Self::captures_of_literal(params, body)),
            Expr::Group { expr: inner, .. } => self.closure_captures_of_expr(inner),
            _ => None,
        }
    }

    /// The closures that the arms of a `match` return.
    fn returned_in_arms(&self, items: &Vec<MatchArm>, out: &mut Vec<(Vec<String>, Span)>)
        ensures
            capture_views(final(out)@) == capture_views(old(out)@) + self.returned_captures_arms(items@),
        decreases items@, 0nat,
    {
        let ghost o0 = capture_views(out@);
        let mut k: usize = 0;
        while k < items.len()
            invariant
                k <= items@.len(),
                capture_views(out@) == o0 + self.returned_captures_arms(items@.take(k as int)),
            decreases items.len() - k,
        {
            proof {
                assert(items@.take(k + 1).drop_last() =~= items@.take(k as int));
                assert(decreases_to!(items@ => items@[k as int]));
            }
            let ghost before = self.returned_captures_arms(items@.take(k as int));
            self.collect_returned_closure_captures_rec(&items[k].body, out);
            assert(o0 + before + self.returned_captures(items@[k as int].body) =~= o0 + (before + self.returned_captures(items@[k as int].body)));
            let ghost before = before + self.returned_captures(items@[k as int].body);
            k += 1;
        }
        assert(items@.take(k as int) =~= items@);
    }

    /// The closures that the arguments of a struct constructor hold.
    fn returned_in_args(&self, items: &Vec<(Option<Ident>, Expr)>, out: &mut Vec<(Vec<String>, Span)>)
        ensures
            capture_views(final(out)@) == capture_views(old(out)@) + self.returned_captures_args(items@),
        decreases items@, 0nat,
    {
        let ghost o0 = capture_views(out@);
        let mut k: usize = 0;
        while k < items.len()
            invariant
                k <= items@.len(),
                capture_views(out@) == o0 + self.returned_captures_args(items@.take(k as int)),
            decreases items.len() - k,
        {
            proof {
                assert(items@.take(k + 1).drop_last() =~= items@.take(k as int));
                assert(decreases_to!(items@ => items@[k as int]));
            }
            let ghost before = self.returned_captures_args(items@.take(k as int));
            self.collect_returned_closure_captures_rec(&items[k].1, out);
            assert(o0 + before + self.returned_captures(items@[k as int].1) =~= o0 + (before + self.returned_captures(items@[k as int].1)));
            let ghost before = before + self.returned_captures(items@[k as int].1);
            k += 1;
        }
        assert(items@.take(k as int) =~= items@);
    }

    /// The closures that labelled values hold.
    fn returned_in_labeled(&self, items: &Vec<(Ident, Expr)>, out: &mut Vec<(Vec<String>, Span)>)
        ensures
            capture_views(final(out)@) == capture_views(old(out)@) + self.returned_captures_labeled(items@),
        decreases items@, 0nat,
    {
        let ghost o0 = capture_views(out@);
        let mut k: usize = 0;
        while k < items.len()
            invariant
                k <= items@.len(),
                capture_views(out@) == o0 + self.returned_captures_labeled(items@.take(k as int)),
            decreases items.len() - k,
        {
            proof {
                assert(items@.take(k + 1).drop_last() =~= items@.take(k as int));
                assert(decreases_to!(items@ => items@[k as int]));
            }
            let ghost before = self.returned_captures_labeled(items@.take(k as int));
            self.collect_returned_closure_captures_rec(&items[k].1, out);
            assert(o0 + before + self.returned_captures(items@[k as int].1) =~= o0 + (before + self.returned_captures(items@[k as int].1)));
            let ghost before = before + self.returned_captures(items@[k as int].1);
            k += 1;
        }
        assert(items@.take(k as int) =~= items@);
    }

    /// The closures that the elements of an array hold.
    fn returned_in_list(&self, items: &Vec<Expr>, out: &mut Vec<(Vec<String>, Span)>)
        ensures
            capture_views(final(out)@) == capture_views(old(out)@) + self.returned_captures_list(items@),
        decreases items@, 0nat,
    {
        let ghost o0 = capture_views(out@);
        let mut k: usize = 0;
        while k < items.len()
            invariant
                k <= items@.len(),
                capture_views(out@) == o0 + self.returned_captures_list(items@.take(k as int)),
            decreases items.len() - k,
        {
            proof {
                assert(items@.take(k + 1).drop_last() =~= items@.take(k as int));
                assert(decreases_to!(items@ => items@[k as int]));
            }
            let ghost before = self.returned_captures_list(items@.take(k as int));
            self.collect_returned_closure_captures_rec(&items[k], out);
            assert(o0 + before + self.returned_captures(items@[k as int]) =~= o0 + (before + self.returned_captures(items@[k as int])));
            let ghost before = before + self.returned_captures(items@[k as int]);
            k += 1;
        }
        assert(items@.take(k as int) =~= items@);
    }

    /// The closures that the keys and values of a dictionary literal hold.
    fn returned_in_entries(&self, items: &Vec<(Expr, Expr)>, out: &mut Vec<(Vec<String>, Span)>)
        ensures
            capture_views(final(out)@) == capture_views(old(out)@) + self.returned_captures_entries(items@),
        decreases items@, 0nat,
    {
        let ghost o0 = capture_views(out@);
        let mut k: usize = 0;
        while k < items.len()
            invariant
                k <= items@.len(),
                capture_views(out@) == o0 + self.returned_captures_entries(items@.take(k as int)),
            decreases items.len() - k,
        {
            proof {
                assert(items@.take(k + 1).drop_last() =~= items@.take(k as int));
                assert(decreases_to!(items@ => items@[k as int]));
            }
            let ghost before = self.returned_captures_entries(items@.take(k as int));
            self.collect_returned_closure_captures_rec(&items[k].0, out);
            assert(o0 + before + self.returned_captures(items@[k as int].0) =~= o0 + (before + self.returned_captures(items@[k as int].0)));
            let ghost before = before + self.returned_captures(items@[k as int].0);
            self.collect_returned_closure_captures_rec(&items[k].1, out);
            assert(o0 + before + self.returned_captures(items@[k as int].1) =~= o0 + (before + self.returned_captures(items@[k as int].1)));
            let ghost before = before + self.returned_captures(items@[k as int].1);
            k += 1;
        }
        assert(items@.take(k as int) =~= items@);
    }

    /// Closures escaping via the function's result expression, with
    /// captures and span.
    pub fn collect_returned_closure_captures(&self, expr: &Expr) -> (r: Vec<(Vec<String>, Span)>)
        ensures
            capture_views(r@) == self.returned_captures(*expr),
    {
        let mut results: Vec<(Vec<String>, Span)> = Vec::new();
        assert(capture_views(results@) =~= Seq::<(Seq<Seq<char>>, Span)>::empty());
        self.collect_returned_closure_captures_rec(expr, &mut results);
        assert(capture_views(results@) =~= self.returned_captures(*expr));
        results
    }

    /// Append the closures escaping through `expr` to `out`. Recurses
    /// through the result of a block, a `let` body, the branches of `if`
    /// and `match`, and the parts of an aggregate; a call of a function
    /// does not return its arguments, so only a struct constructor counts.
    pub fn collect_returned_closure_captures_rec(&self, expr: &Expr, out: &mut Vec<(Vec<String>, Span)>)
        ensures
            capture_views(final(out)@) == capture_views(old(out)@) + self.returned_captures(*expr),
        decreases *expr, 1nat,
    {
        let ghost e0 = *expr;
        let ghost o0 = capture_views(out@);
        match expr {
            Expr::ClosureExpr { params, body, span, .. } => {
                let caps = Self::captures_of_literal(params, body);
                out.push((caps, *span));
                assert(capture_views(out@) =~= o0 + seq![(literal_captures(params@, **body), *span)]);
            },
            Expr::Reference { path, span } => {
                if path.len() == 1 {
                    let name = path[0].name.as_str();
                    let found = match find_names(&self.fn_scope_closure_captures, name) {
                        Some(caps) => Some(caps),
                        None => find_names(&self.closure_binding_captures, name),
                    };
                    match found {
                        Some(caps) => {
                            out.push((copy_names(caps), *span));
                            assert(capture_views(out@) =~= o0 + seq![(views(caps@), *span)]);
                        },
                        None => {
                            assert(capture_views(out@) =~= o0 + Seq::<(Seq<Seq<char>>, Span)>::empty());
                        },
                    }
                } else {
                    assert(capture_views(out@) =~= o0 + Seq::<(Seq<Seq<char>>, Span)>::empty());
                }
            },
            Expr::Group { expr: inner, .. } => {
                self.collect_returned_closure_captures_rec(inner, out);
            },
            Expr::Block { result, .. } => {
                self.collect_returned_closure_captures_rec(result, out);
            },
            Expr::LetExpr { body, .. } => {
                self.collect_returned_closure_captures_rec(body, out);
            },
            Expr::IfExpr { then_branch, else_branch, .. } => {
                self.collect_returned_closure_captures_rec(then_branch, out);
                match else_branch {
                    Some(x) => {
                        self.collect_returned_closure_captures_rec(x, out);
                        assert(o0 + self.returned_captures(**then_branch) + self.returned_captures(**x)
                            =~= o0 + (self.returned_captures(**then_branch) + self.returned_captures(**x)));
                    },
                    None => {
                        assert(self.returned_captures(**then_branch) + Seq::<(Seq<Seq<char>>, Span)>::empty()
                            =~= self.returned_captures(**then_branch));
                    },
                }
            },
            Expr::MatchExpr { arms, .. } => {
                proof { assert(decreases_to!(e0 => e0->arms@)); }
                self.returned_in_arms(arms, out);
            },
            Expr::Invocation { path, args, .. } => {
                let is_struct = path.len() > 0 && self.symbols.struct_index(path[path.len() - 1].name.as_str()).is_some();
                if is_struct {
                    proof { assert(decreases_to!(e0 => e0->Invocation_args@)); }
                    self.returned_in_args(args, out);
                } else {
                    assert(capture_views(out@) =~= o0 + Seq::<(Seq<Seq<char>>, Span)>::empty());
                }
            },
            Expr::EnumInstantiation { data, .. } => {
                proof { assert(decreases_to!(e0 => e0->EnumInstantiation_data@)); }
                self.returned_in_labeled(data, out);
            },
            Expr::InferredEnumInstantiation { data, .. } => {
                proof { assert(decreases_to!(e0 => e0->InferredEnumInstantiation_data@)); }
                self.returned_in_labeled(data, out);
            },
            Expr::Tuple { fields, .. } => {
                proof { assert(decreases_to!(e0 => e0->fields@)); }
                self.returned_in_labeled(fields, out);
            },
            Expr::Array { elements, .. } => {
                proof { assert(decreases_to!(e0 => e0->elements@)); }
                self.returned_in_list(elements, out);
            },
            Expr::DictLiteral { entries, .. } => {
                proof { assert(decreases_to!(e0 => e0->entries@)); }
                self.returned_in_entries(entries, out);
            },
            _ => {
                assert(capture_views(out@) =~= o0 + Seq::<(Seq<Seq<char>>, Span)>::empty());
            },
        }
    }

    /// Mark the `sink` parameters that a returned closure captures as
    /// consumed. A return type that is a primitive, or no return type, has
    /// nowhere to hold a closure, and the walk is skipped.
    pub fn validate_function_return_escape(&mut self, return_type: Option<&Type>, body: &Expr)
        ensures
            carries_aggregate(return_type) ==> views(final(self).consumed_bindings@).to_set()
                == views(old(self).consumed_bindings@).to_set().union(
                    all_capture_names(old(self).returned_captures(*body)).filter(
                        |n: Seq<char>| lookup_convention(old(self).current_fn_param_conventions@, n) == Some(ParamConvention::Sink))),
            !carries_aggregate(return_type) ==> final(self).consumed_bindings == old(self).consumed_bindings,
            final(self).errors == old(self).errors,
    {
        let carries = match return_type {
            Some(Type::Primitive(_)) => false,
            None => false,
            Some(_) => true,
        };
        if !carries {
            return;
        }
        let found = self.collect_returned_closure_captures(body);
        let ghost conv = self.current_fn_param_conventions@;
        let ghost c0 = views(self.consumed_bindings@).to_set();
        let ghost fv = capture_views(found@);
        let ghost is_sink = |n: Seq<char>| lookup_convention(conv, n) == Some(ParamConvention::Sink);
        let mut k: usize = 0;
        while k < found.len()
            invariant
                k <= found@.len(),
                fv == capture_views(found@),
                conv == self.current_fn_param_conventions@,
                self.errors == old(self).errors,
                views(self.consumed_bindings@).to_set() == c0.union(all_capture_names(fv.take(k as int)).filter(is_sink)),
            decreases found.len() - k,
        {
            self.validate_escaping_captures(&found[k].0);
            proof {
                assert(fv[k as int].0 == views(found@[k as int].0@));
                assert(all_capture_names(fv.take(k + 1)).filter(is_sink)
                    =~= all_capture_names(fv.take(k as int)).filter(is_sink).union(sink_params_in(conv, fv[k as int].0))) by {
                    assert forall|n: Seq<char>| all_capture_names(fv.take(k + 1)).contains(n)
                        <==> (all_capture_names(fv.take(k as int)).contains(n) || fv[k as int].0.contains(n)) by {
                        if all_capture_names(fv.take(k + 1)).contains(n) {
                            let i = choose|i: int| 0 <= i < fv.take(k + 1).len() && (#[trigger] fv.take(k + 1)[i]).0.contains(n);
                            if i < k {
                                assert(fv.take(k as int)[i] == fv.take(k + 1)[i]);
                            }
                        }
                        if all_capture_names(fv.take(k as int)).contains(n) {
                            let i = choose|i: int| 0 <= i < fv.take(k as int).len() && (#[trigger] fv.take(k as int)[i]).0.contains(n);
                            assert(fv.take(k + 1)[i] == fv.take(k as int)[i]);
                        }
                        if fv[k as int].0.contains(n) {
                            assert(fv.take(k + 1)[k as int] == fv[k as int]);
                        }
                    }
                }
                assert(views(self.consumed_bindings@).to_set()
                    =~= c0.union(all_capture_names(fv.take(k + 1)).filter(is_sink)));
            }
            k += 1;
        }
        assert(fv.take(k as int) =~= fv);
    }

    /// Mark each `sink` parameter in `captures` as consumed: the closure that
    /// holds the captures leaves the function, and the parameter moves with
    /// it. Any other capture is a copy.
    pub fn validate_escaping_captures(&mut self, captures: &Vec<String>)
        ensures
            views(final(self).consumed_bindings@).to_set() == views(old(self).consumed_bindings@).to_set().union(
                sink_params_in(old(self).current_fn_param_conventions@, views(captures@)),
            ),
            final(self).errors == old(self).errors,
            final(self).current_fn_param_conventions == old(self).current_fn_param_conventions,
            final(self).closure_binding_captures == old(self).closure_binding_captures,
            final(self).fn_scope_closure_captures == old(self).fn_scope_closure_captures,
            final(self).symbols == old(self).symbols,
    {
        let ghost conv = self.current_fn_param_conventions@;
        let ghost c0 = views(self.consumed_bindings@).to_set();
        let mut k: usize = 0;
        while k < captures.len()
            invariant
                k <= captures@.len(),
                conv == self.current_fn_param_conventions@,
                self.errors == old(self).errors,
                self.current_fn_param_conventions == old(self).current_fn_param_conventions,
                self.closure_binding_captures == old(self).closure_binding_captures,
                self.fn_scope_closure_captures == old(self).fn_scope_closure_captures,
                self.symbols == old(self).symbols,
                views(self.consumed_bindings@).to_set() == c0.union(sink_params_in(conv, views(captures@.take(k as int)))),
            decreases captures.len() - k,
        {
            let cap = &captures[k];
            let ghost prev = views(captures@.take(k as int));
            proof {
                crate::text::lemma_views_take_push(captures@, k as int);
                crate::free_vars::lemma_push_contains(prev, cap@);
                assert forall|n: Seq<char>| sink_params_in(conv, prev.push(cap@)).contains(n)
                    <==> (sink_params_in(conv, prev).contains(n)
                        || (n == cap@ && lookup_convention(conv, n) == Some(ParamConvention::Sink))) by {}
            }
            let is_sink = match find_convention(&self.current_fn_param_conventions, cap.as_str()) {
                Some(ParamConvention::Sink) => true,
                _ => false,
            };
            if is_sink {
                insert_name(&mut self.consumed_bindings, cap.clone());
                assert(views(self.consumed_bindings@).to_set()
                    =~= c0.union(sink_params_in(conv, views(captures@.take(k + 1)))));
            } else {
                assert(views(self.consumed_bindings@).to_set()
                    =~= c0.union(sink_params_in(conv, views(captures@.take(k + 1)))));
            }
            k += 1;
        }
        assert(captures@.take(k as int) =~= captures@);
    }
}

/// A copy of a list of names.
pub fn copy_names(names: &Vec<String>) -> (r: Vec<String>)
    ensures
        views(r@) == views(names@),
{
    let mut out: Vec<String> = Vec::new();
    let mut k: usize = 0;
    while k < names.len()
        invariant
            k <= names@.len(),
            views(out@) == views(names@.take(k as int)),
        decreases names.len() - k,
    {
        let ghost before = out@;
        out.push(names[k].clone());
        proof {
            crate::text::lemma_views_take_push(names@, k as int);
            crate::text::lemma_views_push(before, names@[k as int]);
        }
        k += 1;
    }
    assert(names@.take(k as int) =~= names@);
    out
}

} // verus!

//! The conventions of the parameters of a method, and of a closure
//! binding, at a call.
//!
//! A `mut` parameter takes a mutable place; whether an argument is one
//! is decided by the caller of these checks and handed in. A `sink`
//! parameter takes its argument away: the binding at the root of the
//! argument is consumed, and so is every capture of a closure value
//! given.

use vstd::prelude::*;
use vstd::string::StringExecFns;
use crate::analyzer::{insert_name, SemanticAnalyzer};
use crate::ast::{Expr, FnParam, Ident, ParamConvention, Span};
use crate::closures::captures_of;
use crate::error::{error_views, CompilerError, ErrorView};
use crate::escape::transitive_captures;
use crate::exclusivity::{all_overlaps, first_occurrences, overlap_reports};
use crate::expr_checks::root_of;
use crate::mut_args::{lemma_places_owned, owned_accesses, places_of};
use crate::text::{decimal, decimal_string, str_equals, views};

verus! {

broadcast use vstd::std_specs::vec::group_vec_axioms;

/// The parameters that take an argument: all but `self`.
pub open spec fn fn_arg_params(ps: Seq<FnParam>) -> Seq<FnParam>
    decreases ps.len(),
{
    if ps.len() == 0 {
        seq![]
    } else {
        fn_arg_params(ps.drop_last()) + if ps.last().name.name@ == "self"@ { Seq::<FnParam>::empty() } else { seq![ps.last()] }
    }
}

/// The first parameter called `self`.
pub open spec fn self_param(ps: Seq<FnParam>) -> Option<FnParam>
    decreases ps.len(),
{
    if ps.len() == 0 {
        None
    } else if ps[0].name.name@ == "self"@ {
        Some(ps[0])
    } else {
        self_param(ps.drop_first())
    }
}

/// The first parameter that the label `l` names, by its external label or
/// by its name.
pub open spec fn fn_labelled(ns: Seq<FnParam>, l: Seq<char>) -> Option<FnParam>
    decreases ns.len(),
{
    if ns.len() == 0 {
        None
    } else {
        match fn_labelled(ns.drop_last(), l) {
            Some(p) => Some(p),
            None => if (ns.last().external_label matches Some(x) && x.name@ == l) || ns.last().name.name@ == l {
                Some(ns.last())
            } else {
                None
            },
        }
    }
}

/// The parameter that the argument at `position` with `label` fills.
pub open spec fn fn_param_for(ns: Seq<FnParam>, position: int, label: Option<Ident>) -> Option<FnParam> {
    match label {
        None => if 0 <= position < ns.len() { Some(ns[position]) } else { None },
        Some(l) => fn_labelled(ns, l.name@),
    }
}

/// What giving `e` to a `sink` parameter consumes: the binding at its
/// root, and the captures of a closure value, transitively.
pub open spec fn sink_consumes(a: SemanticAnalyzer, e: Expr) -> Set<Seq<char>> {
    (match root_of(e) {
        Some(r) => set![r],
        None => Set::<Seq<char>>::empty(),
    }).union(match captures_of(a.closure_binding_captures@, e) {
        Some(caps) => transitive_captures(a.closure_binding_captures@, caps.to_set()),
        None => Set::<Seq<char>>::empty(),
    })
}

/// A `MutabilityMismatch` for each argument that fills a `mut` parameter
/// and is not a mutable place.
pub open spec fn fn_arg_reports(ns: Seq<FnParam>, args: Seq<(Option<Ident>, Expr)>, mutable: Seq<bool>, span: Span) -> Seq<ErrorView>
    decreases args.len(),
{
    if args.len() == 0 {
        seq![]
    } else {
        let k = args.len() - 1;
        fn_arg_reports(ns, args.drop_last(), mutable, span) + match fn_param_for(ns, k, args.last().0) {
            Some(p) => if p.convention == ParamConvention::Mut && !mutable[k] {
                seq![ErrorView::MutabilityMismatch { param: p.name.name@, span }]
            } else {
                Seq::<ErrorView>::empty()
            },
            None => Seq::<ErrorView>::empty(),
        }
    }
}

/// What the arguments that fill `sink` parameters consume.
pub open spec fn fn_args_consumed(a: SemanticAnalyzer, ns: Seq<FnParam>, args: Seq<(Option<Ident>, Expr)>) -> Set<Seq<char>>
    decreases args.len(),
{
    if args.len() == 0 {
        Set::empty()
    } else {
        let k = args.len() - 1;
        fn_args_consumed(a, ns, args.drop_last()).union(match fn_param_for(ns, k, args.last().0) {
            Some(p) => if p.convention == ParamConvention::Sink { sink_consumes(a, args.last().1) } else { Set::empty() },
            None => Set::empty(),
        })
    }
}

/// Each argument with the convention of the parameter it fills, `let`
/// when it fills none.
pub open spec fn fn_arg_accesses(ns: Seq<FnParam>, args: Seq<(Option<Ident>, Expr)>) -> Seq<(ParamConvention, Expr)>
    decreases args.len(),
{
    if args.len() == 0 {
        seq![]
    } else {
        let k = args.len() - 1;
        fn_arg_accesses(ns, args.drop_last()).push((match fn_param_for(ns, k, args.last().0) {
            Some(p) => p.convention,
            None => ParamConvention::Let,
        }, args.last().1))
    }
}

/// Each argument of a closure call with the convention at its position,
/// `let` past the closure's parameters.
pub open spec fn closure_arg_accesses(conventions: Seq<ParamConvention>, args: Seq<(Option<Ident>, Expr)>) -> Seq<(ParamConvention, Expr)>
    decreases args.len(),
{
    if args.len() == 0 {
        seq![]
    } else {
        let k = args.len() - 1;
        closure_arg_accesses(conventions, args.drop_last()).push((
            if k < conventions.len() { conventions[k] } else { ParamConvention::Let },
            args.last().1,
        ))
    }
}

/// A `MutabilityMismatch` named `arg<i>` for each argument at a `mut`
/// position that is not a mutable place.
pub open spec fn closure_arg_reports(conventions: Seq<ParamConvention>, args: Seq<(Option<Ident>, Expr)>, mutable: Seq<bool>, span: Span) -> Seq<ErrorView>
    decreases args.len(),
{
    if args.len() == 0 {
        seq![]
    } else {
        let k = args.len() - 1;
        closure_arg_reports(conventions, args.drop_last(), mutable, span) + if k < conventions.len()
            && conventions[k] == ParamConvention::Mut && !mutable[k] {
            seq![ErrorView::MutabilityMismatch { param: "arg"@ + decimal(k as nat), span }]
        } else {
            Seq::<ErrorView>::empty()
        }
    }
}

/// What the arguments at `sink` positions of a closure call consume.
pub open spec fn closure_args_consumed(a: SemanticAnalyzer, conventions: Seq<ParamConvention>, args: Seq<(Option<Ident>, Expr)>) -> Set<Seq<char>>
    decreases args.len(),
{
    if args.len() == 0 {
        Set::empty()
    } else {
        let k = args.len() - 1;
        closure_args_consumed(a, conventions, args.drop_last()).union(if k < conventions.len()
            && conventions[k] == ParamConvention::Sink {
            sink_consumes(a, args.last().1)
        } else {
            Set::empty()
        })
    }
}

/// The overlaps that the exclusive-access check reports for `accesses`.
pub open spec fn access_overlaps(accesses: Seq<(ParamConvention, Expr)>, span: Span) -> Seq<ErrorView> {
    overlap_reports(
        first_occurrences(Seq::<Seq<Seq<char>>>::empty(), all_overlaps(places_of(accesses), places_of(accesses).len() as int)),
        span,
    )
}

proof fn lemma_fn_labelled_prefix(ns: Seq<FnParam>, k: int, l: Seq<char>)
    requires
        0 <= k <= ns.len(),
        fn_labelled(ns.take(k), l) is Some,
    ensures
        fn_labelled(ns, l) == fn_labelled(ns.take(k), l),
    decreases ns.len() - k,
{
    if k < ns.len() {
        assert(ns.take(k + 1).drop_last() =~= ns.take(k));
        lemma_fn_labelled_prefix(ns, k + 1, l);
    } else {
        assert(ns.take(k) =~= ns);
    }
}

/// The first parameter of `ns` that `label` names.
fn find_fn_labelled<'a>(ns: &Vec<&'a FnParam>, label: &str) -> (r: Option<&'a FnParam>)
    ensures
        r matches Some(p) ==> fn_labelled(ns@.map_values(|q: &FnParam| *q), label@) == Some(*p),
        r is None ==> fn_labelled(ns@.map_values(|q: &FnParam| *q), label@) is None,
{
    let ghost vs = ns@.map_values(|q: &FnParam| *q);
    let mut i: usize = 0;
    while i < ns.len()
        invariant
            i <= ns@.len(),
            vs == ns@.map_values(|q: &FnParam| *q),
            fn_labelled(vs.take(i as int), label@) is None,
        decreases ns.len() - i,
    {
        proof {
            assert(vs.take(i + 1).drop_last() =~= vs.take(i as int));
            assert(vs.take(i + 1).last() == *ns@[i as int]);
        }
        let p = ns[i];
        let by_label = match &p.external_label {
            Some(l) => str_equals(l.name.as_str(), label),
            None => false,
        };
        if by_label || str_equals(p.name.name.as_str(), label) {
            proof { lemma_fn_labelled_prefix(vs, i as int + 1, label@); }
            return Some(p);
        }
        i += 1;
    }
    assert(vs.take(i as int) =~= vs);
    None
}

impl SemanticAnalyzer {
    /// Give `arg` to a `sink` parameter: consume the binding at its root,
    /// and the captures of a closure value.
    fn consume_argument(&mut self, arg: &Expr)
        ensures
            views(final(self).consumed_bindings@).to_set() == views(old(self).consumed_bindings@).to_set()
                .union(sink_consumes(*old(self), *arg)),
            final(self).same_but_consumed(*old(self)),
    {
        let ghost c0 = views(self.consumed_bindings@).to_set();
        let ghost a0 = *self;
        match Self::root_binding(arg) {
            Some(root) => {
                insert_name(&mut self.consumed_bindings, root);
            },
            None => {},
        }
        let ghost c1 = views(self.consumed_bindings@).to_set();
        assert(c1 =~= c0.union(match root_of(*arg) {
            Some(r) => set![r],
            None => Set::<Seq<char>>::empty(),
        }));
        self.escape_closure_value(arg);
        assert(views(self.consumed_bindings@).to_set() =~= c0.union(sink_consumes(a0, *arg)));
    }

    /// Check the receiver of a method call against the method's `self`
    /// parameter: `mut self` takes a mutable place (`receiver_mutable`
    /// says whether the receiver is one), and `sink self` consumes the
    /// binding at the receiver's root.
    pub fn validate_fn_param_conventions_receiver(&mut self, receiver: &Expr, params: &Vec<FnParam>, receiver_mutable: bool, span: Span)
        ensures
            error_views(final(self).errors@) == error_views(old(self).errors@) + match self_param(params@) {
                Some(p) => if p.convention == ParamConvention::Mut && !receiver_mutable {
                    seq![ErrorView::MutabilityMismatch { param: "self"@, span }]
                } else {
                    Seq::<ErrorView>::empty()
                },
                None => Seq::<ErrorView>::empty(),
            },
            views(final(self).consumed_bindings@).to_set() == views(old(self).consumed_bindings@).to_set().union(
                match (self_param(params@), root_of(*receiver)) {
                    (Some(p), Some(r)) => if p.convention == ParamConvention::Sink { set![r] } else { Set::empty() },
                    _ => Set::empty(),
                },
            ),
            final(self).symbols == old(self).symbols,
            final(self).closure_binding_captures == old(self).closure_binding_captures,
    {
        let ghost e0 = error_views(self.errors@);
        let ghost c0 = views(self.consumed_bindings@).to_set();
        let mut i: usize = 0;
        assert(params@.skip(0) =~= params@);
        while i < params.len()
            invariant
                i <= params@.len(),
                self_param(params@) == self_param(params@.skip(i as int)),
            decreases params.len() - i,
        {
            assert(params@.skip(i as int)[0] == params@[i as int]);
            if str_equals(params[i].name.name.as_str(), "self") {
                break;
            }
            assert(params@.skip(i as int).drop_first() =~= params@.skip(i + 1));
            i += 1;
        }
        if i == params.len() {
            assert(error_views(self.errors@) =~= e0 + Seq::<ErrorView>::empty());
            assert(views(self.consumed_bindings@).to_set() =~= c0.union(Set::<Seq<char>>::empty()));
            return;
        }
        let p = &params[i];
        match p.convention {
            ParamConvention::Mut => {
                if !receiver_mutable {
                    self.report(CompilerError::MutabilityMismatch { param: String::from_str("self"), span });
                } else {
                    assert(error_views(self.errors@) =~= e0 + Seq::<ErrorView>::empty());
                }
                assert(views(self.consumed_bindings@).to_set() =~= c0.union(Set::<Seq<char>>::empty()));
            },
            ParamConvention::Sink => {
                match Self::root_binding(receiver) {
                    Some(root) => {
                        insert_name(&mut self.consumed_bindings, root);
                    },
                    None => {
                        assert(views(self.consumed_bindings@).to_set() =~= c0.union(Set::<Seq<char>>::empty()));
                    },
                }
                assert(error_views(self.errors@) =~= e0 + Seq::<ErrorView>::empty());
            },
            ParamConvention::Let => {
                assert(error_views(self.errors@) =~= e0 + Seq::<ErrorView>::empty());
                assert(views(self.consumed_bindings@).to_set() =~= c0.union(Set::<Seq<char>>::empty()));
            },
        }
    }

    /// Check the arguments of a method call against the method's other
    /// parameters: an argument at a `mut` parameter must be a mutable
    /// place (`mutable` says, argument by argument), and one at a `sink`
    /// parameter is consumed. Each argument comes back with the convention
    /// of the parameter it fills, for the exclusive-access check.
    pub fn validate_fn_param_conventions_args<'a>(
        &mut self,
        params: &Vec<FnParam>,
        args: &'a Vec<(Option<Ident>, Expr)>,
        mutable: &Vec<bool>,
        span: Span,
    ) -> (r: Vec<(ParamConvention, &'a Expr)>)
        requires
            mutable@.len() == args@.len(),
        ensures
            error_views(final(self).errors@) == error_views(old(self).errors@)
                + fn_arg_reports(fn_arg_params(params@), args@, mutable@, span),
            views(final(self).consumed_bindings@).to_set() == views(old(self).consumed_bindings@).to_set()
                .union(fn_args_consumed(*old(self), fn_arg_params(params@), args@)),
            owned_accesses(r@) == fn_arg_accesses(fn_arg_params(params@), args@),
            final(self).symbols == old(self).symbols,
            final(self).closure_binding_captures == old(self).closure_binding_captures,
    {
        let ghost a0 = *self;
        let ghost e0 = error_views(self.errors@);
        let ghost c0 = views(self.consumed_bindings@).to_set();
        let mut non_self: Vec<&FnParam> = Vec::new();
        let mut i: usize = 0;
        while i < params.len()
            invariant
                i <= params@.len(),
                non_self@.map_values(|p: &FnParam| *p) == fn_arg_params(params@.take(i as int)),
            decreases params.len() - i,
        {
            proof {
                assert(params@.take(i + 1).drop_last() =~= params@.take(i as int));
                assert(params@.take(i + 1).last() == params@[i as int]);
            }
            let ghost nb = non_self@;
            if !str_equals(params[i].name.name.as_str(), "self") {
                non_self.push(&params[i]);
                assert(non_self@.map_values(|p: &FnParam| *p) =~= nb.map_values(|p: &FnParam| *p).push(params@[i as int]));
            } else {
                assert(non_self@.map_values(|p: &FnParam| *p) =~= nb.map_values(|p: &FnParam| *p) + Seq::<FnParam>::empty());
            }
            i += 1;
        }
        assert(params@.take(i as int) =~= params@);
        let ghost ns = fn_arg_params(params@);
        let mut accesses: Vec<(ParamConvention, &'a Expr)> = Vec::new();
        let mut k: usize = 0;
        while k < args.len()
            invariant
                k <= args@.len(),
                mutable@.len() == args@.len(),
                non_self@.map_values(|p: &FnParam| *p) == ns,
                self.symbols == a0.symbols,
                self.closure_binding_captures == a0.closure_binding_captures,
                error_views(self.errors@) == e0 + fn_arg_reports(ns, args@.take(k as int), mutable@, span),
                views(self.consumed_bindings@).to_set() == c0.union(fn_args_consumed(a0, ns, args@.take(k as int))),
                owned_accesses(accesses@) == fn_arg_accesses(ns, args@.take(k as int)),
            decreases args.len() - k,
        {
            proof {
                assert(args@.take(k + 1).drop_last() =~= args@.take(k as int));
                assert(args@.take(k + 1).last() == args@[k as int]);
            }
            let arg_expr = &args[k].1;
            let param: Option<&FnParam> = match &args[k].0 {
                None => if k < non_self.len() { Some(non_self[k]) } else { None },
                Some(label) => find_fn_labelled(&non_self, label.name.as_str()),
            };
            assert(fn_param_for(ns, k as int, args@[k as int].0) == match param { Some(p) => Some(*p), None => None::<FnParam> });
            let ghost ab = accesses@;
            let convention = match param {
                Some(p) => p.convention,
                None => ParamConvention::Let,
            };
            accesses.push((convention, arg_expr));
            assert(owned_accesses(accesses@) =~= owned_accesses(ab).push((convention, *arg_expr)));
            let ghost eb = error_views(self.errors@);
            let ghost cb = views(self.consumed_bindings@).to_set();
            let ghost sb = *self;
            if let Some(param) = param {
                let is_mut = match param.convention {
                    ParamConvention::Mut => true,
                    _ => false,
                };
                let is_sink = match param.convention {
                    ParamConvention::Sink => true,
                    _ => false,
                };
                if is_mut && !mutable[k] {
                    self.report(CompilerError::MutabilityMismatch { param: param.name.name.clone(), span });
                } else {
                    assert(error_views(self.errors@) =~= eb + Seq::<ErrorView>::empty());
                }
                if is_sink {
                    self.consume_argument(arg_expr);
                    assert(sink_consumes(sb, *arg_expr) == sink_consumes(a0, *arg_expr));
                } else {
                    assert(views(self.consumed_bindings@).to_set() =~= cb.union(Set::<Seq<char>>::empty()));
                }
            } else {
                assert(error_views(self.errors@) =~= eb + Seq::<ErrorView>::empty());
                assert(views(self.consumed_bindings@).to_set() =~= cb.union(Set::<Seq<char>>::empty()));
            }
            proof {
                assert(error_views(self.errors@) =~= e0 + fn_arg_reports(ns, args@.take(k + 1), mutable@, span));
                assert(views(self.consumed_bindings@).to_set() =~= c0.union(fn_args_consumed(a0, ns, args@.take(k + 1))));
            }
            k += 1;
        }
        assert(args@.take(k as int) =~= args@);
        accesses
    }

    /// Check the arguments of a call of a closure binding against the
    /// closure's parameter conventions: first that no two arguments reach
    /// one place when one of them is `mut` or `sink`, then that each
    /// argument at a `mut` position is a mutable place (`mutable` says,
    /// argument by argument), and that each at a `sink` position is
    /// consumed. Arguments past the closure's parameters are left alone.
    pub fn validate_closure_call_conventions(
        &mut self,
        conventions: &Vec<ParamConvention>,
        args: &Vec<(Option<Ident>, Expr)>,
        mutable: &Vec<bool>,
        span: Span,
    )
        requires
            mutable@.len() == args@.len(),
        ensures
            error_views(final(self).errors@) == error_views(old(self).errors@)
                + access_overlaps(closure_arg_accesses(conventions@, args@), span)
                + closure_arg_reports(conventions@, args@, mutable@, span),
            views(final(self).consumed_bindings@).to_set() == views(old(self).consumed_bindings@).to_set()
                .union(closure_args_consumed(*old(self), conventions@, args@)),
            final(self).symbols == old(self).symbols,
            final(self).closure_binding_captures == old(self).closure_binding_captures,
    {
        let ghost a0 = *self;
        let mut accesses: Vec<(ParamConvention, &Expr)> = Vec::new();
        let mut k: usize = 0;
        while k < args.len()
            invariant
                k <= args@.len(),
                owned_accesses(accesses@) == closure_arg_accesses(conventions@, args@.take(k as int)),
            decreases args.len() - k,
        {
            proof {
                assert(args@.take(k + 1).drop_last() =~= args@.take(k as int));
                assert(args@.take(k + 1).last() == args@[k as int]);
            }
            let convention = if k < conventions.len() { conventions[k] } else { ParamConvention::Let };
            let ghost ab = accesses@;
            accesses.push((convention, &args[k].1));
            assert(owned_accesses(accesses@) =~= owned_accesses(ab).push((convention, args@[k as int].1)));
            k += 1;
        }
        assert(args@.take(k as int) =~= args@);
        proof { lemma_places_owned(accesses@); }
        self.validate_exclusive_access(&accesses, span);
        let ghost e0 = error_views(self.errors@);
        let ghost c0 = views(self.consumed_bindings@).to_set();
        assert(c0 == views(a0.consumed_bindings@).to_set());
        let mut k: usize = 0;
        while k < args.len()
            invariant
                k <= args@.len(),
                mutable@.len() == args@.len(),
                self.symbols == a0.symbols,
                self.closure_binding_captures == a0.closure_binding_captures,
                error_views(self.errors@) == e0 + closure_arg_reports(conventions@, args@.take(k as int), mutable@, span),
                views(self.consumed_bindings@).to_set() == c0.union(closure_args_consumed(a0, conventions@, args@.take(k as int))),
            decreases args.len() - k,
        {
            proof {
                assert(args@.take(k + 1).drop_last() =~= args@.take(k as int));
                assert(args@.take(k + 1).last() == args@[k as int]);
            }
            if k >= conventions.len() {
                proof { lemma_past_conventions(a0, conventions@, args@, mutable@, span, k as int); }
                break;
            }
            let ghost eb = error_views(self.errors@);
            let ghost cb = views(self.consumed_bindings@).to_set();
            let ghost sb = *self;
            match conventions[k] {
                ParamConvention::Mut => {
                    if !mutable[k] {
                        let mut param = String::from_str("arg");
                        param.append(decimal_string(k).as_str());
                        self.report(CompilerError::MutabilityMismatch { param, span });
                    } else {
                        assert(error_views(self.errors@) =~= eb + Seq::<ErrorView>::empty());
                    }
                    assert(views(self.consumed_bindings@).to_set() =~= cb.union(Set::<Seq<char>>::empty()));
                },
                ParamConvention::Sink => {
                    self.consume_argument(&args[k].1);
                    assert(sink_consumes(sb, args@[k as int].1) == sink_consumes(a0, args@[k as int].1));
                    assert(error_views(self.errors@) =~= eb + Seq::<ErrorView>::empty());
                },
                ParamConvention::Let => {
                    assert(error_views(self.errors@) =~= eb + Seq::<ErrorView>::empty());
                    assert(views(self.consumed_bindings@).to_set() =~= cb.union(Set::<Seq<char>>::empty()));
                },
            }
            proof {
                assert(error_views(self.errors@) =~= e0 + closure_arg_reports(conventions@, args@.take(k + 1), mutable@, span));
                assert(views(self.consumed_bindings@).to_set() =~= c0.union(closure_args_consumed(a0, conventions@, args@.take(k + 1))));
            }
            k += 1;
        }
        if k == args.len() {
            assert(args@.take(k as int) =~= args@);
        }
    }
}

/// Arguments past the closure's parameters report nothing and consume
/// nothing.
proof fn lemma_past_conventions(
    a: SemanticAnalyzer,
    conventions: Seq<ParamConvention>,
    args: Seq<(Option<Ident>, Expr)>,
    mutable: Seq<bool>,
    span: Span,
    k: int,
)
    requires
        conventions.len() <= k <= args.len(),
    ensures
        closure_arg_reports(conventions, args, mutable, span) == closure_arg_reports(conventions, args.take(k), mutable, span),
        closure_args_consumed(a, conventions, args) == closure_args_consumed(a, conventions, args.take(k)),
    decreases args.len() - k,
{
    if k < args.len() {
        lemma_past_conventions(a, conventions, args, mutable, span, k + 1);
        assert(args.take(k + 1).drop_last() =~= args.take(k));
        assert(closure_arg_reports(conventions, args.take(k + 1), mutable, span) =~= closure_arg_reports(conventions, args.take(k), mutable, span));
        assert(closure_args_consumed(a, conventions, args.take(k + 1)) =~= closure_args_consumed(a, conventions, args.take(k)));
    } else {
        assert(args.take(k) =~= args);
    }
}

} // verus!

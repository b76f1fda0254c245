//! The arguments of a call that fill `mut` and `sink` parameters.
//!
//! A `mut` parameter takes a mutable place, and not a binding that a
//! closure around the call captures: a closure does not change what it
//! captures. A `sink` parameter takes its argument away: the binding at
//! the root of the argument is consumed, and so is every capture of a
//! closure value given. The code under check must own what it gives away.

use vstd::prelude::*;
use crate::analyzer::{find_convention, insert_name, let_binding_names, lookup_convention, SemanticAnalyzer};
use crate::ast::{Expr, Ident, ParamConvention, Span};
use crate::closures::captures_of;
use crate::error::{error_views, CompilerError, ErrorView};
use crate::escape::transitive_captures;
use crate::expr_checks::root_of;
use crate::outer_frames::{framed, names_in_scopes};
use crate::symbols::{struct_named, ParamInfo};
use crate::text::{list_contains, str_equals, views};
use crate::duplicate_names::field_names;
use crate::exclusivity::{all_overlaps, first_occurrences, overlap_reports, places};

verus! {

broadcast use vstd::std_specs::vec::group_vec_axioms;

/// `name` is a loop variable, a closure parameter, or a binding that
/// inference sees.
pub open spec fn local_binding(a: SemanticAnalyzer, name: Seq<char>) -> bool {
    names_in_scopes(a.loop_var_scopes@).contains(name) || names_in_scopes(a.closure_param_scopes@).contains(name)
        || names_in_scopes(a.inference_scopes@).contains(name)
}

/// `name` names a value here: a module-level or local `let`, a local
/// binding, a struct, an enum, a trait, a function, or a field of the
/// struct whose impl is being checked.
pub open spec fn value_in_scope(a: SemanticAnalyzer, name: Seq<char>) -> bool {
    a.symbols.has_let(name) || let_binding_names(a.local_let_bindings@).contains(name) || local_binding(a, name)
        || a.symbols.has_struct(name) || a.symbols.has_enum(name) || a.symbols.has_trait(name)
        || a.symbols.has_function(name) || match a.current_impl_struct {
            Some(s) => match struct_named(a.symbols.structs@, s@) {
                Some(info) => field_names(info.fields@).contains(name),
                None => false,
            },
            None => false,
        }
}

/// What giving away `root` at `span` reports.
pub open spec fn sink_owner_reports(a: SemanticAnalyzer, root: Seq<char>, span: Span) -> Seq<ErrorView> {
    match lookup_convention(a.current_fn_param_conventions@, root) {
        Some(c) => if c != ParamConvention::Sink {
            seq![ErrorView::MutabilityMismatch { param: root, span }]
        } else if framed(a.outer_frames@, root, false) {
            seq![ErrorView::UseAfterSink { name: root, span }]
        } else {
            seq![]
        },
        None => if !a.in_module_let && !let_binding_names(a.local_let_bindings@).contains(root) && !local_binding(a, root)
            && a.symbols.has_let(root) {
            seq![ErrorView::UseAfterSink { name: root, span }]
        } else if framed(a.outer_frames@, root, false) {
            seq![ErrorView::UseAfterSink { name: root, span }]
        } else {
            seq![]
        },
    }
}

/// The parameters that take an argument: all but `self`.
pub open spec fn arg_params(ps: Seq<ParamInfo>) -> Seq<ParamInfo>
    decreases ps.len(),
{
    if ps.len() == 0 {
        seq![]
    } else {
        arg_params(ps.drop_last()) + if ps.last().name.name@ == "self"@ { Seq::<ParamInfo>::empty() } else { seq![ps.last()] }
    }
}

/// The first parameter that the label `l` names, by its external label or
/// by its name.
pub open spec fn labelled_param(ns: Seq<ParamInfo>, l: Seq<char>) -> Option<ParamInfo>
    decreases ns.len(),
{
    if ns.len() == 0 {
        None
    } else {
        match labelled_param(ns.drop_last(), l) {
            Some(p) => Some(p),
            None => if (ns.last().external_label matches Some(x) && x.name@ == l) || ns.last().name.name@ == l {
                Some(ns.last())
            } else {
                None
            },
        }
    }
}

/// The parameter that the argument at `position` with the label `label`
/// fills.
pub open spec fn param_for(ns: Seq<ParamInfo>, position: int, label: Option<Ident>) -> Option<ParamInfo> {
    match label {
        None => if 0 <= position < ns.len() { Some(ns[position]) } else { None },
        Some(l) => labelled_param(ns, l.name@),
    }
}

/// What one argument `e` reports when it fills `param`; `mutable` says
/// whether it is a mutable place.
pub open spec fn arg_reports(a: SemanticAnalyzer, param: Option<ParamInfo>, e: Expr, mutable: bool, span: Span) -> Seq<ErrorView> {
    match param {
        None => seq![],
        Some(p) => (if p.convention == ParamConvention::Mut && !mutable {
            seq![ErrorView::MutabilityMismatch { param: p.name.name@, span }]
        } else if p.convention == ParamConvention::Mut && (root_of(e) matches Some(r) && framed(a.outer_frames@, r, true)) {
            seq![ErrorView::MutabilityMismatch { param: p.name.name@, span }]
        } else {
            Seq::<ErrorView>::empty()
        }) + if p.convention == ParamConvention::Sink && root_of(e) is Some {
            sink_owner_reports(a, root_of(e).unwrap(), span)
        } else {
            Seq::<ErrorView>::empty()
        },
    }
}

/// What the arguments `args` report, in order.
pub open spec fn args_reports(a: SemanticAnalyzer, ns: Seq<ParamInfo>, args: Seq<(Option<Ident>, Expr)>, mutable: Seq<bool>, span: Span) -> Seq<ErrorView>
    decreases args.len(),
{
    if args.len() == 0 {
        seq![]
    } else {
        let k = args.len() - 1;
        args_reports(a, ns, args.drop_last(), mutable, span) + arg_reports(a, param_for(ns, k, args.last().0), args.last().1, mutable[k], span)
    }
}

/// What the arguments `args` consume: the root of each `sink` argument,
/// and the captures of each closure value given to a `sink` parameter.
pub open spec fn args_consumed(a: SemanticAnalyzer, ns: Seq<ParamInfo>, args: Seq<(Option<Ident>, Expr)>) -> Set<Seq<char>>
    decreases args.len(),
{
    if args.len() == 0 {
        Set::empty()
    } else {
        let k = args.len() - 1;
        args_consumed(a, ns, args.drop_last()).union(match param_for(ns, k, args.last().0) {
            Some(p) => if p.convention == ParamConvention::Sink {
                (match root_of(args.last().1) {
                    Some(r) => set![r],
                    None => Set::empty(),
                }).union(match captures_of(a.closure_binding_captures@, args.last().1) {
                    Some(caps) => transitive_captures(a.closure_binding_captures@, caps.to_set()),
                    None => Set::empty(),
                })
            } else {
                Set::empty()
            },
            None => Set::empty(),
        })
    }
}

/// The convention of the parameter each argument fills, `let` when none.
pub open spec fn arg_accesses(ns: Seq<ParamInfo>, args: Seq<(Option<Ident>, Expr)>) -> Seq<(ParamConvention, Expr)>
    decreases args.len(),
{
    if args.len() == 0 {
        seq![]
    } else {
        let k = args.len() - 1;
        arg_accesses(ns, args.drop_last()).push((match param_for(ns, k, args.last().0) {
            Some(p) => p.convention,
            None => ParamConvention::Let,
        }, args.last().1))
    }
}

/// The borrowed accesses as owned pairs.
pub open spec fn owned_accesses(s: Seq<(ParamConvention, &Expr)>) -> Seq<(ParamConvention, Expr)> {
    s.map_values(|x: (ParamConvention, &Expr)| (x.0, *x.1))
}

/// True when some scope of `scopes` holds `name`.
fn scopes_hold(scopes: &Vec<Vec<String>>, name: &str) -> (r: bool)
    ensures
        r == names_in_scopes(scopes@).contains(name@),
{
    let mut i: usize = 0;
    while i < scopes.len()
        invariant
            i <= scopes@.len(),
            forall|j: int| 0 <= j < i ==> !views(#[trigger] scopes@[j]@).contains(name@),
        decreases scopes.len() - i,
    {
        if list_contains(&scopes[i], name) {
            return true;
        }
        i += 1;
    }
    false
}

impl SemanticAnalyzer {
    /// True when `name` is a loop variable, a closure parameter or a
    /// binding in scope for inference.
    pub fn names_a_local_binding(&self, name: &str) -> (r: bool)
        ensures
            r == local_binding(*self, name@),
    {
        scopes_hold(&self.loop_var_scopes, name) || scopes_hold(&self.closure_param_scopes, name)
            || scopes_hold(&self.inference_scopes, name)
    }

    /// True when `name` names a value here.
    pub fn names_a_value_in_scope(&self, name: &str) -> (r: bool)
        ensures
            r == value_in_scope(*self, name@),
    {
        if self.symbols.is_let(name) || crate::analyzer::let_bound(&self.local_let_bindings, name) {
            return true;
        }
        if self.names_a_local_binding(name) {
            return true;
        }
        if self.symbols.struct_index(name).is_some() || self.symbols.enum_index(name).is_some()
            || self.symbols.is_trait(name) || self.symbols.is_function(name) {
            return true;
        }
        match &self.current_impl_struct {
            Some(s) => match self.symbols.get_struct(s.as_str()) {
                Some(info) => fields_hold(&info.fields, name),
                None => false,
            },
            None => false,
        }
    }

    /// Check that the code under check owns `root`, the binding that a
    /// `sink` argument gives away: a parameter must itself be `sink`, a
    /// module-level `let` belongs to every function, and a binding from
    /// outside a loop body or a closure body would be given away once per
    /// pass.
    pub fn check_sink_owner(&mut self, root: &str, span: Span)
        ensures
            final(self).same_state(*old(self)),
            error_views(final(self).errors@) == error_views(old(self).errors@) + sink_owner_reports(*old(self), root@, span),
    {
        match find_convention(&self.current_fn_param_conventions, root) {
            Some(convention) => {
                let is_sink = match convention {
                    ParamConvention::Sink => true,
                    _ => false,
                };
                if !is_sink {
                    self.report(CompilerError::MutabilityMismatch { param: String::from_str(root), span });
                    return;
                }
            },
            None => {
                if !self.in_module_let && !crate::analyzer::let_bound(&self.local_let_bindings, root) && !self.names_a_local_binding(root)
                    && self.symbols.is_let(root) {
                    self.report(CompilerError::UseAfterSink { name: String::from_str(root), span });
                    return;
                }
            },
        }
        if self.sink_repeats(root) {
            self.report(CompilerError::UseAfterSink { name: String::from_str(root), span });
        } else {
            assert(error_views(self.errors@) =~= error_views(self.errors@) + Seq::<ErrorView>::empty());
        }
    }

    /// Check the arguments of a call that fill `mut` and `sink`
    /// parameters among `params`. `mutable` says, for each argument,
    /// whether it is a mutable place. Each argument that a `sink`
    /// parameter takes is consumed with the captures of a closure value it
    /// holds, and every pair of arguments that reach one place with one of
    /// them `mut` or `sink` is reported.
    pub fn validate_mut_param_args(&mut self, params: &Vec<ParamInfo>, args: &Vec<(Option<Ident>, Expr)>, mutable: &Vec<bool>, span: Span)
        requires
            mutable@.len() == args@.len(),
        ensures
            error_views(final(self).errors@) == error_views(old(self).errors@)
                + args_reports(*old(self), arg_params(params@), args@, mutable@, span)
                + overlap_reports(
                    first_occurrences(Seq::<Seq<Seq<char>>>::empty(), all_overlaps(places_of(arg_accesses(arg_params(params@), args@)), places_of(arg_accesses(arg_params(params@), args@)).len() as int)),
                    span,
                ),
            views(final(self).consumed_bindings@).to_set() == views(old(self).consumed_bindings@).to_set()
                .union(args_consumed(*old(self), arg_params(params@), args@)),
            final(self).symbols == old(self).symbols,
            final(self).closure_binding_captures == old(self).closure_binding_captures,
            final(self).type_param_bounds == old(self).type_param_bounds,
    {
        let ghost a0 = *self;
        let ghost e0 = error_views(self.errors@);
        let ghost c0 = views(self.consumed_bindings@).to_set();
        let mut non_self: Vec<&ParamInfo> = Vec::new();
        let mut i: usize = 0;
        while i < params.len()
            invariant
                i <= params@.len(),
                non_self@.map_values(|p: &ParamInfo| *p) == arg_params(params@.take(i as int)),
            decreases params.len() - i,
        {
            proof {
                assert(params@.take(i + 1).drop_last() =~= params@.take(i as int));
                assert(params@.take(i + 1).last() == params@[i as int]);
            }
            let ghost nb = non_self@;
            if !str_equals(params[i].name.name.as_str(), "self") {
                non_self.push(&params[i]);
                assert(non_self@.map_values(|p: &ParamInfo| *p) =~= nb.map_values(|p: &ParamInfo| *p).push(params@[i as int]));
            } else {
                assert(non_self@.map_values(|p: &ParamInfo| *p) =~= nb.map_values(|p: &ParamInfo| *p) + Seq::<ParamInfo>::empty());
            }
            i += 1;
        }
        assert(params@.take(i as int) =~= params@);
        let ghost ns = arg_params(params@);
        let mut accesses: Vec<(ParamConvention, &Expr)> = Vec::new();
        let mut k: usize = 0;
        while k < args.len()
            invariant
                k <= args@.len(),
                mutable@.len() == args@.len(),
                non_self@.map_values(|p: &ParamInfo| *p) == ns,
                self.symbols == a0.symbols,
                self.closure_binding_captures == a0.closure_binding_captures,
                self.current_fn_param_conventions == a0.current_fn_param_conventions,
                self.local_let_bindings == a0.local_let_bindings,
                self.loop_var_scopes == a0.loop_var_scopes,
                self.closure_param_scopes == a0.closure_param_scopes,
                self.inference_scopes == a0.inference_scopes,
                self.outer_frames == a0.outer_frames,
                self.in_module_let == a0.in_module_let,
                self.type_param_bounds == a0.type_param_bounds,
                error_views(self.errors@) == e0 + args_reports(a0, ns, args@.take(k as int), mutable@, span),
                views(self.consumed_bindings@).to_set() == c0.union(args_consumed(a0, ns, args@.take(k as int))),
                owned_accesses(accesses@) == arg_accesses(ns, args@.take(k as int)),
            decreases args.len() - k,
        {
            proof {
                assert(args@.take(k + 1).drop_last() =~= args@.take(k as int));
                assert(args@.take(k + 1).last() == args@[k as int]);
            }
            let arg_expr = &args[k].1;
            let param: Option<&ParamInfo> = match &args[k].0 {
                None => if k < non_self.len() { Some(non_self[k]) } else { None },
                Some(label) => find_labelled(&non_self, label.name.as_str()),
            };
            assert(param_for(ns, k as int, args@[k as int].0) == match param { Some(p) => Some(*p), None => None::<ParamInfo> });
            let ghost ab = accesses@;
            let convention = match param {
                Some(p) => p.convention,
                None => ParamConvention::Let,
            };
            accesses.push((convention, arg_expr));
            assert(owned_accesses(accesses@) =~= owned_accesses(ab).push((convention, *arg_expr)));
            let ghost eb = error_views(self.errors@);
            let ghost cb = views(self.consumed_bindings@).to_set();
            if let Some(param) = param {
                let is_mut = match param.convention {
                    ParamConvention::Mut => true,
                    _ => false,
                };
                let is_sink = match param.convention {
                    ParamConvention::Sink => true,
                    _ => false,
                };
                let captured = match Self::root_binding(arg_expr) {
                    Some(root) => self.is_closure_capture(root.as_str()),
                    None => false,
                };
                if is_mut && !mutable[k] {
                    self.report(CompilerError::MutabilityMismatch { param: param.name.name.clone(), span });
                } else if is_mut && captured {
                    self.report(CompilerError::MutabilityMismatch { param: param.name.name.clone(), span });
                } else {
                    assert(error_views(self.errors@) =~= eb + Seq::<ErrorView>::empty());
                }
                let ghost em = error_views(self.errors@);
                if is_sink {
                    match Self::root_binding(arg_expr) {
                        Some(root) => {
                            self.check_sink_owner(root.as_str(), span);
                            let ghost before = views(self.consumed_bindings@).to_set();
                            insert_name(&mut self.consumed_bindings, root);
                        },
                        None => {
                            assert(error_views(self.errors@) =~= em + Seq::<ErrorView>::empty());
                        },
                    }
                    self.escape_closure_value(arg_expr);
                    proof {
                        assert(views(self.consumed_bindings@).to_set() =~= cb.union((match root_of(*arg_expr) {
                            Some(r) => set![r],
                            None => Set::<Seq<char>>::empty(),
                        }).union(match captures_of(a0.closure_binding_captures@, *arg_expr) {
                            Some(caps) => transitive_captures(a0.closure_binding_captures@, caps.to_set()),
                            None => Set::<Seq<char>>::empty(),
                        })));
                    }
                } else {
                    assert(error_views(self.errors@) =~= em + Seq::<ErrorView>::empty());
                    assert(views(self.consumed_bindings@).to_set() =~= cb.union(Set::<Seq<char>>::empty()));
                }
            } else {
                assert(error_views(self.errors@) =~= eb + Seq::<ErrorView>::empty());
                assert(views(self.consumed_bindings@).to_set() =~= cb.union(Set::<Seq<char>>::empty()));
            }
            proof {
                assert(error_views(self.errors@) =~= e0 + args_reports(a0, ns, args@.take(k + 1), mutable@, span));
                assert(views(self.consumed_bindings@).to_set() =~= c0.union(args_consumed(a0, ns, args@.take(k + 1))));
            }
            k += 1;
        }
        assert(args@.take(k as int) =~= args@);
        proof {
            lemma_places_owned(accesses@);
        }
        self.validate_exclusive_access(&accesses, span);
    }
}

/// The places of a list of owned accesses.
pub open spec fn places_of(s: Seq<(ParamConvention, Expr)>) -> Seq<(ParamConvention, Seq<Seq<char>>)>
    decreases s.len(),
{
    if s.len() == 0 {
        seq![]
    } else {
        places_of(s.drop_last()) + match crate::exclusivity::place_of(s.last().1) {
            Some(p) => seq![(s.last().0, p)],
            None => seq![],
        }
    }
}

pub proof fn lemma_places_owned(s: Seq<(ParamConvention, &Expr)>)
    ensures
        places(s) == places_of(owned_accesses(s)),
    decreases s.len(),
{
    if s.len() > 0 {
        lemma_places_owned(s.drop_last());
        assert(owned_accesses(s).drop_last() =~= owned_accesses(s.drop_last()));
    }
}

/// The first parameter of `ns` that the label `label` names.
pub(crate) fn find_labelled<'a>(ns: &Vec<&'a ParamInfo>, label: &str) -> (r: Option<&'a ParamInfo>)
    ensures
        r matches Some(p) ==> labelled_param(ns@.map_values(|q: &ParamInfo| *q), label@) == Some(*p),
        r is None ==> labelled_param(ns@.map_values(|q: &ParamInfo| *q), label@) is None,
{
    let ghost vs = ns@.map_values(|q: &ParamInfo| *q);
    let mut i: usize = 0;
    while i < ns.len()
        invariant
            i <= ns@.len(),
            vs == ns@.map_values(|q: &ParamInfo| *q),
            labelled_param(vs.take(i as int), label@) is None,
        decreases ns.len() - i,
    {
        proof {
            assert(vs.take(i + 1).drop_last() =~= vs.take(i as int));
            assert(vs.take(i + 1).last() == *ns@[i as int]);
        }
        let p = ns[i];
        let by_label = match &p.external_label {
            Some(l) => str_equals(l.name.as_str(), label),
            None => false,
        };
        if by_label || str_equals(p.name.name.as_str(), label) {
            proof { lemma_labelled_prefix(vs, i as int + 1, label@); }
            return Some(p);
        }
        i += 1;
    }
    assert(vs.take(i as int) =~= vs);
    None
}

proof fn lemma_labelled_prefix(ns: Seq<ParamInfo>, k: int, l: Seq<char>)
    requires
        0 <= k <= ns.len(),
        labelled_param(ns.take(k), l) is Some,
    ensures
        labelled_param(ns, l) == labelled_param(ns.take(k), l),
    decreases ns.len() - k,
{
    if k < ns.len() {
        assert(ns.take(k + 1).drop_last() =~= ns.take(k));
        lemma_labelled_prefix(ns, k + 1, l);
    } else {
        assert(ns.take(k) =~= ns);
    }
}

/// True when one of `fields` is called `name`.
fn fields_hold(fields: &Vec<crate::ast::FieldDef>, name: &str) -> (r: bool)
    ensures
        r == field_names(fields@).contains(name@),
{
    let mut i: usize = 0;
    while i < fields.len()
        invariant
            i <= fields@.len(),
            forall|j: int| 0 <= j < i ==> fields@[j].name.name@ != name@,
        decreases fields.len() - i,
    {
        if str_equals(fields[i].name.name.as_str(), name) {
            assert(field_names(fields@)[i as int] == name@);
            return true;
        }
        i += 1;
    }
    assert forall|j: int| 0 <= j < field_names(fields@).len() implies field_names(fields@)[j] != name@ by {
        assert(fields@[j].name.name@ != name@);
    }
    false
}

} // verus!

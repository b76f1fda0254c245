//! The types in a call of a function: each type argument written in
//! `<...>` against the bounds of its type parameter, and each argument
//! against the type of the parameter it fills.
//!
//! A parameter whose type names one of the function's own type
//! parameters has no concrete type to compare against: the argument is
//! checked against the bounds of that parameter and against the outer
//! shape of the declared type, and against the type that the call's type
//! arguments put in, where one is known.

use vstd::prelude::*;
use vstd::string::StringExecFns;
use crate::analyzer::SemanticAnalyzer;
use crate::ast::{expr_span, Expr, GenericParam, Ident, Type};
use crate::call_shape::{shapes_agree, type_views};
use crate::error::{error_views, CompilerError, ErrorView};
use crate::generic_bounds::{bound_reports, constraint_trait, satisfies_bound};
use crate::mut_args::{arg_params, labelled_param, param_for};
use crate::sem_type::{display_of, sem_of, SType, SemType};
use crate::symbols::{FunctionInfo, ParamInfo};
use crate::text::{str_equals, views};
use crate::type_names::{mentions_any, type_mentions_any};
use crate::type_validation::generic_names;

verus! {

broadcast use vstd::std_specs::vec::group_vec_axioms;

/// The first type parameter of `gs` called `name`.
pub open spec fn generic_named(gs: Seq<GenericParam>, name: Seq<char>) -> Option<GenericParam>
    decreases gs.len(),
{
    if gs.len() == 0 {
        None
    } else if gs[0].name.name@ == name {
        Some(gs[0])
    } else {
        generic_named(gs.drop_first(), name)
    }
}

/// The views of a list of optional types.
pub open spec fn opt_type_views(ts: Seq<Option<SemType>>) -> Seq<Option<SType>> {
    ts.map_values(|t: Option<SemType>| match t {
        Some(x) => Some(x@),
        None => None,
    })
}

/// A type this pass cannot say anything of yet.
pub open spec fn indeterminate(t: SType) -> bool {
    t is Unknown || t is InferredEnum
}

/// One diagnostic for each bound that a type argument written on a call
/// does not meet, type argument after type argument; `ts` and `gs` pair
/// up by position.
pub open spec fn type_arg_bound_reports(a: SemanticAnalyzer, ts: Seq<Type>, gs: Seq<GenericParam>, span: crate::ast::Span) -> Seq<ErrorView>
    decreases ts.len(),
{
    if ts.len() == 0 {
        seq![]
    } else {
        let k = ts.len() - 1;
        type_arg_bound_reports(a, ts.drop_last(), gs, span) + bound_reports(a, gs[k].constraints@, sem_of(ts[k]), span)
    }
}

/// What the argument `e`, of inferred type `inferred`, reports against
/// the parameter it fills. `fits` says whether it satisfies the
/// parameter's declared type, `substituted` is the parameter's type with
/// the call's type arguments put in, where one is known, and
/// `substituted_fits` whether the argument satisfies that.
pub open spec fn arg_type_report(a: SemanticAnalyzer, generics: Seq<GenericParam>, param: Option<ParamInfo>, e: Expr,
    inferred: SType, fits: bool, substituted: Option<SType>, substituted_fits: bool) -> Seq<ErrorView> {
    match param {
        None => seq![],
        Some(p) => match p.ty {
            None => seq![],
            Some(ty) => if mentions_any(ty, generic_names(generics)) {
                (match ty {
                    Type::Ident(id) => match generic_named(generics, id.name@) {
                        Some(g) => if indeterminate(inferred) {
                            Seq::<ErrorView>::empty()
                        } else {
                            bound_reports(a, g.constraints@, inferred, expr_span(e))
                        },
                        None => Seq::<ErrorView>::empty(),
                    },
                    _ => Seq::<ErrorView>::empty(),
                }) + if !shapes_agree(ty, inferred) {
                    seq![ErrorView::TypeMismatch { expected: display_of(sem_of(ty)), found: display_of(inferred), span: expr_span(e) }]
                } else {
                    match substituted {
                        Some(c) => if !indeterminate(inferred) && !substituted_fits {
                            seq![ErrorView::TypeMismatch { expected: display_of(c), found: display_of(inferred), span: expr_span(e) }]
                        } else {
                            Seq::<ErrorView>::empty()
                        },
                        None => Seq::<ErrorView>::empty(),
                    }
                }
            } else if fits {
                seq![]
            } else {
                seq![ErrorView::TypeMismatch { expected: display_of(sem_of(ty)), found: display_of(inferred), span: expr_span(e) }]
            },
        },
    }
}

/// What the arguments `args` of a call report against the parameters of
/// the overload `o`, argument after argument.
pub open spec fn arg_type_reports(a: SemanticAnalyzer, o: FunctionInfo, args: Seq<(Option<Ident>, Expr)>, types: Seq<SType>,
    fits: Seq<bool>, substituted: Seq<Option<SType>>, substituted_fits: Seq<bool>) -> Seq<ErrorView>
    decreases args.len(),
{
    if args.len() == 0 {
        seq![]
    } else {
        let k = args.len() - 1;
        arg_type_reports(a, o, args.drop_last(), types, fits, substituted, substituted_fits)
            + arg_type_report(a, o.generics@, param_for(arg_params(o.params@), k, args[k].0), args[k].1, types[k], fits[k],
                substituted[k], substituted_fits[k])
    }
}

/// The bounds read only the table and the bounds of type parameters in
/// scope.
pub proof fn lemma_bound_reports_by_state(a: SemanticAnalyzer, b: SemanticAnalyzer, cs: Seq<crate::ast::GenericConstraint>, t: SType, span: crate::ast::Span)
    requires
        a.symbols == b.symbols,
        a.type_param_bounds == b.type_param_bounds,
    ensures
        bound_reports(a, cs, t, span) == bound_reports(b, cs, t, span),
    decreases cs.len(),
{
    if cs.len() > 0 {
        lemma_bound_reports_by_state(a, b, cs.drop_last(), t, span);
        assert(satisfies_bound(a, t, constraint_trait(cs.last())) == satisfies_bound(b, t, constraint_trait(cs.last())));
    }
}

pub proof fn lemma_arg_type_reports_by_state(a: SemanticAnalyzer, b: SemanticAnalyzer, o: FunctionInfo, args: Seq<(Option<Ident>, Expr)>,
    types: Seq<SType>, fits: Seq<bool>, substituted: Seq<Option<SType>>, substituted_fits: Seq<bool>)
    requires
        a.symbols == b.symbols,
        a.type_param_bounds == b.type_param_bounds,
    ensures
        arg_type_reports(a, o, args, types, fits, substituted, substituted_fits)
            == arg_type_reports(b, o, args, types, fits, substituted, substituted_fits),
    decreases args.len(),
{
    if args.len() > 0 {
        let k = args.len() - 1;
        lemma_arg_type_reports_by_state(a, b, o, args.drop_last(), types, fits, substituted, substituted_fits);
        match param_for(arg_params(o.params@), k, args[k].0) {
            Some(p) => match p.ty {
                Some(Type::Ident(id)) => match generic_named(o.generics@, id.name@) {
                    Some(g) => lemma_bound_reports_by_state(a, b, g.constraints@, types[k], expr_span(args[k].1)),
                    None => {},
                },
                _ => {},
            },
            None => {},
        }
    }
}

pub proof fn lemma_type_arg_bounds_by_state(a: SemanticAnalyzer, b: SemanticAnalyzer, ts: Seq<Type>, gs: Seq<GenericParam>, span: crate::ast::Span)
    requires
        a.symbols == b.symbols,
        a.type_param_bounds == b.type_param_bounds,
    ensures
        type_arg_bound_reports(a, ts, gs, span) == type_arg_bound_reports(b, ts, gs, span),
    decreases ts.len(),
{
    if ts.len() > 0 {
        lemma_type_arg_bounds_by_state(a, b, ts.drop_last(), gs, span);
        lemma_bound_reports_by_state(a, b, gs[ts.len() - 1].constraints@, sem_of(ts[ts.len() - 1]), span);
    }
}

/// The first type parameter of `gs` called `name`.
fn find_generic<'a>(gs: &'a Vec<GenericParam>, name: &str) -> (r: Option<&'a GenericParam>)
    ensures
        r is None <==> generic_named(gs@, name@) is None,
        r matches Some(g) ==> generic_named(gs@, name@) == Some(*g),
{
    let mut i: usize = 0;
    assert(gs@.skip(0) =~= gs@);
    while i < gs.len()
        invariant
            i <= gs@.len(),
            generic_named(gs@, name@) == generic_named(gs@.skip(i as int), name@),
        decreases gs.len() - i,
    {
        assert(gs@.skip(i as int)[0] == gs@[i as int]);
        if str_equals(gs[i].name.name.as_str(), name) {
            return Some(&gs[i]);
        }
        assert(gs@.skip(i as int).drop_first() =~= gs@.skip(i + 1));
        i += 1;
    }
    None
}

/// The names of the type parameters `gs`.
fn names_of_generics(gs: &Vec<GenericParam>) -> (r: Vec<String>)
    ensures
        views(r@) == generic_names(gs@),
{
    let mut out: Vec<String> = Vec::new();
    let mut k: usize = 0;
    while k < gs.len()
        invariant
            k <= gs@.len(),
            views(out@) == generic_names(gs@.take(k as int)),
        decreases gs.len() - k,
    {
        let ghost before = out@;
        out.push(gs[k].name.name.clone());
        proof {
            crate::text::lemma_views_push(before, gs@[k as int].name.name);
            assert(gs@.take(k + 1) =~= gs@.take(k as int).push(gs@[k as int]));
            assert(generic_names(gs@.take(k + 1)) =~= generic_names(gs@.take(k as int)).push(gs@[k as int].name.name@));
        }
        k += 1;
    }
    assert(gs@.take(k as int) =~= gs@);
    out
}

/// The parameters of `params` that take an argument: all but `self`.
fn argument_params(params: &Vec<ParamInfo>) -> (r: Vec<&ParamInfo>)
    ensures
        r@.map_values(|p: &ParamInfo| *p) == arg_params(params@),
{
    let mut out: Vec<&ParamInfo> = Vec::new();
    let mut i: usize = 0;
    while i < params.len()
        invariant
            i <= params@.len(),
            out@.map_values(|p: &ParamInfo| *p) == arg_params(params@.take(i as int)),
        decreases params.len() - i,
    {
        proof {
            assert(params@.take(i + 1).drop_last() =~= params@.take(i as int));
            assert(params@.take(i + 1).last() == params@[i as int]);
        }
        let ghost before = out@;
        if !str_equals(params[i].name.name.as_str(), "self") {
            out.push(&params[i]);
            assert(out@.map_values(|p: &ParamInfo| *p) =~= before.map_values(|p: &ParamInfo| *p).push(params@[i as int]));
        } else {
            assert(out@.map_values(|p: &ParamInfo| *p) =~= before.map_values(|p: &ParamInfo| *p) + Seq::<ParamInfo>::empty());
        }
        i += 1;
    }
    assert(params@.take(i as int) =~= params@);
    out
}

impl SemanticAnalyzer {
    /// Check each type argument written on a call against the bounds of
    /// the type parameter it stands for, paired by position.
    pub fn check_type_arg_bounds(&mut self, type_args: &Vec<Type>, generics: &Vec<GenericParam>, span: crate::ast::Span)
        requires
            type_args@.len() <= generics@.len(),
        ensures
            final(self).same_state(*old(self)),
            error_views(final(self).errors@) == error_views(old(self).errors@)
                + type_arg_bound_reports(*old(self), type_args@, generics@, span),
    {
        let ghost a0 = *self;
        let ghost e0 = error_views(self.errors@);
        let mut k: usize = 0;
        while k < type_args.len()
            invariant
                k <= type_args@.len() <= generics@.len(),
                self.same_state(a0),
                error_views(self.errors@) == e0 + type_arg_bound_reports(a0, type_args@.take(k as int), generics@, span),
            decreases type_args.len() - k,
        {
            let t = SemType::from_ast(&type_args[k]);
            let g = &generics[k];
            let ghost ek = error_views(self.errors@);
            let cs = &g.constraints;
            let mut i: usize = 0;
            while i < cs.len()
                invariant
                    i <= cs@.len(),
                    self.same_state(a0),
                    t@ == sem_of(type_args@[k as int]),
                    error_views(self.errors@) == ek + bound_reports(a0, cs@.take(i as int), t@, span),
                decreases cs.len() - i,
            {
                let crate::ast::GenericConstraint::Trait { name: trait_ref, .. } = &cs[i];
                proof {
                    assert(cs@.take(i + 1).drop_last() =~= cs@.take(i as int));
                    assert(cs@.take(i + 1).last() == cs@[i as int]);
                }
                let ghost eb = error_views(self.errors@);
                if !self.sem_type_satisfies_trait(&t, trait_ref.name.as_str()) {
                    self.report(CompilerError::GenericConstraintViolation { arg: t.display(), constraint: trait_ref.name.clone(), span });
                } else {
                    assert(error_views(self.errors@) =~= eb + Seq::<ErrorView>::empty());
                }
                proof {
                    assert(error_views(self.errors@) =~= ek + bound_reports(a0, cs@.take(i + 1), t@, span));
                }
                i += 1;
            }
            assert(cs@.take(i as int) =~= cs@);
            proof {
                assert(type_args@.take(k + 1).drop_last() =~= type_args@.take(k as int));
                assert(type_args@.take(k + 1)[k as int] == type_args@[k as int]);
                assert(error_views(self.errors@) =~= e0 + type_arg_bound_reports(a0, type_args@.take(k + 1), generics@, span));
            }
            k += 1;
        }
        assert(type_args@.take(k as int) =~= type_args@);
    }

    /// Check each argument of a call against the type of the parameter of
    /// `info` it fills: `types` are the arguments' inferred types, `fits`
    /// whether each satisfies its parameter's declared type,
    /// `substituted` each parameter's type with the call's type arguments
    /// put in where one is known, and `substituted_fits` whether the
    /// argument satisfies that.
    pub fn check_arg_types(&mut self, info: &FunctionInfo, args: &Vec<(Option<Ident>, Expr)>, types: &Vec<SemType>, fits: &Vec<bool>,
        substituted: &Vec<Option<SemType>>, substituted_fits: &Vec<bool>)
        requires
            types@.len() == args@.len(),
            fits@.len() == args@.len(),
            substituted@.len() == args@.len(),
            substituted_fits@.len() == args@.len(),
        ensures
            final(self).same_state(*old(self)),
            error_views(final(self).errors@) == error_views(old(self).errors@) + arg_type_reports(*old(self), *info, args@,
                type_views(types@), fits@, opt_type_views(substituted@), substituted_fits@),
    {
        let ghost a0 = *self;
        let ghost e0 = error_views(self.errors@);
        let ghost tv = type_views(types@);
        let ghost sv = opt_type_views(substituted@);
        let non_self = argument_params(&info.params);
        let names = names_of_generics(&info.generics);
        let ghost ns = arg_params(info.params@);
        let mut k: usize = 0;
        while k < args.len()
            invariant
                k <= args@.len(),
                types@.len() == args@.len(),
                fits@.len() == args@.len(),
                substituted@.len() == args@.len(),
                substituted_fits@.len() == args@.len(),
                tv == type_views(types@),
                sv == opt_type_views(substituted@),
                non_self@.map_values(|p: &ParamInfo| *p) == ns,
                ns == arg_params(info.params@),
                views(names@) == generic_names(info.generics@),
                self.same_state(a0),
                error_views(self.errors@) == e0 + arg_type_reports(a0, *info, args@.take(k as int), tv, fits@, sv, substituted_fits@),
            decreases args.len() - k,
        {
            proof {
                assert(args@.take(k + 1).drop_last() =~= args@.take(k as int));
                assert(args@.take(k + 1)[k as int] == args@[k as int]);
            }
            let arg_expr = &args[k].1;
            let param: Option<&ParamInfo> = match &args[k].0 {
                None => if k < non_self.len() { Some(non_self[k]) } else { None },
                Some(label) => crate::mut_args::find_labelled(&non_self, label.name.as_str()),
            };
            assert(param_for(ns, k as int, args@[k as int].0) == match param { Some(p) => Some(*p), None => None::<ParamInfo> });
            let inferred = &types[k];
            assert(tv[k as int] == inferred@);
            let ghost eb = error_views(self.errors@);
            let ghost expected = arg_type_report(a0, info.generics@, param_for(ns, k as int, args@[k as int].0), *arg_expr,
                tv[k as int], fits@[k as int], sv[k as int], substituted_fits@[k as int]);
            match param {
                None => {
                    assert(error_views(self.errors@) =~= eb + expected);
                },
                Some(p) => match &p.ty {
                    None => {
                        assert(error_views(self.errors@) =~= eb + expected);
                    },
                    Some(ty) => {
                        if type_mentions_any(ty, &names) {
                            match ty {
                                Type::Ident(id) => match find_generic(&info.generics, id.name.as_str()) {
                                    Some(g) => {
                                        let ghost ak = *self;
                                        self.check_generic_bounds(g, arg_expr, inferred);
                                        proof {
                                            lemma_bound_reports_by_state(ak, a0, g.constraints@, inferred@, expr_span(*arg_expr));
                                        }
                                    },
                                    None => {
                                        assert(error_views(self.errors@) =~= eb + Seq::<ErrorView>::empty());
                                    },
                                },
                                _ => {
                                    assert(error_views(self.errors@) =~= eb + Seq::<ErrorView>::empty());
                                },
                            }
                            let ghost em = error_views(self.errors@);
                            if !Self::outer_shapes_agree(ty, inferred) {
                                self.report(CompilerError::TypeMismatch {
                                    expected: SemType::from_ast(ty).display(),
                                    found: inferred.display(),
                                    span: arg_expr.span(),
                                });
                            } else {
                                match &substituted[k] {
                                    Some(c) => {
                                        assert(sv[k as int] == Some(c@));
                                        if !inferred.is_indeterminate() && !substituted_fits[k] {
                                            self.report(CompilerError::TypeMismatch {
                                                expected: c.display(),
                                                found: inferred.display(),
                                                span: arg_expr.span(),
                                            });
                                        } else {
                                            assert(error_views(self.errors@) =~= em + Seq::<ErrorView>::empty());
                                        }
                                    },
                                    None => {
                                        assert(sv[k as int] is None);
                                        assert(error_views(self.errors@) =~= em + Seq::<ErrorView>::empty());
                                    },
                                }
                            }
                            assert(error_views(self.errors@) =~= eb + expected);
                        } else if fits[k] {
                            assert(error_views(self.errors@) =~= eb + expected);
                        } else {
                            self.report(CompilerError::TypeMismatch {
                                expected: SemType::from_ast(ty).display(),
                                found: inferred.display(),
                                span: arg_expr.span(),
                            });
                            assert(error_views(self.errors@) =~= eb + expected);
                        }
                    },
                },
            }
            proof {
                assert(error_views(self.errors@) =~= e0 + arg_type_reports(a0, *info, args@.take(k + 1), tv, fits@, sv, substituted_fits@));
            }
            k += 1;
        }
        assert(args@.take(k as int) =~= args@);
    }
}

} // verus!

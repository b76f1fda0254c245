//! A call of a function by name, `f(...)` or `m::f(...)`, once its
//! overloads are known.
//!
//! With no overload, the name may be a binding that holds a closure,
//! whose type gives the conventions and the shape of the call. With one
//! overload, the call's shape and conventions are checked against it.
//! With several, the call is resolved to the one it fits best, and
//! checked against that.

use vstd::prelude::*;
use vstd::string::{StrSliceExecFns, StringExecFns};
use crate::analyzer::{find_names, lookup_names, SemanticAnalyzer};
use crate::arg_types::{arg_type_reports, lemma_arg_type_reports_by_state, opt_type_views, type_arg_bound_reports};
use crate::ast::{Expr, Ident, ParamConvention, Span, Type};
use crate::call_shape::{
    closure_arg_type_reports, closure_label_reports, info_call_params, info_param_views, repeated_label, shape_error_of,
    type_views, unfixed_reports,
};
use crate::closures::copy_names;
use crate::error::{error_views, CompilerError, ErrorView};
use crate::method_conventions::{access_overlaps, closure_arg_accesses, closure_arg_reports, closure_args_consumed, sink_consumes};
use crate::module_functions::qualified_function_found;
use crate::mut_args::{arg_accesses, arg_params, args_consumed, args_reports};
use crate::overload_choice::{most_specific, most_specific_prefix, positions_view};
use crate::sem_type::{display_of, SType, SemType};
use crate::symbols::FunctionInfo;
use crate::text::{list_contains, views};

verus! {

broadcast use vstd::std_specs::vec::group_vec_axioms;

/// What the analysis of a call's arguments says of them, argument by
/// argument: whether each is a mutable place and what type it has;
/// whether each satisfies the type of the parameter it fills in a
/// closure that the callee's name holds; and, overload by overload,
/// whether the call's labels and count fit it and whether each argument
/// satisfies the type of the parameter it fills there.
pub struct ArgumentFacts {
    pub mutable: Vec<bool>,
    pub types: Vec<SemType>,
    pub closure_fits: Vec<bool>,
    pub shaped: Vec<bool>,
    pub satisfies: Vec<Vec<bool>>,
    /// For each argument, the type of the parameter it fills with the
    /// call's type arguments put in, where one is known and holds no type
    /// parameter still unbound.
    pub substituted: Vec<Option<SemType>>,
    /// For each argument, whether it satisfies its substituted type.
    pub substituted_fits: Vec<bool>,
}

impl ArgumentFacts {
    /// The facts describe a call with `n_args` arguments of a function
    /// with `n_overloads` overloads.
    pub open spec fn describes(self, n_args: nat, n_overloads: nat) -> bool {
        &&& self.mutable@.len() == n_args
        &&& self.types@.len() == n_args
        &&& self.closure_fits@.len() == n_args
        &&& self.shaped@.len() == n_overloads
        &&& self.satisfies@.len() == n_overloads
        &&& forall|k: int| 0 <= k < n_overloads ==> (#[trigger] self.satisfies@[k])@.len() == n_args
        &&& self.substituted@.len() == n_args
        &&& self.substituted_fits@.len() == n_args
    }

    pub open spec fn satisfies_views(self) -> Seq<Seq<bool>> {
        self.satisfies@.map_values(|s: Vec<bool>| s@)
    }
}

/// The position of the last `::` in `s`.
pub open spec fn last_separator(s: Seq<char>) -> Option<int>
    decreases s.len(),
{
    if s.len() < 2 {
        None
    } else if s[s.len() - 2] == ':' && s[s.len() - 1] == ':' {
        Some(s.len() - 2)
    } else {
        last_separator(s.drop_last())
    }
}

/// The name of a function without its module path: the text after the
/// last `::`.
pub open spec fn simple_name_of(s: Seq<char>) -> Seq<char> {
    match last_separator(s) {
        Some(i) => s.subrange(i + 2, s.len() as int),
        None => s,
    }
}

proof fn lemma_last_separator_bounds(s: Seq<char>)
    ensures
        last_separator(s) matches Some(i) ==> 0 <= i && i + 2 <= s.len(),
    decreases s.len(),
{
    if s.len() >= 2 && !(s[s.len() - 2] == ':' && s[s.len() - 1] == ':') {
        lemma_last_separator_bounds(s.drop_last());
    }
}

/// The name of the function `name` calls, without its module path.
pub fn simple_name(name: &str) -> (r: &str)
    ensures
        r@ == simple_name_of(name@),
{
    let n = name.unicode_len();
    let mut j: usize = n;
    assert(name@.take(n as int) =~= name@);
    proof { lemma_last_separator_bounds(name@); }
    while j >= 2
        invariant
            j <= n == name@.len(),
            last_separator(name@) == last_separator(name@.take(j as int)),
        decreases j,
    {
        if name.get_char(j - 2) == ':' && name.get_char(j - 1) == ':' {
            assert(name@.take(j as int)[j - 2] == name@[j - 2] && name@.take(j as int)[j - 1] == name@[j - 1]);
            return name.substring_char(j, n);
        }
        assert(name@.take(j as int).drop_last() =~= name@.take(j - 1));
        j -= 1;
    }
    name
}

/// A `UseAfterSink` for each capture of the callee that is consumed
/// already, in the order of the captures.
pub open spec fn consumed_capture_reports(caps: Seq<Seq<char>>, consumed: Seq<Seq<char>>, span: Span) -> Seq<ErrorView>
    decreases caps.len(),
{
    if caps.len() == 0 {
        seq![]
    } else {
        consumed_capture_reports(caps.drop_last(), consumed, span) + if consumed.contains(caps.last()) {
            seq![ErrorView::UseAfterSink { name: caps.last(), span }]
        } else {
            Seq::<ErrorView>::empty()
        }
    }
}

/// The captures recorded for the closure binding `name`.
pub open spec fn captures_named(a: SemanticAnalyzer, name: Seq<char>) -> Seq<Seq<char>> {
    match lookup_names(a.closure_binding_captures@, name) {
        Some(caps) => caps,
        None => seq![],
    }
}

/// The conventions of a closure's parameters.
pub open spec fn conventions_of(ps: Seq<(ParamConvention, SemType)>) -> Seq<ParamConvention> {
    ps.map_values(|p: (ParamConvention, SemType)| p.0)
}

/// What type arguments written on a call report against the generic
/// parameters of its first overload: their number must match, and then
/// each must meet the bounds of the parameter it stands for.
pub open spec fn generic_arity_reports(a: SemanticAnalyzer, name: Seq<char>, ovs: Seq<FunctionInfo>, type_args: Seq<Type>, span: Span) -> Seq<ErrorView> {
    let given = type_args.len();
    let expected: nat = if ovs.len() > 0 { ovs[0].generics@.len() } else { 0 };
    if given > 0 && given != expected {
        seq![ErrorView::GenericArityMismatch { name, expected: expected as usize, actual: given as usize, span }]
    } else if given > 0 {
        type_arg_bound_reports(a, type_args, ovs[0].generics@, span)
    } else {
        Seq::<ErrorView>::empty()
    }
}

/// The position among `ovs` of the overload a call fits best, when it
/// fits one best.
pub open spec fn chosen_index(ovs: Seq<FunctionInfo>, args: Seq<(Option<Ident>, Expr)>, facts: ArgumentFacts) -> int {
    choose|k: int| 0 <= k < ovs.len() && #[trigger] most_specific(ovs, args, type_views(facts.types@), facts.satisfies_views(), facts.shaped@, k)
}

/// What the arguments of a call report against the types of the
/// parameters of the overload at `k` among the call's overloads.
pub open spec fn call_arg_type_reports(a: SemanticAnalyzer, o: FunctionInfo, k: int, args: Seq<(Option<Ident>, Expr)>, facts: ArgumentFacts) -> Seq<ErrorView> {
    arg_type_reports(a, o, args, type_views(facts.types@), facts.satisfies@[k]@, opt_type_views(facts.substituted@), facts.substituted_fits@)
}

/// What checking a call against the overload `o` reports, once the call
/// is known to have its shape: the arguments against the parameters'
/// conventions, then the places the arguments reach.
pub open spec fn overload_call_reports(a: SemanticAnalyzer, o: FunctionInfo, args: Seq<(Option<Ident>, Expr)>, mutable: Seq<bool>, span: Span) -> Seq<ErrorView> {
    args_reports(a, arg_params(o.params@), args, mutable, span) + access_overlaps(arg_accesses(arg_params(o.params@), args), span)
}

/// A type parameter of `o` that the call gives no type, when the call
/// writes no type arguments.
pub open spec fn unfixed_call_reports(o: FunctionInfo, simple: Seq<char>, type_args: nat, args: Seq<(Option<Ident>, Expr)>, span: Span) -> Seq<ErrorView> {
    if type_args == 0 { unfixed_reports(o.generics@, o.params@, args, simple, span) } else { Seq::<ErrorView>::empty() }
}

/// The overloads of a call with several, that the call fits best.
pub open spec fn chosen_overloads(ovs: Seq<FunctionInfo>, args: Seq<(Option<Ident>, Expr)>, facts: ArgumentFacts) -> Seq<FunctionInfo> {
    most_specific_prefix(ovs, args, type_views(facts.types@), facts.satisfies_views(), facts.shaped@, ovs.len() as int)
}

/// The callee of a call with one overload, as a diagnostic names it.
pub open spec fn function_callee(simple: Seq<char>) -> Seq<char> {
    "Function '"@ + simple + "'"@
}

/// What a call through a binding `simple` that holds a closure with
/// parameters `ps` reports: a capture of the closure that is consumed
/// already, the arguments against the conventions, the labels, and the
/// count and types of the arguments.
pub open spec fn closure_call_reports(a: SemanticAnalyzer, simple: Seq<char>, args: Seq<(Option<Ident>, Expr)>,
    ps: Seq<(ParamConvention, SemType)>, facts: ArgumentFacts, span: Span) -> Seq<ErrorView> {
    consumed_capture_reports(captures_named(a, simple), views(a.consumed_bindings@), span)
        + access_overlaps(closure_arg_accesses(conventions_of(ps), args), span)
        + closure_arg_reports(conventions_of(ps), args, facts.mutable@, span)
        + closure_label_reports(args)
        + if args.len() != ps.len() {
            seq![ErrorView::ArgumentCountMismatch { callee: "This closure"@, expected: ps.len() as usize, actual: args.len() as usize, span }]
        } else {
            closure_arg_type_reports(ps, args, type_views(facts.types@), facts.closure_fits@, args.len() as int)
        }
}

/// What a call of `name`, which no overload and no closure answers,
/// reports: a binding that holds a closure that may be absent must be
/// unwrapped first; anything else must name a function of a module.
pub open spec fn name_call_reports(a: SemanticAnalyzer, name: Seq<char>, binding: Option<SType>, span: Span) -> Seq<ErrorView> {
    let undefined = if qualified_function_found(a.symbols, name) {
        Seq::<ErrorView>::empty()
    } else {
        seq![ErrorView::UndefinedReference { name, span }]
    };
    match binding {
        Some(SType::Optional(inner)) => match *inner {
            SType::Closure { .. } => seq![ErrorView::OptionalUsedAsNonOptional {
                actual: display_of(SType::Optional(inner)),
                expected: display_of(*inner),
                span,
            }],
            _ => undefined,
        },
        _ => undefined,
    }
}

/// What a call of `name` with no overload reports.
pub open spec fn unresolved_call_reports(a: SemanticAnalyzer, name: Seq<char>, args: Seq<(Option<Ident>, Expr)>,
    closure: Option<Seq<(ParamConvention, SemType)>>, binding: Option<SType>, facts: ArgumentFacts, span: Span) -> Seq<ErrorView> {
    match closure {
        Some(ps) => closure_call_reports(a, simple_name_of(name), args, ps, facts, span),
        None => name_call_reports(a, name, binding, span),
    }
}

/// What a call with one overload `o` reports.
pub open spec fn single_overload_reports(a: SemanticAnalyzer, o: FunctionInfo, simple: Seq<char>, type_args: nat,
    args: Seq<(Option<Ident>, Expr)>, facts: ArgumentFacts, span: Span) -> Seq<ErrorView> {
    unfixed_call_reports(o, simple, type_args, args, span) + match shape_error_of(function_callee(simple), simple, info_call_params(o.params@), args, span) {
        Some(e) => seq![e],
        None => overload_call_reports(a, o, args, facts.mutable@, span) + call_arg_type_reports(a, o, 0, args, facts),
    }
}

/// What a call of `name` reports, once its overloads `ovs` are known.
pub open spec fn function_call_reports(a: SemanticAnalyzer, name: Seq<char>, type_args: Seq<Type>, args: Seq<(Option<Ident>, Expr)>,
    ovs: Seq<FunctionInfo>, closure: Option<Seq<(ParamConvention, SemType)>>, binding: Option<SType>, facts: ArgumentFacts, span: Span) -> Seq<ErrorView> {
    let simple = simple_name_of(name);
    generic_arity_reports(a, name, ovs, type_args, span) + match repeated_label(args) {
        Some(l) => seq![ErrorView::DuplicateDefinition { name: "argument '"@ + l.name@ + "'"@, span: l.span }],
        None => if ovs.len() == 0 {
            unresolved_call_reports(a, name, args, closure, binding, facts, span)
        } else if ovs.len() == 1 {
            single_overload_reports(a, ovs[0], simple, type_args.len(), args, facts, span)
        } else {
            let chosen = chosen_overloads(ovs, args, facts);
            if chosen.len() == 0 {
                seq![ErrorView::NoMatchingOverload { function: simple, span }]
            } else if chosen.len() == 1 {
                unfixed_call_reports(chosen[0], simple, type_args.len(), args, span) + overload_call_reports(a, chosen[0], args, facts.mutable@, span)
                    + call_arg_type_reports(a, chosen[0], chosen_index(ovs, args, facts), args, facts)
            } else {
                seq![ErrorView::AmbiguousCall { function: simple, span }]
            }
        },
    }
}

/// The overload choice that a call of `name` records: the position of the
/// one overload it resolves to, when it has several.
pub open spec fn function_call_choice(name: Seq<char>, args: Seq<(Option<Ident>, Expr)>, ovs: Seq<FunctionInfo>,
    facts: ArgumentFacts, span: Span) -> Seq<(Span, Seq<char>, usize)> {
    if repeated_label(args) is None && ovs.len() > 1 && chosen_overloads(ovs, args, facts).len() == 1 {
        seq![(span, simple_name_of(name), chosen_index(ovs, args, facts) as usize)]
    } else {
        Seq::<(Span, Seq<char>, usize)>::empty()
    }
}

/// What a call of `name` consumes: what its arguments give to `sink`
/// parameters of the closure or the overload it is checked against.
pub open spec fn function_call_consumed(a: SemanticAnalyzer, name: Seq<char>, args: Seq<(Option<Ident>, Expr)>,
    ovs: Seq<FunctionInfo>, closure: Option<Seq<(ParamConvention, SemType)>>, facts: ArgumentFacts, span: Span) -> Set<Seq<char>> {
    let simple = simple_name_of(name);
    if repeated_label(args) is Some {
        Set::empty()
    } else if ovs.len() == 0 {
        match closure {
            Some(ps) => closure_args_consumed(a, conventions_of(ps), args),
            None => Set::empty(),
        }
    } else if ovs.len() == 1 {
        if shape_error_of(function_callee(simple), simple, info_call_params(ovs[0].params@), args, span) is None {
            args_consumed(a, arg_params(ovs[0].params@), args)
        } else {
            Set::empty()
        }
    } else {
        let chosen = chosen_overloads(ovs, args, facts);
        if chosen.len() == 1 { args_consumed(a, arg_params(chosen[0].params@), args) } else { Set::empty() }
    }
}

/// The checks of the arguments of a call read nothing that a diagnostic
/// changes.
proof fn lemma_args_by_state(a: SemanticAnalyzer, b: SemanticAnalyzer, ns: Seq<crate::symbols::ParamInfo>,
    args: Seq<(Option<Ident>, Expr)>, mutable: Seq<bool>, span: Span)
    requires
        a.same_state(b),
    ensures
        args_reports(a, ns, args, mutable, span) == args_reports(b, ns, args, mutable, span),
        args_consumed(a, ns, args) == args_consumed(b, ns, args),
    decreases args.len(),
{
    if args.len() > 0 {
        lemma_args_by_state(a, b, ns, args.drop_last(), mutable, span);
    }
}

proof fn lemma_closure_args_by_state(a: SemanticAnalyzer, b: SemanticAnalyzer, cs: Seq<ParamConvention>, args: Seq<(Option<Ident>, Expr)>)
    requires
        a.closure_binding_captures == b.closure_binding_captures,
    ensures
        closure_args_consumed(a, cs, args) == closure_args_consumed(b, cs, args),
    decreases args.len(),
{
    if args.len() > 0 {
        lemma_closure_args_by_state(a, b, cs, args.drop_last());
        assert(sink_consumes(a, args.last().1) == sink_consumes(b, args.last().1));
    }
}

impl SemanticAnalyzer {
    /// Check a call through the binding `simple`, which holds a closure
    /// whose parameters are `params`.
    fn check_call_through_closure(
        &mut self,
        simple: &str,
        args: &Vec<(Option<Ident>, Expr)>,
        params: &Vec<(ParamConvention, SemType)>,
        facts: &ArgumentFacts,
        span: Span,
    )
        requires
            facts.mutable@.len() == args@.len(),
            facts.types@.len() == args@.len(),
            facts.closure_fits@.len() == args@.len(),
        ensures
            final(self).symbols == old(self).symbols,
            final(self).closure_binding_captures == old(self).closure_binding_captures,
            error_views(final(self).errors@) == error_views(old(self).errors@) + closure_call_reports(*old(self), simple@, args@, params@, *facts, span),
            views(final(self).consumed_bindings@).to_set() == views(old(self).consumed_bindings@).to_set()
                .union(closure_args_consumed(*old(self), conventions_of(params@), args@)),
    {
        let ghost a0 = *self;
        let ghost e0 = error_views(self.errors@);
        match find_names(&self.closure_binding_captures, simple) {
            Some(found) => {
                let caps = copy_names(found);
                let mut k: usize = 0;
                while k < caps.len()
                    invariant
                        k <= caps@.len(),
                        self.same_state(a0),
                        views(caps@) == captures_named(a0, simple@),
                        error_views(self.errors@) == e0 + consumed_capture_reports(views(caps@).take(k as int), views(a0.consumed_bindings@), span),
                    decreases caps.len() - k,
                {
                    proof {
                        assert(views(caps@).take(k + 1).drop_last() =~= views(caps@).take(k as int));
                        assert(views(caps@).take(k + 1).last() == caps@[k as int]@);
                    }
                    if list_contains(&self.consumed_bindings, caps[k].as_str()) {
                        self.report(CompilerError::UseAfterSink { name: caps[k].clone(), span });
                    } else {
                        assert(error_views(self.errors@) =~= e0 + consumed_capture_reports(views(caps@).take(k + 1), views(a0.consumed_bindings@), span));
                    }
                    k += 1;
                }
                assert(views(caps@).take(k as int) =~= views(caps@));
            },
            None => {
                assert(error_views(self.errors@) =~= e0 + consumed_capture_reports(captures_named(a0, simple@), views(a0.consumed_bindings@), span));
            },
        }
        let ghost a2 = *self;
        let mut conventions: Vec<ParamConvention> = Vec::new();
        let mut i: usize = 0;
        while i < params.len()
            invariant
                i <= params@.len(),
                conventions@ == conventions_of(params@.take(i as int)),
            decreases params.len() - i,
        {
            conventions.push(params[i].0);
            assert(conventions_of(params@.take(i + 1)) =~= conventions_of(params@.take(i as int)).push(params@[i as int].0));
            i += 1;
        }
        assert(params@.take(i as int) =~= params@);
        self.validate_closure_call_conventions(&conventions, args, &facts.mutable, span);
        proof { lemma_closure_args_by_state(a2, a0, conventions@, args@); }
        self.validate_closure_call_shape(params, args, &facts.types, &facts.closure_fits, span);
    }

    /// Check a call of `name`, which no overload and no closure answers.
    fn check_call_of_name(&mut self, name: &str, binding: Option<&SemType>, span: Span)
        ensures
            final(self).same_state(*old(self)),
            error_views(final(self).errors@) == error_views(old(self).errors@) + name_call_reports(*old(self), name@,
                match binding { Some(b) => Some(b@), None => None }, span),
    {
        let ghost e0 = error_views(self.errors@);
        let ghost bv = match binding { Some(b) => Some(b@), None => None };
        if let Some(b) = binding {
            if let SemType::Optional(inner) = b {
                if let SemType::Closure { .. } = &**inner {
                    let actual = b.display();
                    let expected = inner.display();
                    assert(b@ == SType::Optional(Box::new(inner@)));
                    assert(bv == Some(SType::Optional(Box::new(inner@))));
                    self.report(CompilerError::OptionalUsedAsNonOptional { actual, expected, span });
                    return;
                }
                assert(!(inner@ is Closure));
            }
        }
        if !self.resolve_qualified_function(name) {
            self.report(CompilerError::UndefinedReference { name: String::from_str(name), span });
        } else {
            assert(e0 + Seq::<ErrorView>::empty() =~= e0);
        }
    }

    /// Check a call against the overload `info` it is resolved to: a type
    /// parameter that it gives no type, the arguments against the
    /// parameters' conventions, then the arguments against the
    /// parameters' types; `fits` says, argument by argument, whether each
    /// satisfies its parameter's declared type in `info`.
    fn check_against_overload(
        &mut self,
        simple: &str,
        info: &FunctionInfo,
        type_args: &Vec<Type>,
        args: &Vec<(Option<Ident>, Expr)>,
        facts: &ArgumentFacts,
        fits: &Vec<bool>,
        span: Span,
    )
        requires
            facts.mutable@.len() == args@.len(),
            facts.types@.len() == args@.len(),
            facts.substituted@.len() == args@.len(),
            facts.substituted_fits@.len() == args@.len(),
            fits@.len() == args@.len(),
        ensures
            final(self).symbols == old(self).symbols,
            final(self).closure_binding_captures == old(self).closure_binding_captures,
            final(self).type_param_bounds == old(self).type_param_bounds,
            error_views(final(self).errors@) == error_views(old(self).errors@) + unfixed_call_reports(*info, simple@, type_args@.len(), args@, span)
                + overload_call_reports(*old(self), *info, args@, facts.mutable@, span)
                + arg_type_reports(*old(self), *info, args@, type_views(facts.types@), fits@, opt_type_views(facts.substituted@), facts.substituted_fits@),
            views(final(self).consumed_bindings@).to_set() == views(old(self).consumed_bindings@).to_set()
                .union(args_consumed(*old(self), arg_params(info.params@), args@)),
    {
        let ghost a0 = *self;
        self.check_type_params_given(simple, &info.params, &info.generics, type_args, args, span);
        let ghost a3 = *self;
        proof { lemma_args_by_state(a3, a0, arg_params(info.params@), args@, facts.mutable@, span); }
        self.validate_mut_param_args(&info.params, args, &facts.mutable, span);
        let ghost a4 = *self;
        self.check_arg_types(info, args, &facts.types, fits, &facts.substituted, &facts.substituted_fits);
        proof {
            lemma_arg_type_reports_by_state(a4, a0, *info, args@, type_views(facts.types@), fits@, opt_type_views(facts.substituted@), facts.substituted_fits@);
        }
    }

    /// Check a call against its one overload `info`: a type parameter
    /// that it gives no type, the call's shape, and, when that is right,
    /// the arguments against the parameters' conventions and types.
    fn check_single_overload(
        &mut self,
        simple: &str,
        info: &FunctionInfo,
        type_args: &Vec<Type>,
        args: &Vec<(Option<Ident>, Expr)>,
        facts: &ArgumentFacts,
        span: Span,
    )
        requires
            facts.describes(args@.len(), 1),
        ensures
            final(self).symbols == old(self).symbols,
            final(self).closure_binding_captures == old(self).closure_binding_captures,
            error_views(final(self).errors@) == error_views(old(self).errors@) + single_overload_reports(*old(self), *info, simple@, type_args@.len(), args@, *facts, span),
            views(final(self).consumed_bindings@).to_set() == views(old(self).consumed_bindings@).to_set().union(
                if shape_error_of(function_callee(simple@), simple@, info_call_params(info.params@), args@, span) is None {
                    args_consumed(*old(self), arg_params(info.params@), args@)
                } else {
                    Set::<Seq<char>>::empty()
                }),
    {
        let ghost a0 = *self;
        let ghost c0 = views(self.consumed_bindings@).to_set();
        self.check_type_params_given(simple, &info.params, &info.generics, type_args, args, span);
        let views_of = info_param_views(&info.params);
        let mut callee = String::from_str("Function '");
        callee.append(simple);
        callee.append("'");
        if self.validate_call_shape(callee.as_str(), simple, &views_of, args, span) {
            let ghost a3 = *self;
            proof { lemma_args_by_state(a3, a0, arg_params(info.params@), args@, facts.mutable@, span); }
            self.validate_mut_param_args(&info.params, args, &facts.mutable, span);
            let ghost a4 = *self;
            assert(facts.satisfies@[0]@.len() == args@.len());
            self.check_arg_types(info, args, &facts.types, &facts.satisfies[0], &facts.substituted, &facts.substituted_fits);
            proof {
                lemma_arg_type_reports_by_state(a4, a0, *info, args@, type_views(facts.types@), facts.satisfies@[0]@,
                    opt_type_views(facts.substituted@), facts.substituted_fits@);
            }
        } else {
            assert(views(self.consumed_bindings@).to_set() =~= c0.union(Set::<Seq<char>>::empty()));
        }
    }

    /// Check a call of the function `name`, once its overloads are known:
    /// the number of type arguments it writes, the labels it repeats, and
    /// then the call against the closure its name holds, its one
    /// overload, or the overload it fits best among several. `closure`
    /// is the type of the parameters of a closure that a binding of the
    /// name holds, and `binding` the type of such a binding.
    #[verifier::rlimit(50)]
    pub fn validate_function_call_target(
        &mut self,
        name: &str,
        type_args: &Vec<Type>,
        args: &Vec<(Option<Ident>, Expr)>,
        overloads: &Vec<FunctionInfo>,
        closure: Option<&Vec<(ParamConvention, SemType)>>,
        binding: Option<&SemType>,
        facts: &ArgumentFacts,
        span: Span,
    )
        requires
            facts.describes(args@.len(), overloads@.len()),
        ensures
            final(self).symbols.same_tables(old(self).symbols),
            final(self).symbols.choice_views() == old(self).symbols.choice_views() + function_call_choice(name@, args@, overloads@, *facts, span),
            final(self).closure_binding_captures == old(self).closure_binding_captures,
            error_views(final(self).errors@) == error_views(old(self).errors@) + function_call_reports(*old(self), name@, type_args@,
                args@, overloads@, match closure { Some(c) => Some(c@), None => None }, match binding { Some(b) => Some(b@), None => None },
                *facts, span),
            views(final(self).consumed_bindings@).to_set() == views(old(self).consumed_bindings@).to_set().union(function_call_consumed(
                *old(self), name@, args@, overloads@, match closure { Some(c) => Some(c@), None => None }, *facts, span)),
    {
        let ghost a0 = *self;
        let ghost e0 = error_views(self.errors@);
        let ghost c0 = views(self.consumed_bindings@).to_set();
        assert(a0.symbols.choice_views() + Seq::<(Span, Seq<char>, usize)>::empty() =~= a0.symbols.choice_views());
        if type_args.len() > 0 {
            let expected: usize = if overloads.len() > 0 { overloads[0].generics.len() } else { 0 };
            if type_args.len() != expected {
                self.report(CompilerError::GenericArityMismatch { name: String::from_str(name), expected, actual: type_args.len(), span });
            } else {
                self.check_type_arg_bounds(type_args, &overloads[0].generics, span);
            }
        } else {
            assert(e0 + Seq::<ErrorView>::empty() =~= e0);
        }
        let ghost e1 = error_views(self.errors@);
        assert(e1 == e0 + generic_arity_reports(a0, name@, overloads@, type_args@, span));
        if !self.check_repeated_labels(args) {
            assert(views(self.consumed_bindings@).to_set() =~= c0.union(Set::<Seq<char>>::empty()));
            return;
        }
        let ghost a1 = *self;
        assert(error_views(self.errors@) =~= e1);
        let simple = simple_name(name);
        if overloads.len() == 0 {
            match closure {
                Some(params) => {
                    self.check_call_through_closure(simple, args, params, facts, span);
                    proof {
                        assert(captures_named(a1, simple@) == captures_named(a0, simple@));
                        lemma_closure_args_by_state(a1, a0, conventions_of(params@), args@);
                    }
                },
                None => {
                    self.check_call_of_name(name, binding, span);
                    assert(views(self.consumed_bindings@).to_set() =~= c0.union(Set::<Seq<char>>::empty()));
                },
            }
        } else if overloads.len() == 1 {
            self.check_single_overload(simple, &overloads[0], type_args, args, facts, span);
            proof {
                lemma_args_by_state(a1, a0, arg_params(overloads@[0].params@), args@, facts.mutable@, span);
                lemma_arg_type_reports_by_state(a1, a0, overloads@[0], args@, type_views(facts.types@), facts.satisfies@[0]@,
                    opt_type_views(facts.substituted@), facts.substituted_fits@);
            }
        } else {
            let idx = self.most_specific_indices(overloads, args, &facts.shaped, &facts.types, &facts.satisfies);
            let ghost ms = |k: int| most_specific(overloads@, args@, type_views(facts.types@), facts.satisfies_views(), facts.shaped@, k);
            assert(positions_view(idx@, overloads@) == chosen_overloads(overloads@, args@, *facts));
            assert(idx@.len() == chosen_overloads(overloads@, args@, *facts).len());
            if idx.len() == 0 {
                self.report(CompilerError::NoMatchingOverload { function: String::from_str(simple), span });
                assert(views(self.consumed_bindings@).to_set() =~= c0.union(Set::<Seq<char>>::empty()));
                assert(self.symbols.choice_views() =~= a0.symbols.choice_views() + Seq::<(Span, Seq<char>, usize)>::empty());
            } else if idx.len() == 1 {
                let index = idx[0];
                let info = &overloads[index];
                assert(*info == chosen_overloads(overloads@, args@, *facts)[0]);
                assert(facts.satisfies@[index as int]@.len() == args@.len());
                self.check_against_overload(simple, info, type_args, args, facts, &facts.satisfies[index], span);
                proof {
                    lemma_args_by_state(a1, a0, arg_params(info.params@), args@, facts.mutable@, span);
                    lemma_arg_type_reports_by_state(a1, a0, *info, args@, type_views(facts.types@), facts.satisfies@[index as int]@,
                        opt_type_views(facts.substituted@), facts.substituted_fits@);
                    assert(idx@[0] == index);
                    assert(idx@.contains((index as int) as usize));
                    assert(ms(index as int));
                    let c = choose|k: int| 0 <= k < overloads@.len() && #[trigger] most_specific(overloads@, args@,
                        type_views(facts.types@), facts.satisfies_views(), facts.shaped@, k);
                    assert(ms(c));
                    assert(idx@.contains(c as usize));
                    assert(c == index as int);
                }
                let ghost cv = self.symbols.choice_views();
                self.symbols.record_overload_choice(span, simple, index);
                proof {
                    assert(function_call_choice(name@, args@, overloads@, *facts, span) == seq![(span, simple@, index)]);
                    assert(self.symbols.choice_views() =~= a0.symbols.choice_views() + seq![(span, simple@, index)]);
                }
            } else {
                self.report(CompilerError::AmbiguousCall { function: String::from_str(simple), span });
                assert(views(self.consumed_bindings@).to_set() =~= c0.union(Set::<Seq<char>>::empty()));
                assert(self.symbols.choice_views() =~= a0.symbols.choice_views() + Seq::<(Span, Seq<char>, usize)>::empty());
            }
        }
    }
}

} // verus!

//! What a method call reads of its receiver and of the method it calls.

use vstd::prelude::*;
use vstd::string::StringExecFns;
use crate::analyzer::SemanticAnalyzer;
use crate::ast::{Expr, File, FnDef, FnParam, Ident, ParamConvention, Span};
use crate::error::{error_views, CompilerError, ErrorView};
use crate::exclusivity::{all_overlaps, first_occurrences, overlap_reports};
use crate::expr_checks::root_of;
use crate::method_conventions::{fn_arg_accesses, fn_arg_params, fn_arg_reports, fn_args_consumed, self_param, sink_consumes};
use crate::method_lookup::{field_is_closure, method_exists};
use crate::mut_args::{lemma_places_owned, owned_accesses, places_of};
use crate::text::views;
use crate::sem_type::{display_of, view_args, view_type, SType, SemType};
use crate::text::str_equals;

verus! {

broadcast use vstd::std_specs::vec::group_vec_axioms;

/// The name under which the methods of a receiver of type `t` are
/// declared: the built-in compound shapes by the carrier that declares
/// them, a generic type by its base.
pub open spec fn receiver_name_of(t: SType) -> Seq<char> {
    match t {
        SType::Optional(_) => "Optional"@,
        SType::Array(_) => "Array"@,
        SType::Dictionary { .. } => "Dictionary"@,
        SType::Generic { base, .. } => base,
        _ => display_of(t),
    }
}

/// The type arguments of a receiver of type `t`, in the order its type
/// declares its parameters.
pub open spec fn receiver_args_of(t: SType) -> Seq<SType> {
    match t {
        SType::Generic { args, .. } => args,
        SType::Array(inner) => seq![*inner],
        SType::Optional(inner) => seq![*inner],
        SType::Dictionary { key, value } => seq![*key, *value],
        _ => seq![],
    }
}

/// How many of the parameters have no default value.
pub open spec fn defaultless(ps: Seq<FnParam>) -> nat
    decreases ps.len(),
{
    if ps.len() == 0 { 0 } else { defaultless(ps.drop_last()) + if ps.last().default is None { 1nat } else { 0nat } }
}

/// The count a method call of `params` with `given` arguments falls
/// short of, or goes past: the number it has to reach, and the number it
/// gives.
pub open spec fn arity_mismatch(params: Seq<FnParam>, given: nat) -> Option<(nat, nat)> {
    let ns = fn_arg_params(params);
    if given < defaultless(ns) {
        Some((defaultless(ns), given))
    } else if given > ns.len() {
        Some((ns.len(), given))
    } else {
        None
    }
}

/// Some parameter of `f` is called `self`.
pub open spec fn takes_self(f: FnDef) -> bool {
    exists|i: int| 0 <= i < f.params@.len() && (#[trigger] f.params@[i]).name.name@ == "self"@
}

/// What the receiver of a call of a method with parameters `ps` reports:
/// a `mut self` needs a mutable receiver.
pub open spec fn receiver_reports(ps: Seq<FnParam>, receiver_mutable: bool, span: Span) -> Seq<ErrorView> {
    match self_param(ps) {
        Some(p) => if p.convention == ParamConvention::Mut && !receiver_mutable {
            seq![ErrorView::MutabilityMismatch { param: "self"@, span }]
        } else {
            Seq::<ErrorView>::empty()
        },
        None => Seq::<ErrorView>::empty(),
    }
}

/// What the receiver gives away: its root binding, to a `sink self`.
pub open spec fn receiver_consumes(ps: Seq<FnParam>, receiver: Expr) -> Set<Seq<char>> {
    match (self_param(ps), root_of(receiver)) {
        (Some(p), Some(r)) => if p.convention == ParamConvention::Sink { set![r] } else { Set::empty() },
        _ => Set::empty(),
    }
}

/// The places a method call reaches: each argument with the convention
/// of the parameter it fills, then the receiver with that of `self`.
pub open spec fn method_accesses(ps: Seq<FnParam>, args: Seq<(Option<Ident>, Expr)>, receiver: Expr) -> Seq<(ParamConvention, Expr)> {
    fn_arg_accesses(fn_arg_params(ps), args) + match self_param(ps) {
        Some(p) => seq![(p.convention, receiver)],
        None => Seq::<(ParamConvention, Expr)>::empty(),
    }
}

/// An `ArgumentCountMismatch` when a call of `method` with `given`
/// arguments gives too few or too many.
pub open spec fn arity_reports(method: Seq<char>, ps: Seq<FnParam>, given: nat, span: Span) -> Seq<ErrorView> {
    match arity_mismatch(ps, given) {
        Some((n, m)) => seq![ErrorView::ArgumentCountMismatch { callee: "Method '"@ + method + "'"@, expected: n as usize, actual: m as usize, span }],
        None => Seq::<ErrorView>::empty(),
    }
}

/// What giving `args` to a method consumes does not depend on anything
/// but the captures of the closure bindings.
proof fn lemma_args_consumed_by_captures(a: SemanticAnalyzer, b: SemanticAnalyzer, ns: Seq<FnParam>, args: Seq<(Option<Ident>, Expr)>)
    requires
        a.closure_binding_captures == b.closure_binding_captures,
    ensures
        fn_args_consumed(a, ns, args) == fn_args_consumed(b, ns, args),
    decreases args.len(),
{
    if args.len() > 0 {
        lemma_args_consumed_by_captures(a, b, ns, args.drop_last());
        assert(sink_consumes(a, args.last().1) == sink_consumes(b, args.last().1));
    }
}

impl SemanticAnalyzer {
    /// The name under which the methods of a receiver of type `receiver`
    /// are declared.
    pub fn method_receiver_name(receiver: &SemType) -> (r: String)
        ensures
            r@ == receiver_name_of(receiver@),
    {
        match receiver {
            SemType::Optional(_) => String::from_str("Optional"),
            SemType::Array(_) => String::from_str("Array"),
            SemType::Dictionary { .. } => String::from_str("Dictionary"),
            SemType::Generic { base, .. } => base.clone(),
            _ => receiver.display(),
        }
    }

    /// The type arguments of a receiver: `[I32]` for `Seq<I32>` and for
    /// `[I32]`, and the key and value types for a dictionary.
    pub fn receiver_type_arguments(receiver: &SemType) -> (r: Vec<SemType>)
        ensures
            view_args(r@) == receiver_args_of(receiver@),
    {
        let mut out: Vec<SemType> = Vec::new();
        match receiver {
            SemType::Generic { args, .. } => {
                let mut k: usize = 0;
                while k < args.len()
                    invariant
                        k <= args@.len(),
                        view_args(out@) == view_args(args@.take(k as int)),
                    decreases args.len() - k,
                {
                    let ghost ob = out@;
                    out.push(args[k].duplicate());
                    assert(out@.drop_last() =~= ob);
                    assert(args@.take(k + 1).drop_last() =~= args@.take(k as int));
                    k += 1;
                }
                assert(args@.take(k as int) =~= args@);
            },
            SemType::Array(inner) => {
                let d = inner.duplicate();
                out.push(d);
                assert(out@.drop_last() =~= Seq::<SemType>::empty());
                assert(view_args(Seq::<SemType>::empty()) =~= Seq::<SType>::empty());
                assert(view_type(out@.last()) == view_type(**inner));
                assert(view_args(out@) =~= seq![view_type(**inner)]);
            },
            SemType::Optional(inner) => {
                let d = inner.duplicate();
                out.push(d);
                assert(out@.drop_last() =~= Seq::<SemType>::empty());
                assert(view_args(Seq::<SemType>::empty()) =~= Seq::<SType>::empty());
                assert(view_type(out@.last()) == view_type(**inner));
                assert(view_args(out@) =~= seq![view_type(**inner)]);
            },
            SemType::Dictionary { key, value } => {
                let k = key.duplicate();
                out.push(k);
                let ghost one = out@;
                assert(one.drop_last() =~= Seq::<SemType>::empty());
                assert(view_args(Seq::<SemType>::empty()) =~= Seq::<SType>::empty());
                assert(view_type(one.last()) == view_type(**key));
                assert(view_args(one) =~= seq![view_type(**key)]);
                let v = value.duplicate();
                out.push(v);
                assert(out@.drop_last() =~= one);
                assert(view_type(out@.last()) == view_type(**value));
                assert(view_args(out@) =~= seq![view_type(**key), view_type(**value)]);
            },
            _ => {},
        }
        out
    }

    /// Whether a call with `args` gives a method of `params` too few
    /// arguments (fewer than its parameters without a default) or too
    /// many (more than all of them but `self`): the number the call has
    /// to reach, with the number it gives.
    pub fn method_arity_mismatch(params: &Vec<FnParam>, args: &Vec<(Option<Ident>, Expr)>) -> (r: Option<(usize, usize)>)
        ensures
            r matches Some((n, m)) ==> arity_mismatch(params@, args@.len()) == Some((n as nat, m as nat)),
            r is None <==> arity_mismatch(params@, args@.len()) is None,
    {
        let mut total: usize = 0;
        let mut required: usize = 0;
        let mut i: usize = 0;
        while i < params.len()
            invariant
                i <= params@.len(),
                total == fn_arg_params(params@.take(i as int)).len(),
                required == defaultless(fn_arg_params(params@.take(i as int))),
                required <= total <= i,
            decreases params.len() - i,
        {
            proof {
                assert(params@.take(i + 1).drop_last() =~= params@.take(i as int));
                assert(params@.take(i + 1).last() == params@[i as int]);
                let ns = fn_arg_params(params@.take(i as int));
                assert((ns + seq![params@[i as int]]).drop_last() =~= ns);
                assert((ns + Seq::<FnParam>::empty()) =~= ns);
            }
            if !str_equals(params[i].name.name.as_str(), "self") {
                total += 1;
                if params[i].default.is_none() {
                    required += 1;
                }
            }
            i += 1;
        }
        assert(params@.take(i as int) =~= params@);
        if args.len() < required {
            Some((required, args.len()))
        } else if args.len() > total {
            Some((total, args.len()))
        } else {
            None
        }
    }

    /// Check a call on a type, `Counter.zero()`: it reaches only a method
    /// with no `self`. `chosen` is the method the call resolved to. Return
    /// whether the call is right.
    pub fn check_static_call(&mut self, chosen: Option<&FnDef>, method: &str, owner: &str, span: Span) -> (r: bool)
        ensures
            final(self).same_state(*old(self)),
            r == (chosen matches Some(f) && !takes_self(*f)),
            error_views(final(self).errors@) == error_views(old(self).errors@) + match chosen {
                None => seq![ErrorView::UndefinedReference { name: "method '"@ + method@ + "' on type '"@ + owner@ + "'"@, span }],
                Some(f) => if takes_self(*f) {
                    seq![ErrorView::NotAStaticMethod { method: method@, named_type: owner@, span }]
                } else {
                    Seq::<ErrorView>::empty()
                },
            },
    {
        match chosen {
            None => {
                let mut name = String::from_str("method '");
                name.append(method);
                name.append("' on type '");
                name.append(owner);
                name.append("'");
                self.report(CompilerError::UndefinedReference { name, span });
                false
            },
            Some(f) => {
                let mut i: usize = 0;
                let mut found = false;
                while i < f.params.len() && !found
                    invariant
                        i <= f.params@.len(),
                        found ==> takes_self(*f),
                        !found ==> forall|j: int| 0 <= j < i ==> (#[trigger] f.params@[j]).name.name@ != "self"@,
                    decreases f.params.len() - i + if found { 0int } else { 1int },
                {
                    if str_equals(f.params[i].name.name.as_str(), "self") {
                        found = true;
                    } else {
                        i += 1;
                    }
                }
                if found {
                    self.report(CompilerError::NotAStaticMethod {
                        method: String::from_str(method),
                        named_type: String::from_str(owner),
                        span,
                    });
                    false
                } else {
                    assert(error_views(self.errors@) =~= error_views(self.errors@) + Seq::<ErrorView>::empty());
                    true
                }
            },
        }
    }

    /// The type that a receiver names when it is the name of a struct:
    /// `Counter` in `Counter.zero()`. A struct name wins over a local
    /// binding of the same name; a name that is also an enum's is not a
    /// struct receiver.
    pub fn type_receiver(&self, receiver: &Expr) -> (r: Option<SemType>)
        ensures
            r is Some <==> (receiver matches Expr::Reference { path, .. } && path@.len() == 1
                && self.symbols.has_struct(path@[0].name@) && !self.symbols.has_enum(path@[0].name@)),
            r matches Some(t) ==> (receiver matches Expr::Reference { path, .. } && t@ == SType::Named(path@[0].name@)),
    {
        match receiver {
            Expr::Reference { path, .. } => {
                if path.len() != 1 {
                    return None;
                }
                let name = path[0].name.as_str();
                if self.symbols.struct_index(name).is_some() && self.symbols.enum_index(name).is_none() {
                    Some(SemType::Named(path[0].name.clone()))
                } else {
                    None
                }
            },
            _ => None,
        }
    }
    /// Check a method call once the method it calls is known, on a
    /// receiver whose methods are declared under `receiver_type`.
    /// With `chosen`, the method the call resolved to: the receiver
    /// against `self`, each argument against its parameter's convention,
    /// the places the call reaches for overlaps, and the number of
    /// arguments. Without one, the method must exist on the type, or be a
    /// closure-typed field of it. `receiver_mutable` and `args_mutable`
    /// say which of the receiver and the arguments are mutable places.
    pub fn validate_method_call_target(
        &mut self,
        receiver: &Expr,
        receiver_type: &str,
        method: &Ident,
        args: &Vec<(Option<Ident>, Expr)>,
        chosen: Option<&FnDef>,
        receiver_mutable: bool,
        args_mutable: &Vec<bool>,
        span: Span,
        file: &File,
    )
        requires
            args_mutable@.len() == args@.len(),
        ensures
            final(self).symbols == old(self).symbols,
            final(self).closure_binding_captures == old(self).closure_binding_captures,
            chosen matches Some(f) ==> error_views(final(self).errors@) == error_views(old(self).errors@)
                + receiver_reports(f.params@, receiver_mutable, span)
                + fn_arg_reports(fn_arg_params(f.params@), args@, args_mutable@, span)
                + overlap_reports(
                    first_occurrences(Seq::<Seq<Seq<char>>>::empty(), all_overlaps(places_of(method_accesses(f.params@, args@, *receiver)),
                        places_of(method_accesses(f.params@, args@, *receiver)).len() as int)),
                    span,
                )
                + arity_reports(method.name@, f.params@, args@.len(), span),
            chosen matches Some(f) ==> views(final(self).consumed_bindings@).to_set() == views(old(self).consumed_bindings@).to_set()
                .union(receiver_consumes(f.params@, *receiver))
                .union(fn_args_consumed(*old(self), fn_arg_params(f.params@), args@)),
            chosen is None ==> final(self).consumed_bindings == old(self).consumed_bindings,
            chosen is None ==> error_views(final(self).errors@) == error_views(old(self).errors@)
                + if method_exists(*old(self), *file, receiver_type@, method.name@) || field_is_closure(*old(self), *file, receiver_type@, method.name@) {
                    Seq::<ErrorView>::empty()
                } else {
                    seq![ErrorView::UndefinedReference { name: "method '"@ + method.name@ + "' on type '"@ + receiver_type@ + "'"@, span }]
                },
    {
        let ghost a0 = *self;
        let ghost e0 = error_views(self.errors@);
        match chosen {
            Some(f) => {
                let params = &f.params;
                self.validate_fn_param_conventions_receiver(receiver, params, receiver_mutable, span);
                let ghost a1 = *self;
                let mut accesses = self.validate_fn_param_conventions_args(params, args, args_mutable, span);
                proof { lemma_args_consumed_by_captures(a1, a0, fn_arg_params(params@), args@); }
                let ghost acc0 = accesses@;
                let mut i: usize = 0;
                assert(params@.skip(0) =~= params@);
                while i < params.len()
                    invariant
                        i <= params@.len(),
                        self_param(params@) == self_param(params@.skip(i as int)),
                    decreases params.len() - i,
                {
                    assert(params@.skip(i as int)[0] == params@[i as int]);
                    if str_equals(params[i].name.name.as_str(), "self") {
                        break;
                    }
                    assert(params@.skip(i as int).drop_first() =~= params@.skip(i + 1));
                    i += 1;
                }
                if i < params.len() {
                    accesses.push((params[i].convention, receiver));
                    assert(owned_accesses(accesses@) =~= owned_accesses(acc0).push((params@[i as int].convention, *receiver)));
                } else {
                    assert(owned_accesses(accesses@) =~= owned_accesses(acc0) + Seq::<(ParamConvention, Expr)>::empty());
                }
                assert(owned_accesses(accesses@) == method_accesses(params@, args@, *receiver));
                proof { lemma_places_owned(accesses@); }
                self.validate_exclusive_access(&accesses, span);
                let ghost e3 = error_views(self.errors@);
                match Self::method_arity_mismatch(params, args) {
                    Some((expected, actual)) => {
                        let mut callee = String::from_str("Method '");
                        callee.append(method.name.as_str());
                        callee.append("'");
                        self.report(CompilerError::ArgumentCountMismatch { callee, expected, actual, span });
                    },
                    None => {
                        assert(e3 + Seq::<ErrorView>::empty() =~= e3);
                    },
                }
            },
            None => {
                if self.method_exists_on_type(receiver_type, method.name.as_str(), file)
                    || self.struct_field_is_closure(receiver_type, method.name.as_str(), file) {
                    assert(e0 + Seq::<ErrorView>::empty() =~= e0);
                } else {
                    let mut name = String::from_str("method '");
                    name.append(method.name.as_str());
                    name.append("' on type '");
                    name.append(receiver_type);
                    name.append("'");
                    self.report(CompilerError::UndefinedReference { name, span });
                }
            },
        }
    }
}

} // verus!

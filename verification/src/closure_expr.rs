//! A closure literal around the walk of its body: what is checked before
//! the body is entered, the scopes the body is walked in, and what ends
//! with the body.

use vstd::prelude::*;
use crate::analyzer::SemanticAnalyzer;
use crate::ast::{expr_span, ClosureParam, Expr, Type};
use crate::closure_params::{closure_param_reports, parameter_type_reports};
use crate::error::{error_views, CompilerError, ErrorView};
use crate::expected::closure_slot_of;
use crate::free_vars::{closure_param_names, closure_params_scope, scope_set, sink_uses};
use crate::outer_frames::local_names;
use crate::sem_type::{display_of, sem_of, view_params, SType, SemType};
use crate::ast::ParamConvention;
use vstd::string::StringExecFns;
use crate::closures::copy_names;
use crate::text::views;
use crate::type_validation::{type_params_in_scope, type_reports};

verus! {

broadcast use vstd::std_specs::vec::group_vec_axioms;

/// What a closure literal reports before its body is walked: its
/// parameters, the types they get, its declared return type, and each
/// use in its body of a binding given away, unless a parameter or a
/// binding of the body shadows it.
pub open spec fn closure_entry_reports(a: SemanticAnalyzer, params: Seq<ClosureParam>, return_type: Option<Type>, body: Expr,
    expected: Option<SType>) -> Seq<ErrorView> {
    closure_param_reports(a.symbols, type_params_in_scope(a), params)
        + parameter_type_reports(params, expected)
        + match return_type {
            Some(t) => type_reports(a.symbols, type_params_in_scope(a), t, expr_span(body)),
            None => Seq::<ErrorView>::empty(),
        }
        + sink_uses(body, closure_param_names(params).to_set(), views(a.consumed_bindings@))
}

/// What the analysis of a closure literal's body says of it, for the
/// checks that follow the body: the body's type with the parameters typed
/// from the closure the position expects, and whether it satisfies that
/// closure's return type; whether the slot types, the declared parameter
/// types, the expected return type and the body type hold a type
/// parameter that nothing binds here; and, when the literal declares a
/// return type, the body's type with the declared parameter types in
/// scope and whether it is compatible with the declared return type.
pub struct ClosureBodyFacts {
    pub body_type: SemType,
    pub body_fits: bool,
    pub body_unbound: bool,
    pub return_unbound: bool,
    pub slot_unbound: Vec<bool>,
    pub declared_unbound: Vec<bool>,
    pub declared_body_type: SemType,
    pub declared_return_fits: bool,
}

/// A type that is known here: not left to inference, and holding no type
/// parameter that nothing binds.
pub open spec fn known(t: SType, unbound: bool) -> bool {
    !(t is Unknown || t is InferredEnum) && !unbound
}

/// A parameter of the literal disagrees with the slot the expected
/// closure has for it: another convention, or another declared type where
/// both types are known.
pub open spec fn param_against_slot_wrong(p: ClosureParam, slot: (ParamConvention, SType), slot_unbound: bool, declared_unbound: bool) -> bool {
    p.convention != slot.0 || (p.ty matches Some(ty) && known(slot.1, slot_unbound) && known(sem_of(ty), declared_unbound) && sem_of(ty) != slot.1)
}

/// The parameters of the literal as a closure type: each convention, and
/// each declared type or else the slot's.
pub open spec fn found_params(params: Seq<ClosureParam>, slots: Seq<(ParamConvention, SType)>) -> Seq<(ParamConvention, SType)> {
    Seq::new(params.len(), |i: int| (params[i].convention, match params[i].ty {
        Some(t) => sem_of(t),
        None => slots[i].1,
    }))
}

/// What a closure literal reports against the closure `slot` its position
/// expects: a parameter that disagrees with its slot, or, when the literal
/// declares no return type, a body whose known type is not the expected
/// return type and does not satisfy it. One `TypeMismatch` at `span` then
/// shows the expected closure type against the literal's.
pub open spec fn slot_reports(params: Seq<ClosureParam>, declares_return: bool, slot: SType, f: ClosureBodyFacts, span: crate::ast::Span) -> Seq<ErrorView> {
    match slot {
        SType::Closure { params: slots, return_ty } => if slots.len() == params.len() {
            let param_wrong = exists|i: int| 0 <= i < params.len()
                && #[trigger] param_against_slot_wrong(params[i], slots[i], f.slot_unbound@[i], f.declared_unbound@[i]);
            let body_wrong = !declares_return && known(*return_ty, f.return_unbound) && known(f.body_type@, f.body_unbound)
                && f.body_type@ != *return_ty && !f.body_fits;
            if param_wrong || body_wrong {
                seq![ErrorView::TypeMismatch {
                    expected: display_of(slot),
                    found: display_of(SType::Closure { params: found_params(params, slots), return_ty: Box::new(f.body_type@) }),
                    span,
                }]
            } else {
                Seq::<ErrorView>::empty()
            }
        } else {
            Seq::<ErrorView>::empty()
        },
        _ => Seq::<ErrorView>::empty(),
    }
}

/// What a closure literal reports once its body has been walked: against
/// the closure its position expects, and a body not compatible with the
/// return type it declares.
pub open spec fn closure_exit_reports(params: Seq<ClosureParam>, return_type: Option<Type>, body: Expr, expected: Option<SType>,
    f: ClosureBodyFacts) -> Seq<ErrorView> {
    (match expected {
        Some(t) => slot_reports(params, return_type is Some, closure_slot_of(t), f, expr_span(body)),
        None => Seq::<ErrorView>::empty(),
    }) + match return_type {
        Some(d) => if f.declared_return_fits {
            Seq::<ErrorView>::empty()
        } else {
            seq![ErrorView::FunctionReturnTypeMismatch {
                function: "<closure>"@,
                expected: display_of(sem_of(d)),
                actual: display_of(f.declared_body_type@),
                span: expr_span(body),
            }]
        },
        None => Seq::<ErrorView>::empty(),
    }
}

pub proof fn lemma_param_scope(scope: Seq<String>, params: Seq<ClosureParam>)
    requires
        views(scope) == closure_param_names(params),
    ensures
        scope_set(scope, Seq::<Vec<String>>::empty()) == closure_param_names(params).to_set(),
{
    assert(scope_set(scope, Seq::<Vec<String>>::empty()) =~= closure_param_names(params).to_set());
}

impl SemanticAnalyzer {
    /// Check a closure literal up to its body and open the scopes its body
    /// is walked in: a closure frame over the bindings in scope here, the
    /// parameters as closure parameters, and the parameters as an
    /// inference frame. Return the type the body is expected to have: the
    /// declared return type, or that of the closure the position expects.
    pub fn enter_closure_expr(&mut self, params: &Vec<ClosureParam>, return_type: Option<&Type>, body: &Expr,
        expected: Option<&SemType>) -> (body_expected: Option<SemType>)
        ensures
            error_views(final(self).errors@) == error_views(old(self).errors@) + closure_entry_reports(*old(self), params@,
                match return_type {
                    Some(t) => Some(*t),
                    None => None,
                }, *body, match expected {
                    Some(t) => Some(t@),
                    None => None,
                }),
            match return_type {
                Some(declared) => body_expected matches Some(x) && x@ == sem_of(*declared),
                None => match expected {
                    Some(t) => match closure_slot_of(t@) {
                        SType::Closure { return_ty, .. } => body_expected matches Some(x) && x@ == *return_ty,
                        SType::Unknown => body_expected matches Some(x) && x@ is Unknown,
                        _ => body_expected is None,
                    },
                    None => body_expected is None,
                },
            },
            final(self).outer_frames@.len() == old(self).outer_frames@.len() + 1,
            final(self).outer_frames@.drop_last() == old(self).outer_frames@,
            final(self).outer_frames@.last().closure,
            views(final(self).outer_frames@.last().names@).to_set() == local_names(*old(self)),
            final(self).closure_param_scopes@.len() == old(self).closure_param_scopes@.len() + 1,
            final(self).closure_param_scopes@.drop_last() == old(self).closure_param_scopes@,
            views(final(self).closure_param_scopes@.last()@) == closure_param_names(params@),
            final(self).inference_scopes@.len() == old(self).inference_scopes@.len() + 1,
            final(self).inference_scopes@.drop_last() == old(self).inference_scopes@,
            views(final(self).inference_scopes@.last()@) == closure_param_names(params@),
            final(self).same_state((SemanticAnalyzer {
                outer_frames: final(self).outer_frames,
                closure_param_scopes: final(self).closure_param_scopes,
                inference_scopes: final(self).inference_scopes,
                ..*old(self)
            })),
    {
        let ghost s0 = *self;
        let ghost e0 = error_views(self.errors@);
        self.check_closure_params(params);
        self.check_closure_parameter_types(params, expected);
        let body_expected = Self::closure_body_expected(return_type, expected);
        let ghost e1 = error_views(self.errors@);
        match return_type {
            Some(ty) => self.validate_type(ty, body.span()),
            None => {
                assert(error_views(self.errors@) =~= e1 + Seq::<ErrorView>::empty());
            },
        }
        let scope = closure_params_scope(params);
        let mut inner_scopes: Vec<Vec<String>> = Vec::new();
        proof {
            lemma_param_scope(scope@, params@);
        }
        Self::check_captures_rec(body, &scope, &self.consumed_bindings, &mut self.errors, &mut inner_scopes);
        let ghost s1 = *self;
        self.push_outer_frame(true);
        let ghost cps = self.closure_param_scopes@;
        let frame = copy_names(&scope);
        self.closure_param_scopes.push(scope);
        assert(self.closure_param_scopes@.drop_last() =~= cps);
        let ghost ifs = self.inference_scopes@;
        self.inference_scopes.push(frame);
        assert(self.inference_scopes@.drop_last() =~= ifs);
        body_expected
    }

    /// Close the scopes that [`Self::enter_closure_expr`] opened, once the
    /// body has been walked, and check the literal against the closure its
    /// position expects and against the return type it declares.
    pub fn leave_closure_expr(&mut self, params: &Vec<ClosureParam>, return_type: Option<&Type>, body: &Expr,
        expected: Option<&SemType>, facts: &ClosureBodyFacts)
        requires
            facts.slot_unbound@.len() == params@.len(),
            facts.declared_unbound@.len() == params@.len(),
        ensures
            final(self).outer_frames@ == if old(self).outer_frames@.len() > 0 {
                old(self).outer_frames@.drop_last()
            } else {
                old(self).outer_frames@
            },
            final(self).closure_param_scopes@ == if old(self).closure_param_scopes@.len() > 0 {
                old(self).closure_param_scopes@.drop_last()
            } else {
                old(self).closure_param_scopes@
            },
            final(self).inference_scopes@ == if old(self).inference_scopes@.len() > 0 {
                old(self).inference_scopes@.drop_last()
            } else {
                old(self).inference_scopes@
            },
            error_views(final(self).errors@) == error_views(old(self).errors@) + closure_exit_reports(params@,
                match return_type {
                    Some(t) => Some(*t),
                    None => None,
                }, *body, match expected {
                    Some(t) => Some(t@),
                    None => None,
                }, *facts),
            final(self).same_state((SemanticAnalyzer {
                outer_frames: final(self).outer_frames,
                closure_param_scopes: final(self).closure_param_scopes,
                inference_scopes: final(self).inference_scopes,
                ..*old(self)
            })),
    {
        let ghost ifs = self.inference_scopes@;
        let _ = self.inference_scopes.pop();
        assert(ifs.len() > 0 ==> self.inference_scopes@ =~= ifs.drop_last());
        let ghost cps = self.closure_param_scopes@;
        let _ = self.closure_param_scopes.pop();
        assert(cps.len() > 0 ==> self.closure_param_scopes@ =~= cps.drop_last());
        self.pop_outer_frame();
        let ghost e0 = error_views(self.errors@);
        match expected {
            Some(t) => {
                let slot = Self::closure_slot(t);
                self.check_closure_against_slot(params, return_type.is_some(), slot, facts, body.span());
            },
            None => {
                assert(error_views(self.errors@) =~= e0 + Seq::<ErrorView>::empty());
            },
        }
        let ghost e1 = error_views(self.errors@);
        match return_type {
            Some(d) => {
                if !facts.declared_return_fits {
                    self.report(CompilerError::FunctionReturnTypeMismatch {
                        function: String::from_str("<closure>"),
                        expected: SemType::from_ast(d).display(),
                        actual: facts.declared_body_type.display(),
                        span: body.span(),
                    });
                } else {
                    assert(error_views(self.errors@) =~= e1 + Seq::<ErrorView>::empty());
                }
            },
            None => {
                assert(error_views(self.errors@) =~= e1 + Seq::<ErrorView>::empty());
            },
        }
    }

    /// Check a closure literal against the closure type `slot` that its
    /// position expects, once its body's type is known.
    pub fn check_closure_against_slot(&mut self, params: &Vec<ClosureParam>, declares_return: bool, slot: &SemType,
        facts: &ClosureBodyFacts, span: crate::ast::Span)
        requires
            facts.slot_unbound@.len() == params@.len(),
            facts.declared_unbound@.len() == params@.len(),
        ensures
            final(self).same_state(*old(self)),
            error_views(final(self).errors@) == error_views(old(self).errors@) + slot_reports(params@, declares_return, slot@, *facts, span),
    {
        let ghost e0 = error_views(self.errors@);
        let (slots, return_ty) = match slot {
            SemType::Closure { params: slots, return_ty } => (slots, return_ty),
            _ => {
                assert(error_views(self.errors@) =~= e0 + Seq::<ErrorView>::empty());
                return;
            },
        };
        let ghost sv = view_params(slots@);
        proof {
            crate::sem_type::lemma_view_params_len(slots@);
        }
        if slots.len() != params.len() {
            assert(error_views(self.errors@) =~= e0 + Seq::<ErrorView>::empty());
            return;
        }
        let mut param_wrong = false;
        let mut found: Vec<(ParamConvention, SemType)> = Vec::new();
        let mut i: usize = 0;
        while i < params.len()
            invariant
                i <= params@.len() == slots@.len() == sv.len(),
                sv == view_params(slots@),
                facts.slot_unbound@.len() == params@.len(),
                facts.declared_unbound@.len() == params@.len(),
                param_wrong == exists|j: int| 0 <= j < i
                    && #[trigger] param_against_slot_wrong(params@[j], sv[j], facts.slot_unbound@[j], facts.declared_unbound@[j]),
                view_params(found@) == found_params(params@, sv).take(i as int),
            decreases params.len() - i,
        {
            proof {
                crate::sem_type::lemma_view_params_index(slots@, i as int);
            }
            let p = &params[i];
            let slot_ty = &slots[i].1;
            let wrong_here = if p.convention != slots[i].0 {
                true
            } else {
                match &p.ty {
                    Some(ty) => {
                        let declared = SemType::from_ast(ty);
                        !slot_ty.is_indeterminate() && !facts.slot_unbound[i] && !declared.is_indeterminate() && !facts.declared_unbound[i]
                            && !declared.same_as(slot_ty)
                    },
                    None => false,
                }
            };
            assert(wrong_here == param_against_slot_wrong(params@[i as int], sv[i as int], facts.slot_unbound@[i as int], facts.declared_unbound@[i as int]));
            param_wrong = param_wrong || wrong_here;
            let item_ty = match &p.ty {
                Some(ty) => SemType::from_ast(ty),
                None => slot_ty.duplicate(),
            };
            let ghost before = found@;
            found.push((p.convention, item_ty));
            proof {
                assert(found@.drop_last() =~= before);
                assert(found_params(params@, sv).take(i + 1) =~= found_params(params@, sv).take(i as int).push(found_params(params@, sv)[i as int]));
            }
            i += 1;
        }
        assert(found_params(params@, sv).take(i as int) =~= found_params(params@, sv));
        let body_wrong = !declares_return && !return_ty.is_indeterminate() && !facts.return_unbound
            && !facts.body_type.is_indeterminate() && !facts.body_unbound && !facts.body_type.same_as(return_ty) && !facts.body_fits;
        if param_wrong || body_wrong {
            let found_ty = SemType::Closure { params: found, return_ty: Box::new(facts.body_type.duplicate()) };
            self.report(CompilerError::TypeMismatch { expected: slot.display(), found: found_ty.display(), span });
        } else {
            assert(error_views(self.errors@) =~= e0 + Seq::<ErrorView>::empty());
        }
    }
}

} // verus!

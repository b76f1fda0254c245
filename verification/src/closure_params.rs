//! The parameters of a closure literal.
//!
//! Each parameter name appears once. A parameter with no type takes its
//! type from the expected closure type; when the position gives no closure
//! type with the same number of parameters, the parameter needs a type.
//! An expected type that a declared type gives but this pass cannot
//! compute reports nothing: another check reports the real mistake.

use vstd::prelude::*;
use vstd::string::StringExecFns;
use crate::analyzer::SemanticAnalyzer;
use crate::ast::ClosureParam;
use crate::error::{error_views, CompilerError, ErrorView};
use crate::expected::closure_slot_of;
use crate::sem_type::{display_of, SType, SemType};
use crate::text::{lemma_views_push, list_contains, views};
use crate::type_validation::{type_params_in_scope, type_reports};

verus! {

broadcast use vstd::std_specs::vec::group_vec_axioms;

/// `_, _, _` for `n` parameters.
pub open spec fn blanks(n: nat) -> Seq<char>
    decreases n,
{
    if n == 0 { seq![] } else if n == 1 { "_"@ } else { blanks((n - 1) as nat) + ", _"@ }
}

/// Every parameter declares its type.
pub open spec fn all_typed(params: Seq<ClosureParam>) -> bool {
    forall|i: int| 0 <= i < params.len() ==> (#[trigger] params[i]).ty is Some
}

/// A `ClosureParameterNeedsType` for each parameter with no type.
pub open spec fn untyped_reports(params: Seq<ClosureParam>) -> Seq<ErrorView>
    decreases params.len(),
{
    if params.len() == 0 {
        seq![]
    } else {
        untyped_reports(params.drop_last()) + if params.last().ty is None {
            seq![ErrorView::ClosureParameterNeedsType { param: params.last().name.name@, span: params.last().name.span }]
        } else {
            Seq::<ErrorView>::empty()
        }
    }
}

/// What the parameter types of a closure literal report against the
/// expected type `expected`.
pub open spec fn parameter_type_reports(params: Seq<ClosureParam>, expected: Option<SType>) -> Seq<ErrorView> {
    if all_typed(params) {
        seq![]
    } else {
        match expected {
            Some(e) => {
                let slot = closure_slot_of(e);
                if slot is Unknown {
                    seq![]
                } else if slot is Closure {
                    if slot->params.len() == params.len() {
                        seq![]
                    } else {
                        seq![ErrorView::TypeMismatch {
                            expected: display_of(slot),
                            found: "("@ + blanks(params.len()) + ") -> _"@,
                            span: params[0].span,
                        }]
                    }
                } else {
                    untyped_reports(params)
                }
            },
            None => untyped_reports(params),
        }
    }
}

/// The names of closure parameters.
pub open spec fn closure_param_names(params: Seq<ClosureParam>) -> Seq<Seq<char>> {
    params.map_values(|p: ClosureParam| p.name.name@)
}

/// What the parameters of a closure literal report of themselves: the
/// type each declares, and each name an earlier parameter has.
pub open spec fn closure_param_reports(st: crate::symbols::SymbolTable, scope: Set<Seq<char>>, params: Seq<ClosureParam>) -> Seq<ErrorView>
    decreases params.len(),
{
    if params.len() == 0 {
        seq![]
    } else {
        let p = params.last();
        closure_param_reports(st, scope, params.drop_last()) + (match p.ty {
            Some(t) => type_reports(st, scope, t, p.span),
            None => Seq::<ErrorView>::empty(),
        }) + if closure_param_names(params.drop_last()).contains(p.name.name@) {
            seq![ErrorView::DuplicateDefinition { name: "closure parameter '"@ + p.name.name@ + "'"@, span: p.name.span }]
        } else {
            Seq::<ErrorView>::empty()
        }
    }
}

/// `_, _, _` for `n` parameters.
fn blanks_string(n: usize) -> (r: String)
    ensures
        r@ == blanks(n as nat),
{
    let mut r = String::new();
    let mut i: usize = 0;
    while i < n
        invariant
            i <= n,
            r@ == blanks(i as nat),
        decreases n - i,
    {
        if i == 0 {
            r.append("_");
        } else {
            r.append(", _");
        }
        i += 1;
    }
    r
}

impl SemanticAnalyzer {
    /// Report each parameter of a closure literal that has no type and
    /// gets none from `expected`; report a closure whose number of
    /// parameters differs from the expected closure's as a type mismatch.
    pub fn check_closure_parameter_types(&mut self, params: &Vec<ClosureParam>, expected: Option<&SemType>)
        ensures
            final(self).same_state(*old(self)),
            error_views(final(self).errors@) == error_views(old(self).errors@) + parameter_type_reports(params@, match expected {
                Some(t) => Some(t@),
                None => None,
            }),
    {
        let mut typed = true;
        let mut i: usize = 0;
        while i < params.len()
            invariant
                i <= params@.len(),
                typed == forall|j: int| 0 <= j < i ==> (#[trigger] params@[j]).ty is Some,
            decreases params.len() - i,
        {
            if params[i].ty.is_none() {
                typed = false;
            }
            i += 1;
        }
        if typed {
            assert(error_views(self.errors@) =~= error_views(self.errors@) + Seq::<ErrorView>::empty());
            return;
        }
        if let Some(e) = expected {
            let slot = Self::closure_slot(e);
            match slot {
                SemType::Unknown => {
                    assert(error_views(self.errors@) =~= error_views(self.errors@) + Seq::<ErrorView>::empty());
                    return;
                },
                SemType::Closure { params: slots, .. } => {
                    proof { crate::sem_type::lemma_view_params_len(slots@); }
                    if slots.len() == params.len() {
                        assert(error_views(self.errors@) =~= error_views(self.errors@) + Seq::<ErrorView>::empty());
                        return;
                    }
                    let mut found = String::from_str("(");
                    found.append(blanks_string(params.len()).as_str());
                    found.append(") -> _");
                    let expected_text = slot.display();
                    self.report(CompilerError::TypeMismatch { expected: expected_text, found, span: params[0].span });
                    return;
                },
                _ => {},
            }
        }
        let ghost e0 = error_views(self.errors@);
        let ghost s0 = *self;
        let mut k: usize = 0;
        while k < params.len()
            invariant
                k <= params@.len(),
                self.same_state(s0),
                error_views(self.errors@) == e0 + untyped_reports(params@.take(k as int)),
            decreases params.len() - k,
        {
            proof {
                assert(params@.take(k + 1).drop_last() =~= params@.take(k as int));
                assert(params@.take(k + 1).last() == params@[k as int]);
            }
            if params[k].ty.is_none() {
                self.report(CompilerError::ClosureParameterNeedsType { param: params[k].name.name.clone(), span: params[k].name.span });
            } else {
                assert(error_views(self.errors@) =~= error_views(self.errors@) + Seq::<ErrorView>::empty());
            }
            k += 1;
        }
        assert(params@.take(k as int) =~= params@);
    }

    /// Check the parameters of a closure literal: the type each declares
    /// is a valid type, and no name appears twice.
    pub fn check_closure_params(&mut self, params: &Vec<ClosureParam>)
        ensures
            final(self).same_state(*old(self)),
            error_views(final(self).errors@) == error_views(old(self).errors@)
                + closure_param_reports(old(self).symbols, type_params_in_scope(*old(self)), params@),
    {
        let ghost e0 = error_views(self.errors@);
        let ghost s0 = *self;
        let mut names: Vec<String> = Vec::new();
        let mut k: usize = 0;
        while k < params.len()
            invariant
                k <= params@.len(),
                self.same_state(s0),
                views(names@) == closure_param_names(params@.take(k as int)),
                error_views(self.errors@) == e0 + closure_param_reports(s0.symbols, type_params_in_scope(s0), params@.take(k as int)),
            decreases params.len() - k,
        {
            proof {
                assert(params@.take(k + 1).drop_last() =~= params@.take(k as int));
                assert(params@.take(k + 1).last() == params@[k as int]);
            }
            let param = &params[k];
            match &param.ty {
                Some(ty) => self.validate_type(ty, param.span),
                None => {
                    assert(error_views(self.errors@) =~= error_views(self.errors@) + Seq::<ErrorView>::empty());
                },
            }
            if list_contains(&names, param.name.name.as_str()) {
                let mut message = String::from_str("closure parameter '");
                message.append(param.name.name.as_str());
                message.append("'");
                self.report(CompilerError::DuplicateDefinition { name: message, span: param.name.span });
            } else {
                assert(error_views(self.errors@) =~= error_views(self.errors@) + Seq::<ErrorView>::empty());
            }
            let ghost nb = names@;
            let copy = param.name.name.clone();
            names.push(copy);
            proof {
                lemma_views_push(nb, copy);
                assert(closure_param_names(params@.take(k + 1)) =~= closure_param_names(params@.take(k as int)).push(param.name.name@));
            }
            k += 1;
        }
        assert(params@.take(k as int) =~= params@);
    }
}

} // verus!

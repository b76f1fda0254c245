//! The trait bounds of a generic parameter, checked against the type
//! that an argument gives it: `total(item: Plain(n: 1))` against
//! `fn total<T: Shape>(item: T)` needs `impl Shape for Plain`.

use vstd::prelude::*;
use vstd::string::StringExecFns;
use crate::analyzer::{find_names, lookup_names, SemanticAnalyzer};
use crate::ast::{Expr, GenericConstraint, GenericParam, Span, expr_span};
use crate::error::{error_views, CompilerError, ErrorView};
use crate::sem_type::{display_of, primitive_name, primitive_text, SType, SemType};
use crate::text::{list_contains, str_equals, views};

verus! {

broadcast use vstd::std_specs::vec::group_vec_axioms;

/// The type called `ty` implements the trait `tr`: the program holds
/// `impl tr for ty`, or `ty` is a generic parameter in scope whose
/// bounds list `tr`.
pub open spec fn implements(a: SemanticAnalyzer, ty: Seq<char>, tr: Seq<char>) -> bool {
    ||| exists|i: int| 0 <= i < a.symbols.trait_impls@.len()
        && (#[trigger] a.symbols.trait_impls@[i]).0@ == ty && a.symbols.trait_impls@[i].1@ == tr
    ||| (lookup_names(a.type_param_bounds@, ty) matches Some(bounds) && bounds.contains(tr))
}

/// A value of type `t` satisfies the bound `tr`. A type this pass could
/// not pin down satisfies every bound; a compound shape satisfies none.
pub open spec fn satisfies_bound(a: SemanticAnalyzer, t: SType, tr: Seq<char>) -> bool {
    match t {
        SType::Named(n) => implements(a, n, tr),
        SType::Generic { base, .. } => implements(a, base, tr),
        SType::Primitive(p) => implements(a, primitive_name(p), tr),
        SType::Unknown | SType::InferredEnum | SType::Nil => true,
        _ => false,
    }
}

/// The name of the trait a constraint bounds by.
pub open spec fn constraint_trait(c: GenericConstraint) -> Seq<char> {
    match c {
        GenericConstraint::Trait { name, .. } => name.name@,
    }
}

/// One diagnostic for each bound of `cs` that a value of type `t` does
/// not satisfy, in the order the bounds are written.
pub open spec fn bound_reports(a: SemanticAnalyzer, cs: Seq<GenericConstraint>, t: SType, span: Span) -> Seq<ErrorView>
    decreases cs.len(),
{
    if cs.len() == 0 {
        seq![]
    } else {
        let tr = constraint_trait(cs.last());
        bound_reports(a, cs.drop_last(), t, span) + if satisfies_bound(a, t, tr) {
            Seq::<ErrorView>::empty()
        } else {
            seq![ErrorView::GenericConstraintViolation { arg: display_of(t), constraint: tr, span }]
        }
    }
}

impl SemanticAnalyzer {
    /// Whether the type called `name` implements the trait `trait_name`.
    pub fn implements_trait(&self, name: &str, trait_name: &str) -> (r: bool)
        ensures
            r == implements(*self, name@, trait_name@),
    {
        let pairs = &self.symbols.trait_impls;
        let mut i: usize = 0;
        while i < pairs.len()
            invariant
                i <= pairs@.len(),
                pairs@ == self.symbols.trait_impls@,
                forall|j: int| 0 <= j < i ==> !((#[trigger] pairs@[j]).0@ == name@ && pairs@[j].1@ == trait_name@),
            decreases pairs.len() - i,
        {
            if str_equals(pairs[i].0.as_str(), name) && str_equals(pairs[i].1.as_str(), trait_name) {
                return true;
            }
            i += 1;
        }
        match find_names(&self.type_param_bounds, name) {
            Some(bounds) => {
                let found = list_contains(bounds, trait_name);
                proof {
                    if views(bounds@).contains(trait_name@) {
                        let k = choose|k: int| 0 <= k < views(bounds@).len() && views(bounds@)[k] == trait_name@;
                        assert(bounds@[k]@ == trait_name@);
                    }
                    if found {
                        let k = choose|k: int| 0 <= k < bounds@.len() && (#[trigger] bounds@[k])@ == trait_name@;
                        assert(views(bounds@)[k] == trait_name@);
                    }
                }
                found
            },
            None => false,
        }
    }

    /// Whether a value of the inferred type `ty` satisfies the bound
    /// `trait_name`.
    pub fn sem_type_satisfies_trait(&self, ty: &SemType, trait_name: &str) -> (r: bool)
        ensures
            r == satisfies_bound(*self, ty@, trait_name@),
    {
        match ty {
            SemType::Named(name) => self.implements_trait(name.as_str(), trait_name),
            SemType::Generic { base, .. } => self.implements_trait(base.as_str(), trait_name),
            SemType::Primitive(p) => self.implements_trait(primitive_text(*p), trait_name),
            SemType::Unknown | SemType::InferredEnum | SemType::Nil => true,
            _ => false,
        }
    }

    /// Check the argument `arg`, whose type is `inferred`, against the
    /// trait bounds of the generic parameter it fixes. An argument whose
    /// type is not known here is left alone.
    pub fn check_generic_bounds(&mut self, generic: &GenericParam, arg: &Expr, inferred: &SemType)
        ensures
            final(self).same_state(*old(self)),
            error_views(final(self).errors@) == error_views(old(self).errors@) + if inferred@ is Unknown || inferred@ is InferredEnum {
                Seq::<ErrorView>::empty()
            } else {
                bound_reports(*old(self), generic.constraints@, inferred@, expr_span(*arg))
            },
    {
        let ghost a0 = *self;
        let ghost e0 = error_views(self.errors@);
        if generic.constraints.len() == 0 || inferred.is_indeterminate() {
            assert(e0 + Seq::<ErrorView>::empty() =~= e0);
            return;
        }
        let span = arg.span();
        let cs = &generic.constraints;
        let mut i: usize = 0;
        while i < cs.len()
            invariant
                i <= cs@.len(),
                self.same_state(a0),
                error_views(self.errors@) == e0 + bound_reports(a0, cs@.take(i as int), inferred@, span),
            decreases cs.len() - i,
        {
            proof {
                assert(cs@.take(i + 1).drop_last() =~= cs@.take(i as int));
                assert(cs@.take(i + 1).last() == cs@[i as int]);
            }
            let GenericConstraint::Trait { name, .. } = &cs[i];
            if !self.sem_type_satisfies_trait(inferred, name.name.as_str()) {
                self.report(CompilerError::GenericConstraintViolation {
                    arg: inferred.display(),
                    constraint: name.name.clone(),
                    span,
                });
                assert(error_views(self.errors@) =~= e0 + bound_reports(a0, cs@.take(i + 1), inferred@, span));
            } else {
                assert(error_views(self.errors@) =~= e0 + bound_reports(a0, cs@.take(i + 1), inferred@, span));
            }
            i += 1;
        }
        assert(cs@.take(i as int) =~= cs@);
    }
}

} // verus!

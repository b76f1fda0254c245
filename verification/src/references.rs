//! References by path: a single name, `self` and `self.field` inside an
//! impl, and chains of field accesses such as `p.x.y`, walked from the
//! type of the root binding.

use vstd::prelude::*;
use vstd::string::StringExecFns;
use crate::analyzer::{find_let_type, let_binding_type, SemanticAnalyzer};
use crate::ast::{Ident, Span};
use crate::control_flow::{find_payload_field, payload_field};
use crate::duplicate_names::field_names;
use crate::error::{error_views, CompilerError, ErrorView};
use crate::expected::tuple_field_type;
use crate::expr_checks::field_owner;
use crate::modules::visibility_report;
use crate::mut_args::value_in_scope;
use crate::patterns::ident_names;
use crate::sem_type::{display_of, sem_of, SType, SemType};
use crate::symbols::{let_named, struct_named, SymbolTable};
use crate::text::{list_contains, str_equals, views};

verus! {

broadcast use vstd::std_specs::vec::group_vec_axioms;

/// The type under an optional, or the type itself.
pub open spec fn under_optional(t: SType) -> SType {
    match t {
        SType::Optional(inner) => *inner,
        _ => t,
    }
}

/// What walking the field names `rest` from a value of type `cur`
/// reports: an `UnknownField` at the first name that is not a field of the
/// type reached so far (a primitive, a closure and `nil` have none; an
/// enum value names its enum), and nothing where the type's fields are not
/// known here. One optional is looked through at each step.
pub open spec fn chain_reports(st: SymbolTable, cur: SType, rest: Seq<Ident>, span: Span) -> Seq<ErrorView>
    decreases rest.len(),
{
    if rest.len() == 0 {
        seq![]
    } else {
        let c = under_optional(cur);
        let seg = rest[0].name@;
        let unknown = seq![ErrorView::UnknownField { field: seg, named_type: display_of(c), span }];
        match c {
            SType::Tuple(fields) => match tuple_field_type(fields, seg) {
                Some(t) => chain_reports(st, t, rest.drop_first(), span),
                None => unknown,
            },
            SType::Primitive(_) => unknown,
            SType::Closure { .. } => unknown,
            SType::Nil => unknown,
            _ => match struct_named(st.structs@, field_owner(c)) {
                Some(info) => match payload_field(info.fields@, seg) {
                    Some(f) => chain_reports(st, sem_of(f.ty), rest.drop_first(), span),
                    None => unknown,
                },
                None => if st.has_enum(field_owner(c)) {
                    seq![ErrorView::UnknownField { field: seg, named_type: field_owner(c), span }]
                } else {
                    seq![]
                },
            },
        }
    }
}

/// The type of the binding `name` that a field chain starts from: a
/// module-level `let` first, then a local one.
pub open spec fn root_type(a: SemanticAnalyzer, name: Seq<char>) -> Option<SType> {
    match let_named(a.symbols.lets@, name) {
        Some(l) => Some(l.ty@),
        None => let_binding_type(a.local_let_bindings@, name),
    }
}

/// What `self` or `self.field` reports: `self` outside an impl is
/// undefined, and so is a field that the impl's struct does not declare.
pub open spec fn self_reports(a: SemanticAnalyzer, path: Seq<Ident>, span: Span) -> Seq<ErrorView> {
    match a.current_impl_struct {
        None => seq![ErrorView::UndefinedReference { name: "self"@, span }],
        Some(s) => if path.len() == 2 {
            match struct_named(a.symbols.structs@, s@) {
                Some(info) => if field_names(info.fields@).contains(path[1].name@) {
                    seq![]
                } else {
                    seq![ErrorView::UndefinedReference { name: "self."@ + path[1].name@, span }]
                },
                None => seq![],
            }
        } else {
            seq![]
        },
    }
}

/// What a reference to `path` at `span` reports: a use of a binding given
/// away, a private item reached through modules, `self` out of place, a
/// single name that names nothing in scope, a field chain that breaks, or
/// the root of a chain that is not in scope.
pub open spec fn reference_reports(a: SemanticAnalyzer, path: Seq<Ident>, span: Span) -> Seq<ErrorView> {
    if path.len() > 0 && views(a.consumed_bindings@).contains(path[0].name@) {
        seq![ErrorView::UseAfterSink { name: path[0].name@, span }]
    } else {
        match visibility_report(a.symbols, ident_names(path)) {
            Some(n) => seq![ErrorView::VisibilityViolation { name: n, span }],
            None => if path.len() == 0 {
                seq![]
            } else if path[0].name@ == "self"@ {
                self_reports(a, path, span)
            } else if path.len() == 1 {
                if value_in_scope(a, path[0].name@) {
                    seq![]
                } else {
                    seq![ErrorView::UndefinedReference { name: path[0].name@, span }]
                }
            } else {
                match root_type(a, path[0].name@) {
                    Some(t) => chain_reports(a.symbols, t, path.drop_first(), span),
                    None => if value_in_scope(a, path[0].name@) {
                        seq![]
                    } else {
                        seq![ErrorView::UndefinedReference { name: path[0].name@, span: path[0].span }]
                    },
                }
            },
        }
    }
}

/// True when some field of `fields` is called `name`.
fn declares_field(fields: &Vec<crate::ast::FieldDef>, name: &str) -> (r: bool)
    ensures
        r == field_names(fields@).contains(name@),
{
    let mut i: usize = 0;
    while i < fields.len()
        invariant
            i <= fields@.len(),
            forall|j: int| 0 <= j < i ==> fields@[j].name.name@ != name@,
        decreases fields.len() - i,
    {
        if str_equals(fields[i].name.name.as_str(), name) {
            assert(field_names(fields@)[i as int] == name@);
            return true;
        }
        i += 1;
    }
    assert forall|j: int| 0 <= j < field_names(fields@).len() implies field_names(fields@)[j] != name@ by {
        assert(fields@[j].name.name@ != name@);
    }
    false
}

impl SemanticAnalyzer {
    /// Walk the field names `rest` from a value of type `root_type` and
    /// report an `UnknownField` at the first one that does not name a
    /// field of the type reached. A type whose fields are not known here
    /// ends the walk without a report.
    pub fn validate_field_chain(&mut self, root_type: &SemType, rest: &[Ident], span: Span)
        ensures
            final(self).same_state(*old(self)),
            error_views(final(self).errors@) == error_views(old(self).errors@)
                + chain_reports(old(self).symbols, root_type@, rest@, span),
    {
        let ghost s0 = *self;
        let ghost e0 = error_views(self.errors@);
        let ghost st = self.symbols;
        let mut current = root_type.duplicate();
        let mut k: usize = 0;
        assert(rest@.skip(0) =~= rest@);
        while k < rest.len()
            invariant
                k <= rest@.len(),
                *self == s0,
                st == s0.symbols,
                e0 == error_views(s0.errors@),
                chain_reports(st, root_type@, rest@, span) == chain_reports(st, current@, rest@.skip(k as int), span),
            decreases rest.len() - k,
        {
            let ghost tail = rest@.skip(k as int);
            assert(tail[0] == rest@[k as int]);
            assert(tail.drop_first() =~= rest@.skip(k + 1));
            let seg = &rest[k];
            let c = match current {
                SemType::Optional(inner) => *inner,
                other => other,
            };
            assert(c@ == under_optional(current@));
            let next: Option<SemType> = match &c {
                SemType::Tuple(_) => Self::expected_tuple_field(Some(&c), seg.name.as_str()),
                SemType::Primitive(_) => None,
                SemType::Closure { .. } => None,
                SemType::Nil => None,
                _ => {
                    let owner = Self::field_owner_name(&c);
                    match self.symbols.get_struct(owner.as_str()) {
                        Some(info) => match find_payload_field(&info.fields, seg.name.as_str()) {
                            Some(f) => Some(SemType::from_ast(&f.ty)),
                            None => None,
                        },
                        None => {
                            if self.symbols.enum_index(owner.as_str()).is_some() {
                                self.report(CompilerError::UnknownField {
                                    field: seg.name.clone(),
                                    named_type: owner,
                                    span,
                                });
                            } else {
                                assert(error_views(self.errors@) =~= e0 + Seq::<ErrorView>::empty());
                            }
                            return;
                        },
                    }
                },
            };
            match next {
                Some(t) => {
                    current = t;
                },
                None => {
                    self.report(CompilerError::UnknownField { field: seg.name.clone(), named_type: c.display(), span });
                    return;
                },
            }
            k += 1;
        }
        assert(error_views(self.errors@) =~= e0 + Seq::<ErrorView>::empty());
    }

    /// Check a reference to `path` at `span`: a binding given away may
    /// not be used again, a path through modules must reach a public item,
    /// `self` needs an impl (and `self.field` a field of its struct), a
    /// single name must name something in scope, and a chain of fields
    /// must follow fields that exist.
    pub fn validate_expr_reference(&mut self, path: &Vec<Ident>, span: Span)
        ensures
            final(self).same_state(*old(self)),
            error_views(final(self).errors@) == error_views(old(self).errors@)
                + reference_reports(*old(self), path@, span),
    {
        let ghost s0 = *self;
        let ghost e0 = error_views(self.errors@);
        if path.len() > 0 && list_contains(&self.consumed_bindings, path[0].name.as_str()) {
            self.report(CompilerError::UseAfterSink { name: path[0].name.clone(), span });
            return;
        }
        if !self.check_module_visibility(path, span) {
            return;
        }
        assert(error_views(self.errors@) =~= e0 + Seq::<ErrorView>::empty());
        if path.len() == 0 {
            return;
        }
        if str_equals(path[0].name.as_str(), "self") {
            match &self.current_impl_struct {
                None => {
                    self.report(CompilerError::UndefinedReference { name: String::from_str("self"), span });
                },
                Some(s) => {
                    if path.len() == 2 {
                        let known = match self.symbols.get_struct(s.as_str()) {
                            Some(info) => Some(declares_field(&info.fields, path[1].name.as_str())),
                            None => None,
                        };
                        match known {
                            Some(false) => {
                                let mut name = String::from_str("self.");
                                name.append(path[1].name.as_str());
                                self.report(CompilerError::UndefinedReference { name, span });
                            },
                            _ => {},
                        }
                    }
                },
            }
            return;
        }
        if path.len() == 1 {
            if !self.names_a_value_in_scope(path[0].name.as_str()) {
                self.report(CompilerError::UndefinedReference { name: path[0].name.clone(), span });
            }
            return;
        }
        let first = &path[0];
        let root = match self.symbols.get_let_type(first.name.as_str()) {
            Some(t) => Some(t.duplicate()),
            None => match find_let_type(&self.local_let_bindings, first.name.as_str()) {
                Some(t) => Some(t.duplicate()),
                None => None,
            },
        };
        match root {
            Some(t) => {
                let rest = vstd::slice::slice_subrange(path.as_slice(), 1, path.len());
                assert(rest@ =~= path@.drop_first());
                self.validate_field_chain(&t, rest, span);
            },
            None => {
                if !self.names_a_value_in_scope(first.name.as_str()) {
                    self.report(CompilerError::UndefinedReference { name: first.name.clone(), span: first.span });
                }
            },
        }
    }
}

} // verus!

//! Checks of single expressions against the types their parts have:
//! operators, `if` conditions, `for` collections, positions used as an
//! index, and destructuring patterns.
//!
//! Each check takes the types of the expressions involved as type
//! inference gives them: [`SType::Unknown`] for what inference cannot
//! compute, which every check leaves alone.

use vstd::prelude::*;
use vstd::string::StringExecFns;
use crate::analyzer::SemanticAnalyzer;
use crate::ast::{expr_span, ArrayPatternElement, BinaryOperator, BindingPattern, Expr, Ident, PrimitiveType, Span, StructPatternField, UnaryOperator};
use crate::duplicate_names::field_names;
use crate::equatable::closure_reachable;
use crate::error::{error_views, CompilerError, ErrorView};
use crate::patterns::{collect_pattern_names, ident_names, pattern_names};
use crate::sem_type::{display_of, SType, SemType};
use crate::symbols::{enum_named, struct_named};
use crate::text::{decimal, decimal_string, lemma_views_push, list_contains, str_equals, views};

verus! {

broadcast use vstd::std_specs::vec::group_vec_axioms;

/// A leading-dot variant, maybe in parentheses.
pub open spec fn dot_variant(e: Expr) -> bool
    decreases e,
{
    match e {
        Expr::Group { expr, .. } => dot_variant(*expr),
        Expr::InferredEnumInstantiation { .. } => true,
        _ => false,
    }
}

/// True when `expr` is a leading-dot variant, maybe in parentheses.
pub fn is_dot_variant(expr: &Expr) -> (r: bool)
    ensures
        r == dot_variant(*expr),
    decreases *expr,
{
    match expr {
        Expr::Group { expr, .. } => is_dot_variant(expr),
        Expr::InferredEnumInstantiation { .. } => true,
        _ => false,
    }
}

/// The leftmost binding of a place: `x` in `x`, `x.a.b` and `(x).a`.
pub open spec fn root_of(e: Expr) -> Option<Seq<char>>
    decreases e,
{
    match e {
        Expr::Reference { path, .. } => if path@.len() > 0 { Some(path@[0].name@) } else { None },
        Expr::FieldAccess { object, .. } => root_of(*object),
        Expr::Group { expr, .. } => root_of(*expr),
        _ => None,
    }
}

/// The name of the enum in a type: `Status`, `Box<T>` or `Status?`.
pub open spec fn enum_name_in(t: SType) -> Option<Seq<char>> {
    let named = match t {
        SType::Optional(inner) => *inner,
        _ => t,
    };
    match named {
        SType::Named(n) => Some(n),
        SType::Generic { base, .. } => Some(base),
        _ => None,
    }
}

/// The name under which the fields of a type are declared.
pub open spec fn field_owner(t: SType) -> Seq<char> {
    match t {
        SType::Array(_) => "Array"@,
        SType::Dictionary { .. } => "Dictionary"@,
        SType::Optional(_) => "Optional"@,
        SType::Generic { base, .. } => base,
        _ => display_of(t),
    }
}

/// A `DuplicateDefinition` for each identifier whose name an earlier one
/// has.
pub open spec fn name_dup_reports(ids: Seq<Ident>) -> Seq<ErrorView>
    decreases ids.len(),
{
    if ids.len() == 0 {
        seq![]
    } else {
        name_dup_reports(ids.drop_last()) + if ident_names(ids.drop_last()).contains(ids.last().name@) {
            seq![ErrorView::DuplicateDefinition { name: ids.last().name@, span: ids.last().span }]
        } else {
            Seq::<ErrorView>::empty()
        }
    }
}

/// The elements of an array pattern that take one position each.
pub open spec fn fixed_count(elements: Seq<ArrayPatternElement>) -> nat
    decreases elements.len(),
{
    if elements.len() == 0 {
        0
    } else {
        fixed_count(elements.drop_last()) + if elements.last() is Rest { 0nat } else { 1nat }
    }
}

/// Names of the prelude's carrier structs, whose fields a pattern does
/// not take apart.
pub open spec fn carrier(n: Seq<char>) -> bool {
    n == "Array"@ || n == "Dictionary"@ || n == "Optional"@ || n == "Range"@ || n == "Seq"@
}

/// An `UnknownField` for each field of a struct pattern that `declared`
/// does not name.
pub open spec fn pattern_field_reports(fields: Seq<StructPatternField>, declared: Seq<Seq<char>>, owner: Seq<char>) -> Seq<ErrorView>
    decreases fields.len(),
{
    if fields.len() == 0 {
        seq![]
    } else {
        pattern_field_reports(fields.drop_last(), declared, owner) + if declared.contains(fields.last().name.name@) {
            Seq::<ErrorView>::empty()
        } else {
            seq![ErrorView::UnknownField { field: fields.last().name.name@, named_type: owner, span: fields.last().name.span }]
        }
    }
}

/// The name of a binary operator as a diagnostic spells it.
pub open spec fn operator_name(op: BinaryOperator) -> Seq<char> {
    match op {
        BinaryOperator::Add => "Add"@,
        BinaryOperator::Sub => "Sub"@,
        BinaryOperator::Mul => "Mul"@,
        BinaryOperator::Div => "Div"@,
        BinaryOperator::Mod => "Mod"@,
        BinaryOperator::Lt => "Lt"@,
        BinaryOperator::Gt => "Gt"@,
        BinaryOperator::Le => "Le"@,
        BinaryOperator::Ge => "Ge"@,
        BinaryOperator::Eq => "Eq"@,
        BinaryOperator::Ne => "Ne"@,
        BinaryOperator::And => "And"@,
        BinaryOperator::Or => "Or"@,
        BinaryOperator::Range => "Range"@,
    }
}

fn operator_text(op: BinaryOperator) -> (r: &'static str)
    ensures
        r@ == operator_name(op),
{
    match op {
        BinaryOperator::Add => "Add",
        BinaryOperator::Sub => "Sub",
        BinaryOperator::Mul => "Mul",
        BinaryOperator::Div => "Div",
        BinaryOperator::Mod => "Mod",
        BinaryOperator::Lt => "Lt",
        BinaryOperator::Gt => "Gt",
        BinaryOperator::Le => "Le",
        BinaryOperator::Ge => "Ge",
        BinaryOperator::Eq => "Eq",
        BinaryOperator::Ne => "Ne",
        BinaryOperator::And => "And",
        BinaryOperator::Or => "Or",
        BinaryOperator::Range => "Range",
    }
}

/// A numeric primitive, by its name.
pub open spec fn numeric_name(s: Seq<char>) -> bool {
    s == "I32"@ || s == "I64"@ || s == "F32"@ || s == "F64"@
}

fn is_numeric_name(s: &str) -> (r: bool)
    ensures
        r == numeric_name(s@),
{
    str_equals(s, "I32") || str_equals(s, "I64") || str_equals(s, "F32") || str_equals(s, "F64")
}

/// Whether `op` takes operands of the types `lt` and `rt`.
pub open spec fn binary_op_fits(a: SemanticAnalyzer, left: Expr, lt: SType, op: BinaryOperator, right: Expr, rt: SType) -> bool {
    let l = display_of(lt);
    let r = display_of(rt);
    match op {
        BinaryOperator::Add => (numeric_name(l) && l == r) || (l == "String"@ && r == "String"@),
        BinaryOperator::Range => (l == "I32"@ || l == "I64"@) && l == r,
        BinaryOperator::Eq | BinaryOperator::Ne => {
            if (lt is Nil && (rt is Optional || rt is Nil)) || (rt is Nil && (lt is Optional || lt is Nil)) {
                true
            } else if dot_variant(left) || dot_variant(right) {
                let other = if dot_variant(left) { rt } else { lt };
                enum_name_in(other) matches Some(n) && enum_named(a.symbols.enums@, n) is Some
            } else {
                l == r && !closure_reachable(a.symbols, lt, seq![])
            }
        },
        BinaryOperator::And | BinaryOperator::Or => l == "Boolean"@ && r == "Boolean"@,
        _ => numeric_name(l) && l == r,
    }
}

/// What a destructuring `let pattern = value` reports about the shape of
/// the value, given its type `vt`.
pub open spec fn destructuring_reports(a: SemanticAnalyzer, pattern: BindingPattern, value: Expr, vt: SType, span: Span) -> Seq<ErrorView> {
    if vt is Unknown {
        seq![]
    } else {
        match pattern {
            BindingPattern::Array { elements, .. } => if !(vt is Array) {
                seq![ErrorView::ArrayDestructuringNotArray { actual: display_of(vt), span }]
            } else {
                match value {
                    Expr::Array { elements: items, .. } => if fixed_count(elements@) > items@.len() {
                        seq![ErrorView::TypeMismatch {
                            expected: "array with at least "@ + decimal(fixed_count(elements@)) + " element(s)"@,
                            found: "array with "@ + decimal(items@.len()) + " element(s)"@,
                            span,
                        }]
                    } else {
                        seq![]
                    },
                    _ => seq![],
                }
            },
            BindingPattern::Struct { fields, .. } => {
                let lookup = match vt {
                    SType::Generic { base, .. } => Some(base),
                    SType::Named(n) => Some(n),
                    _ => None,
                };
                match lookup {
                    Some(n) => if !carrier(n) && struct_named(a.symbols.structs@, n) is Some {
                        pattern_field_reports(fields@, field_names(struct_named(a.symbols.structs@, n).unwrap().fields@), display_of(vt))
                    } else {
                        seq![ErrorView::StructDestructuringNotStruct { actual: display_of(vt), span }]
                    },
                    None => seq![ErrorView::StructDestructuringNotStruct { actual: display_of(vt), span }],
                }
            },
            BindingPattern::Tuple { elements, .. } => {
                let fits = match vt {
                    SType::Tuple(fs) => elements@.len() == fs.len(),
                    _ => vt is InferredEnum,
                };
                if fits {
                    seq![]
                } else {
                    seq![ErrorView::TypeMismatch {
                        expected: "tuple with "@ + decimal(elements@.len()) + " field(s)"@,
                        found: display_of(vt),
                        span,
                    }]
                }
            },
            BindingPattern::Simple(_) => seq![],
        }
    }
}

impl SemanticAnalyzer {
    /// The name of the leftmost binding of a place expression, through
    /// field accesses and parentheses; `None` for what is not a place.
    pub fn root_binding(expr: &Expr) -> (r: Option<String>)
        ensures
            r is None <==> root_of(*expr) is None,
            r matches Some(n) ==> root_of(*expr) == Some(n@),
        decreases *expr,
    {
        match expr {
            Expr::Reference { path, .. } => {
                if path.len() > 0 {
                    Some(path[0].name.clone())
                } else {
                    None
                }
            },
            Expr::FieldAccess { object, .. } => Self::root_binding(object),
            Expr::Group { expr, .. } => Self::root_binding(expr),
            _ => None,
        }
    }

    /// The name of the struct that declares this type's fields: the
    /// built-in compound shapes are declared as generic structs of the
    /// prelude under `Array`, `Dictionary` and `Optional`.
    pub fn field_owner_name(ty: &SemType) -> (r: String)
        ensures
            r@ == field_owner(ty@),
    {
        match ty {
            SemType::Array(_) => String::from_str("Array"),
            SemType::Dictionary { .. } => String::from_str("Dictionary"),
            SemType::Optional(_) => String::from_str("Optional"),
            SemType::Generic { base, .. } => base.clone(),
            _ => ty.display(),
        }
    }

    /// Report a name that a destructuring pattern binds twice, at each
    /// binding after the first.
    pub fn check_pattern_names_are_unique(&mut self, pattern: &BindingPattern)
        ensures
            final(self).same_state(*old(self)),
            error_views(final(self).errors@) == error_views(old(self).errors@) + name_dup_reports(pattern_names(*pattern)),
    {
        let mut names: Vec<&Ident> = Vec::new();
        collect_pattern_names(pattern, &mut names);
        let ghost ids = names@.map_values(|i: &Ident| *i);
        assert(ids =~= Seq::<Ident>::empty() + pattern_names(*pattern));
        let ghost e0 = error_views(self.errors@);
        let ghost s0 = *self;
        let mut seen: Vec<String> = Vec::new();
        let mut k: usize = 0;
        while k < names.len()
            invariant
                k <= names@.len(),
                ids == names@.map_values(|i: &Ident| *i),
                self.same_state(s0),
                views(seen@) == ident_names(ids.take(k as int)),
                error_views(self.errors@) == e0 + name_dup_reports(ids.take(k as int)),
            decreases names.len() - k,
        {
            proof {
                assert(ids.take(k + 1).drop_last() =~= ids.take(k as int));
                assert(ids.take(k + 1).last() == ids[k as int]);
            }
            let ident = names[k];
            if list_contains(&seen, ident.name.as_str()) {
                self.report(CompilerError::DuplicateDefinition { name: ident.name.clone(), span: ident.span });
            } else {
                assert(error_views(self.errors@) =~= error_views(self.errors@) + Seq::<ErrorView>::empty());
            }
            let ghost sb = seen@;
            let copy = ident.name.clone();
            seen.push(copy);
            proof {
                lemma_views_push(sb, copy);
                assert(ident_names(ids.take(k + 1)) =~= ident_names(ids.take(k as int)).push(ident.name@));
            }
            k += 1;
        }
        assert(ids.take(k as int) =~= ids);
    }

    /// Check that an `if` condition of type `condition_ty` is a `Boolean`
    /// or an optional.
    pub fn validate_if_condition(&mut self, condition_ty: &SemType, span: Span)
        ensures
            final(self).same_state(*old(self)),
            error_views(final(self).errors@) == error_views(old(self).errors@) + if condition_ty@ is Unknown
                || condition_ty@ == SType::Primitive(PrimitiveType::Boolean) || condition_ty@ is Optional {
                Seq::<ErrorView>::empty()
            } else {
                seq![ErrorView::InvalidIfCondition { actual: display_of(condition_ty@), span }]
            },
    {
        let valid = match condition_ty {
            SemType::Unknown => true,
            SemType::Primitive(PrimitiveType::Boolean) => true,
            SemType::Optional(_) => true,
            _ => false,
        };
        if !valid {
            let actual = condition_ty.display();
            self.report(CompilerError::InvalidIfCondition { actual, span });
        } else {
            assert(error_views(self.errors@) =~= error_views(self.errors@) + Seq::<ErrorView>::empty());
        }
    }

    /// Check that the collection of a `for`, of type `collection_ty`, is an
    /// array, a `Range` or a `Seq`.
    pub fn validate_for_loop(&mut self, collection_ty: &SemType, span: Span)
        ensures
            final(self).same_state(*old(self)),
            error_views(final(self).errors@) == error_views(old(self).errors@) + if collection_ty@ is Array
                || collection_ty@ is Unknown
                || (collection_ty@ matches SType::Generic { base, .. } && (base == "Range"@ || base == "Seq"@)) {
                Seq::<ErrorView>::empty()
            } else {
                seq![ErrorView::ForLoopNotArray { actual: display_of(collection_ty@), span }]
            },
    {
        let iterable = match collection_ty {
            SemType::Array(_) => true,
            SemType::Unknown => true,
            SemType::Generic { base, .. } => str_equals(base.as_str(), "Range") || str_equals(base.as_str(), "Seq"),
            _ => false,
        };
        if !iterable {
            let actual = collection_ty.display();
            self.report(CompilerError::ForLoopNotArray { actual, span });
        } else {
            assert(error_views(self.errors@) =~= error_views(self.errors@) + Seq::<ErrorView>::empty());
        }
    }

    /// Check the index of an array or a string, of type `index_ty`, is an
    /// `I32` position. Other receivers, and an index whose type says
    /// nothing yet, are left alone.
    pub fn check_position_index(&mut self, receiver_ty: &SemType, index_ty: &SemType, span: Span)
        ensures
            final(self).same_state(*old(self)),
            error_views(final(self).errors@) == error_views(old(self).errors@) + if (receiver_ty@ is Array
                || receiver_ty@ == SType::Primitive(PrimitiveType::String)) && !(index_ty@ is Unknown || index_ty@ is InferredEnum)
                && index_ty@ != SType::Primitive(PrimitiveType::I32) {
                seq![ErrorView::TypeMismatch { expected: "I32"@, found: display_of(index_ty@), span }]
            } else {
                Seq::<ErrorView>::empty()
            },
    {
        let positional = match receiver_ty {
            SemType::Array(_) => true,
            SemType::Primitive(PrimitiveType::String) => true,
            _ => false,
        };
        let is_i32 = match index_ty {
            SemType::Primitive(PrimitiveType::I32) => true,
            _ => false,
        };
        if positional && !index_ty.is_indeterminate() && !is_i32 {
            let found = index_ty.display();
            self.report(CompilerError::TypeMismatch { expected: String::from_str("I32"), found, span });
        } else {
            assert(error_views(self.errors@) =~= error_views(self.errors@) + Seq::<ErrorView>::empty());
        }
    }

    /// Check that `op` takes operands of the types `left_ty` and
    /// `right_ty`: numbers of one type for arithmetic, comparison and
    /// (integers only) ranges, two strings for `+` too, two `Boolean`s for
    /// `&&` and `||`, and for `==` and `!=` one equatable type, an optional
    /// against `nil`, or a leading-dot variant against a value of an enum.
    /// Operands whose type is unknown are left alone.
    pub fn validate_binary_op(&mut self, left: &Expr, left_ty: &SemType, op: BinaryOperator, right: &Expr, right_ty: &SemType, span: Span)
        ensures
            final(self).same_state(*old(self)),
            error_views(final(self).errors@) == error_views(old(self).errors@) + if left_ty@ is Unknown || right_ty@ is Unknown
                || binary_op_fits(*old(self), *left, left_ty@, op, *right, right_ty@) {
                Seq::<ErrorView>::empty()
            } else {
                seq![ErrorView::InvalidBinaryOp {
                    op: operator_name(op),
                    left_type: display_of(left_ty@),
                    right_type: display_of(right_ty@),
                    span,
                }]
            },
    {
        if left_ty.is_unknown() || right_ty.is_unknown() {
            assert(error_views(self.errors@) =~= error_views(self.errors@) + Seq::<ErrorView>::empty());
            return;
        }
        let left_type = left_ty.display();
        let right_type = right_ty.display();
        let same = str_equals(left_type.as_str(), right_type.as_str());
        let valid = match op {
            BinaryOperator::Add => (is_numeric_name(left_type.as_str()) && same)
                || (str_equals(left_type.as_str(), "String") && str_equals(right_type.as_str(), "String")),
            BinaryOperator::Range => (str_equals(left_type.as_str(), "I32") || str_equals(left_type.as_str(), "I64")) && same,
            BinaryOperator::Eq | BinaryOperator::Ne => {
                if Self::compares_against_nil(left_ty, right_ty) {
                    true
                } else if is_dot_variant(left) || is_dot_variant(right) {
                    let other = if is_dot_variant(left) { right_ty } else { left_ty };
                    match Self::expected_enum_name(other) {
                        Some(name) => self.symbols.get_enum(name.as_str()).is_some(),
                        None => false,
                    }
                } else {
                    same && self.is_equatable(left_ty)
                }
            },
            BinaryOperator::And | BinaryOperator::Or => str_equals(left_type.as_str(), "Boolean")
                && str_equals(right_type.as_str(), "Boolean"),
            _ => is_numeric_name(left_type.as_str()) && same,
        };
        if !valid {
            self.report(CompilerError::InvalidBinaryOp {
                op: String::from_str(operator_text(op)),
                left_type,
                right_type,
                span,
            });
        } else {
            assert(error_views(self.errors@) =~= error_views(self.errors@) + Seq::<ErrorView>::empty());
        }
    }

    /// Check the operand of a unary operator, of type `operand_ty`: `-`
    /// takes a number, and `!` takes a `Boolean`.
    pub fn validate_unary_operand(&mut self, op: UnaryOperator, operand: &Expr, operand_ty: &SemType)
        ensures
            final(self).same_state(*old(self)),
            error_views(final(self).errors@) == error_views(old(self).errors@) + if operand_ty@ is Unknown
                || operand_ty@ is InferredEnum || match op {
                    UnaryOperator::Neg => operand_ty@ == SType::Primitive(PrimitiveType::I32)
                        || operand_ty@ == SType::Primitive(PrimitiveType::I64)
                        || operand_ty@ == SType::Primitive(PrimitiveType::F32)
                        || operand_ty@ == SType::Primitive(PrimitiveType::F64),
                    UnaryOperator::Not => operand_ty@ == SType::Primitive(PrimitiveType::Boolean),
                } {
                Seq::<ErrorView>::empty()
            } else {
                seq![ErrorView::TypeMismatch {
                    expected: match op {
                        UnaryOperator::Neg => "a number"@,
                        UnaryOperator::Not => "Boolean"@,
                    },
                    found: display_of(operand_ty@),
                    span: expr_span(*operand),
                }]
            },
    {
        if operand_ty.is_indeterminate() {
            assert(error_views(self.errors@) =~= error_views(self.errors@) + Seq::<ErrorView>::empty());
            return;
        }
        let (fits, expected) = match op {
            UnaryOperator::Neg => (match operand_ty {
                SemType::Primitive(PrimitiveType::I32) => true,
                SemType::Primitive(PrimitiveType::I64) => true,
                SemType::Primitive(PrimitiveType::F32) => true,
                SemType::Primitive(PrimitiveType::F64) => true,
                _ => false,
            }, "a number"),
            UnaryOperator::Not => (match operand_ty {
                SemType::Primitive(PrimitiveType::Boolean) => true,
                _ => false,
            }, "Boolean"),
        };
        if !fits {
            let found = operand_ty.display();
            self.report(CompilerError::TypeMismatch { expected: String::from_str(expected), found, span: operand.span() });
        } else {
            assert(error_views(self.errors@) =~= error_views(self.errors@) + Seq::<ErrorView>::empty());
        }
    }

    /// The expected type of each operand of a binary operator: a
    /// leading-dot variant takes the type of the other operand, given as
    /// `left_ty` and `right_ty`.
    pub fn operand_expectations(left: &Expr, right: &Expr, left_ty: &SemType, right_ty: &SemType) -> (r: (Option<SemType>, Option<SemType>))
        ensures
            dot_variant(*left) ==> (r.0 matches Some(t) && t@ == right_ty@),
            !dot_variant(*left) ==> r.0 is None,
            dot_variant(*right) ==> (r.1 matches Some(t) && t@ == left_ty@),
            !dot_variant(*right) ==> r.1 is None,
    {
        let first = if is_dot_variant(left) { Some(right_ty.duplicate()) } else { None };
        let second = if is_dot_variant(right) { Some(left_ty.duplicate()) } else { None };
        (first, second)
    }

    /// Check a destructuring `let pattern = value`, whose value has the
    /// type `value_ty`: the pattern binds each name once, an array
    /// pattern takes an array (and no more fixed positions than an array
    /// literal has), a struct pattern takes a struct of the program and
    /// names only its fields, and a tuple pattern takes a tuple with as
    /// many fields as it has names.
    pub fn validate_destructuring_pattern(&mut self, pattern: &BindingPattern, value: &Expr, value_ty: &SemType, span: Span)
        ensures
            final(self).same_state(*old(self)),
            error_views(final(self).errors@) == error_views(old(self).errors@) + name_dup_reports(pattern_names(*pattern))
                + destructuring_reports(*old(self), *pattern, *value, value_ty@, span),
    {
        self.check_pattern_names_are_unique(pattern);
        let ghost e1 = error_views(self.errors@);
        if value_ty.is_unknown() {
            assert(error_views(self.errors@) =~= e1 + Seq::<ErrorView>::empty());
            return;
        }
        match pattern {
            BindingPattern::Array { elements, .. } => {
                let is_array = match value_ty {
                    SemType::Array(_) => true,
                    _ => false,
                };
                if !is_array {
                    let actual = value_ty.display();
                    self.report(CompilerError::ArrayDestructuringNotArray { actual, span });
                } else if let Expr::Array { elements: items, .. } = value {
                    let mut fixed: usize = 0;
                    let mut k: usize = 0;
                    while k < elements.len()
                        invariant
                            k <= elements@.len(),
                            fixed == fixed_count(elements@.take(k as int)),
                            fixed <= k,
                        decreases elements.len() - k,
                    {
                        proof {
                            assert(elements@.take(k + 1).drop_last() =~= elements@.take(k as int));
                        }
                        match &elements[k] {
                            ArrayPatternElement::Rest(_) => {},
                            _ => {
                                fixed += 1;
                            },
                        }
                        k += 1;
                    }
                    assert(elements@.take(k as int) =~= elements@);
                    if fixed > items.len() {
                        let mut expected = String::from_str("array with at least ");
                        expected.append(decimal_string(fixed).as_str());
                        expected.append(" element(s)");
                        let mut found = String::from_str("array with ");
                        found.append(decimal_string(items.len()).as_str());
                        found.append(" element(s)");
                        self.report(CompilerError::TypeMismatch { expected, found, span });
                    } else {
                        assert(error_views(self.errors@) =~= e1 + Seq::<ErrorView>::empty());
                    }
                } else {
                    assert(error_views(self.errors@) =~= e1 + Seq::<ErrorView>::empty());
                }
            },
            BindingPattern::Struct { fields, .. } => {
                let lookup: Option<&String> = match value_ty {
                    SemType::Generic { base, .. } => Some(base),
                    SemType::Named(n) => Some(n),
                    _ => None,
                };
                let info = match lookup {
                    Some(n) => {
                        let is_carrier = str_equals(n.as_str(), "Array") || str_equals(n.as_str(), "Dictionary")
                            || str_equals(n.as_str(), "Optional") || str_equals(n.as_str(), "Range")
                            || str_equals(n.as_str(), "Seq");
                        if is_carrier {
                            None
                        } else {
                            self.symbols.get_struct(n.as_str())
                        }
                    },
                    None => None,
                };
                match info {
                    Some(struct_info) => {
                        let owner = value_ty.display();
                        let ghost declared = field_names(struct_info.fields@);
                        let mut reports: Vec<CompilerError> = Vec::new();
                        let mut k: usize = 0;
                        while k < fields.len()
                            invariant
                                k <= fields@.len(),
                                declared == field_names(struct_info.fields@),
                                error_views(reports@) == pattern_field_reports(fields@.take(k as int), declared, owner@),
                            decreases fields.len() - k,
                        {
                            proof {
                                assert(fields@.take(k + 1).drop_last() =~= fields@.take(k as int));
                                assert(fields@.take(k + 1).last() == fields@[k as int]);
                            }
                            let field = &fields[k];
                            let ghost rb = error_views(reports@);
                            if !declares_field(&struct_info.fields, field.name.name.as_str()) {
                                reports.push(CompilerError::UnknownField {
                                    field: field.name.name.clone(),
                                    named_type: owner.clone(),
                                    span: field.name.span,
                                });
                                assert(error_views(reports@) =~= rb + seq![reports@.last()@]);
                            } else {
                                assert(error_views(reports@) =~= rb + Seq::<ErrorView>::empty());
                            }
                            k += 1;
                        }
                        assert(fields@.take(k as int) =~= fields@);
                        self.report_all(reports);
                    },
                    None => {
                        let actual = value_ty.display();
                        self.report(CompilerError::StructDestructuringNotStruct { actual, span });
                    },
                }
            },
            BindingPattern::Tuple { elements, .. } => {
                let fits = match value_ty {
                    SemType::Tuple(fs) => elements.len() == fs.len(),
                    _ => value_ty.is_indeterminate(),
                };
                proof {
                    if let SemType::Tuple(fs) = value_ty {
                        crate::sem_type::lemma_view_fields_len(fs@);
                    }
                }
                if !fits {
                    let mut expected = String::from_str("tuple with ");
                    expected.append(decimal_string(elements.len()).as_str());
                    expected.append(" field(s)");
                    let found = value_ty.display();
                    self.report(CompilerError::TypeMismatch { expected, found, span });
                } else {
                    assert(error_views(self.errors@) =~= e1 + Seq::<ErrorView>::empty());
                }
            },
            BindingPattern::Simple(_) => {
                assert(error_views(self.errors@) =~= e1 + Seq::<ErrorView>::empty());
            },
        }
    }
}

/// True when one of `fields` is called `name`.
fn declares_field(fields: &Vec<crate::ast::FieldDef>, name: &str) -> (r: bool)
    ensures
        r == field_names(fields@).contains(name@),
{
    let mut i: usize = 0;
    while i < fields.len()
        invariant
            i <= fields@.len(),
            forall|j: int| 0 <= j < i ==> fields@[j].name.name@ != name@,
        decreases fields.len() - i,
    {
        if str_equals(fields[i].name.name.as_str(), name) {
            assert(field_names(fields@)[i as int] == name@);
            return true;
        }
        i += 1;
    }
    assert forall|j: int| 0 <= j < field_names(fields@).len() implies field_names(fields@)[j] != name@ by {
        assert(fields@[j].name.name@ != name@);
    }
    false
}

} // verus!

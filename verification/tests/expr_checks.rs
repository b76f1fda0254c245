use lib::analyzer::SemanticAnalyzer;
use lib::ast::{
    ArrayPatternElement, BinaryOperator, BindingPattern, Expr, FieldDef, Ident, Literal, NumberLiteral,
    NumberSourceKind, NumberValue, PrimitiveType, Span, StructPatternField, Type, UnaryOperator, Visibility,
};
use lib::error::CompilerError;
use lib::expr_checks::is_dot_variant;
use lib::sem_type::SemType;
use lib::symbols::{StructInfo, SymbolTable};

fn at(n: usize) -> Span {
    Span { start: n, end: n + 1 }
}

fn name(text: &str) -> Ident {
    Ident { name: text.to_string(), span: at(0) }
}

fn number(n: i128, where_: usize) -> Expr {
    Expr::Literal {
        value: Literal::Number(NumberLiteral { value: NumberValue::Integer(n), suffix: None, kind: NumberSourceKind::Integer }),
        span: at(where_),
    }
}

fn prim(p: PrimitiveType) -> SemType {
    SemType::Primitive(p)
}

fn point_analyzer() -> SemanticAnalyzer {
    let mut symbols = SymbolTable::new();
    symbols.structs.push(StructInfo {
        name: "Point".to_string(),
        visibility: Visibility::Public,
        generics: vec![],
        fields: vec![
            FieldDef { name: name("x"), ty: Type::Primitive(PrimitiveType::I32), span: at(0) },
            FieldDef { name: name("y"), ty: Type::Primitive(PrimitiveType::I32), span: at(0) },
        ],
    });
    SemanticAnalyzer::new(symbols)
}

#[test]
fn adding_a_string_to_a_number_is_an_invalid_binary_op() {
    let mut a = point_analyzer();
    let (l, r) = (number(1, 1), number(2, 2));
    a.validate_binary_op(&l, &prim(PrimitiveType::String), BinaryOperator::Add, &r, &prim(PrimitiveType::I32), at(5));
    assert_eq!(a.errors.len(), 1);
    match &a.errors[0] {
        CompilerError::InvalidBinaryOp { op, left_type, right_type, span } => {
            assert_eq!(op, "Add");
            assert_eq!(left_type, "String");
            assert_eq!(right_type, "I32");
            assert_eq!(*span, at(5));
        },
        other => panic!("unexpected {other:?}"),
    }
}

#[test]
fn strings_concatenate_and_numbers_of_one_type_add() {
    let mut a = point_analyzer();
    let (l, r) = (number(1, 1), number(2, 2));
    a.validate_binary_op(&l, &prim(PrimitiveType::String), BinaryOperator::Add, &r, &prim(PrimitiveType::String), at(5));
    a.validate_binary_op(&l, &prim(PrimitiveType::F64), BinaryOperator::Mul, &r, &prim(PrimitiveType::F64), at(5));
    a.validate_binary_op(&l, &prim(PrimitiveType::I64), BinaryOperator::Range, &r, &prim(PrimitiveType::I64), at(5));
    a.validate_binary_op(&l, &prim(PrimitiveType::Boolean), BinaryOperator::And, &r, &prim(PrimitiveType::Boolean), at(5));
    assert!(a.errors.is_empty(), "{:?}", a.errors);
}

#[test]
fn a_float_range_and_mixed_widths_are_refused() {
    let mut a = point_analyzer();
    let (l, r) = (number(1, 1), number(2, 2));
    a.validate_binary_op(&l, &prim(PrimitiveType::F32), BinaryOperator::Range, &r, &prim(PrimitiveType::F32), at(5));
    a.validate_binary_op(&l, &prim(PrimitiveType::I32), BinaryOperator::Lt, &r, &prim(PrimitiveType::I64), at(6));
    assert_eq!(a.errors.len(), 2);
    assert!(matches!(&a.errors[0], CompilerError::InvalidBinaryOp { op, .. } if op == "Range"));
    assert!(matches!(&a.errors[1], CompilerError::InvalidBinaryOp { op, left_type, right_type, .. }
        if op == "Lt" && left_type == "I32" && right_type == "I64"));
}

#[test]
fn an_optional_compares_against_nil() {
    let mut a = point_analyzer();
    let (l, r) = (number(1, 1), number(2, 2));
    let opt = SemType::Optional(Box::new(prim(PrimitiveType::I32)));
    a.validate_binary_op(&l, &opt, BinaryOperator::Eq, &r, &SemType::Nil, at(5));
    a.validate_binary_op(&l, &SemType::Unknown, BinaryOperator::Sub, &r, &prim(PrimitiveType::String), at(5));
    assert!(a.errors.is_empty(), "{:?}", a.errors);
}

#[test]
fn a_closure_cannot_be_compared() {
    let mut a = point_analyzer();
    let (l, r) = (number(1, 1), number(2, 2));
    let f = SemType::Closure { params: vec![], return_ty: Box::new(prim(PrimitiveType::I32)) };
    let g = SemType::Closure { params: vec![], return_ty: Box::new(prim(PrimitiveType::I32)) };
    a.validate_binary_op(&l, &f, BinaryOperator::Eq, &r, &g, at(5));
    assert_eq!(a.errors.len(), 1);
    assert!(matches!(&a.errors[0], CompilerError::InvalidBinaryOp { left_type, .. } if left_type == "() -> I32"));
}

#[test]
fn an_if_condition_must_be_boolean_or_optional() {
    let mut a = point_analyzer();
    a.validate_if_condition(&prim(PrimitiveType::Boolean), at(1));
    a.validate_if_condition(&SemType::Optional(Box::new(prim(PrimitiveType::String))), at(2));
    a.validate_if_condition(&SemType::Unknown, at(3));
    a.validate_if_condition(&prim(PrimitiveType::I32), at(4));
    assert_eq!(a.errors.len(), 1);
    assert!(matches!(&a.errors[0], CompilerError::InvalidIfCondition { actual, span } if actual == "I32" && *span == at(4)));
}

#[test]
fn a_for_loop_walks_arrays_ranges_and_seqs() {
    let mut a = point_analyzer();
    a.validate_for_loop(&SemType::Array(Box::new(prim(PrimitiveType::I32))), at(1));
    a.validate_for_loop(&SemType::Generic { base: "Range".to_string(), args: vec![prim(PrimitiveType::I32)] }, at(2));
    a.validate_for_loop(&SemType::Generic { base: "Seq".to_string(), args: vec![prim(PrimitiveType::I32)] }, at(3));
    a.validate_for_loop(&prim(PrimitiveType::String), at(4));
    assert_eq!(a.errors.len(), 1);
    assert!(matches!(&a.errors[0], CompilerError::ForLoopNotArray { actual, span } if actual == "String" && *span == at(4)));
}

#[test]
fn a_position_index_must_be_i32() {
    let mut a = point_analyzer();
    let array = SemType::Array(Box::new(prim(PrimitiveType::I32)));
    a.check_position_index(&array, &prim(PrimitiveType::I32), at(1));
    a.check_position_index(&array, &prim(PrimitiveType::I64), at(2));
    a.check_position_index(&prim(PrimitiveType::String), &prim(PrimitiveType::Boolean), at(3));
    a.check_position_index(&SemType::Named("Point".to_string()), &prim(PrimitiveType::Boolean), at(4));
    assert_eq!(a.errors.len(), 2);
    assert!(matches!(&a.errors[0], CompilerError::TypeMismatch { expected, found, .. } if expected == "I32" && found == "I64"));
    assert!(matches!(&a.errors[1], CompilerError::TypeMismatch { found, span, .. } if found == "Boolean" && *span == at(3)));
}

#[test]
fn negation_takes_a_number_and_not_takes_a_boolean() {
    let mut a = point_analyzer();
    let operand = number(3, 7);
    a.validate_unary_operand(UnaryOperator::Neg, &operand, &prim(PrimitiveType::F32));
    a.validate_unary_operand(UnaryOperator::Not, &operand, &prim(PrimitiveType::Boolean));
    a.validate_unary_operand(UnaryOperator::Neg, &operand, &prim(PrimitiveType::String));
    a.validate_unary_operand(UnaryOperator::Not, &operand, &prim(PrimitiveType::I32));
    assert_eq!(a.errors.len(), 2);
    assert!(matches!(&a.errors[0], CompilerError::TypeMismatch { expected, found, span }
        if expected == "a number" && found == "String" && *span == at(7)));
    assert!(matches!(&a.errors[1], CompilerError::TypeMismatch { expected, found, .. } if expected == "Boolean" && found == "I32"));
}

#[test]
fn a_leading_dot_takes_the_type_of_the_other_operand() {
    let dot = Expr::InferredEnumInstantiation { variant: name("red"), data: vec![], span: at(1) };
    let grouped = Expr::Group { expr: Box::new(Expr::InferredEnumInstantiation { variant: name("red"), data: vec![], span: at(1) }), span: at(1) };
    let plain = number(1, 2);
    assert!(is_dot_variant(&dot));
    assert!(is_dot_variant(&grouped));
    assert!(!is_dot_variant(&plain));
    let color = SemType::Named("Color".to_string());
    let (first, second) = SemanticAnalyzer::operand_expectations(&dot, &plain, &SemType::Unknown, &color);
    assert!(matches!(first, Some(SemType::Named(n)) if n == "Color"));
    assert!(second.is_none());
}

#[test]
fn the_root_of_a_place_is_its_leftmost_name() {
    let place = Expr::FieldAccess {
        object: Box::new(Expr::Group { expr: Box::new(Expr::Reference { path: vec![name("p"), name("q")], span: at(0) }), span: at(0) }),
        field: name("x"),
        span: at(0),
    };
    assert_eq!(SemanticAnalyzer::root_binding(&place), Some("p".to_string()));
    assert_eq!(SemanticAnalyzer::root_binding(&number(1, 0)), None);
}

#[test]
fn fields_are_owned_by_the_carrier_of_a_type() {
    let arr = SemType::Array(Box::new(prim(PrimitiveType::I32)));
    let generic = SemType::Generic { base: "Box".to_string(), args: vec![prim(PrimitiveType::I32)] };
    assert_eq!(SemanticAnalyzer::field_owner_name(&arr), "Array");
    assert_eq!(SemanticAnalyzer::field_owner_name(&generic), "Box");
    assert_eq!(SemanticAnalyzer::field_owner_name(&SemType::Named("Point".to_string())), "Point");
}

#[test]
fn a_pattern_binds_each_name_once() {
    let mut a = point_analyzer();
    let pattern = BindingPattern::Tuple {
        elements: vec![
            BindingPattern::Simple(Ident { name: "a".to_string(), span: at(1) }),
            BindingPattern::Simple(Ident { name: "b".to_string(), span: at(2) }),
            BindingPattern::Simple(Ident { name: "a".to_string(), span: at(3) }),
        ],
        span: at(0),
    };
    a.check_pattern_names_are_unique(&pattern);
    assert_eq!(a.errors.len(), 1);
    assert!(matches!(&a.errors[0], CompilerError::DuplicateDefinition { name, span } if name == "a" && *span == at(3)));
}

#[test]
fn an_array_pattern_needs_enough_elements() {
    let mut a = point_analyzer();
    let pattern = BindingPattern::Array {
        elements: vec![
            ArrayPatternElement::Binding(BindingPattern::Simple(name("a"))),
            ArrayPatternElement::Wildcard,
            ArrayPatternElement::Binding(BindingPattern::Simple(name("c"))),
            ArrayPatternElement::Rest(None),
        ],
        span: at(0),
    };
    let value = Expr::Array { elements: vec![number(1, 0), number(2, 0)], span: at(0) };
    let ty = SemType::Array(Box::new(prim(PrimitiveType::I32)));
    a.validate_destructuring_pattern(&pattern, &value, &ty, at(9));
    assert_eq!(a.errors.len(), 1);
    match &a.errors[0] {
        CompilerError::TypeMismatch { expected, found, span } => {
            assert_eq!(expected, "array with at least 3 element(s)");
            assert_eq!(found, "array with 2 element(s)");
            assert_eq!(*span, at(9));
        },
        other => panic!("unexpected {other:?}"),
    }
}

#[test]
fn an_array_pattern_takes_an_array() {
    let mut a = point_analyzer();
    let pattern = BindingPattern::Array { elements: vec![ArrayPatternElement::Rest(Some(name("rest")))], span: at(0) };
    a.validate_destructuring_pattern(&pattern, &number(1, 0), &prim(PrimitiveType::String), at(4));
    assert_eq!(a.errors.len(), 1);
    assert!(matches!(&a.errors[0], CompilerError::ArrayDestructuringNotArray { actual, span } if actual == "String" && *span == at(4)));
}

#[test]
fn a_tuple_pattern_needs_as_many_fields() {
    let mut a = point_analyzer();
    let pattern = BindingPattern::Tuple { elements: vec![BindingPattern::Simple(name("a")), BindingPattern::Simple(name("b"))], span: at(0) };
    let ty = SemType::Tuple(vec![
        (String::new(), prim(PrimitiveType::I32)),
        (String::new(), prim(PrimitiveType::I32)),
        (String::new(), prim(PrimitiveType::I32)),
    ]);
    a.validate_destructuring_pattern(&pattern, &number(1, 0), &ty, at(2));
    assert_eq!(a.errors.len(), 1);
    assert!(matches!(&a.errors[0], CompilerError::TypeMismatch { expected, found, .. }
        if expected == "tuple with 2 field(s)" && found == "(I32, I32, I32)"));
}

#[test]
fn a_struct_pattern_names_only_fields_of_its_struct() {
    let mut a = point_analyzer();
    let pattern = BindingPattern::Struct {
        fields: vec![
            StructPatternField { name: name("x"), alias: None },
            StructPatternField { name: Ident { name: "z".to_string(), span: at(6) }, alias: Some(name("w")) },
        ],
        span: at(0),
    };
    a.validate_destructuring_pattern(&pattern, &number(1, 0), &SemType::Named("Point".to_string()), at(1));
    a.validate_destructuring_pattern(&pattern, &number(1, 0), &prim(PrimitiveType::I32), at(2));
    assert_eq!(a.errors.len(), 2);
    assert!(matches!(&a.errors[0], CompilerError::UnknownField { field, named_type, span }
        if field == "z" && named_type == "Point" && *span == at(6)));
    assert!(matches!(&a.errors[1], CompilerError::StructDestructuringNotStruct { actual, span } if actual == "I32" && *span == at(2)));
}

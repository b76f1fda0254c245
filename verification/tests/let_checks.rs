use lib::analyzer::SemanticAnalyzer;
use lib::ast::{Expr, Literal, NumberLiteral, NumberSourceKind, NumberValue, PrimitiveType, Span, Type};
use lib::error::CompilerError;
use lib::symbols::SymbolTable;

fn at(n: usize) -> Span {
    Span { start: n, end: n + 1 }
}

fn one() -> Expr {
    Expr::Literal {
        value: Literal::Number(NumberLiteral { value: NumberValue::Integer(1), suffix: None, kind: NumberSourceKind::Integer }),
        span: at(0),
    }
}

fn nil() -> Expr {
    Expr::Literal { value: Literal::Nil, span: at(0) }
}

fn optional_i32s() -> Type {
    Type::Array(Box::new(Type::Optional(Box::new(Type::Primitive(PrimitiveType::I32)))))
}

#[test]
fn optional_elements_that_are_never_nil_are_pointless() {
    let mut a = SemanticAnalyzer::new(SymbolTable::new());
    let value = Expr::Array { elements: vec![one(), one()], span: at(1) };
    a.check_optional_elements_are_used(&optional_i32s(), &value, false, at(9));
    assert_eq!(a.errors.len(), 1);
    match &a.errors[0] {
        CompilerError::PointlessOptionalElement { declared, suggested, span } => {
            assert_eq!(declared, "[I32?]");
            assert_eq!(suggested, "[I32]");
            assert_eq!(*span, at(9));
        },
        other => panic!("unexpected {other:?}"),
    }
}

#[test]
fn a_nil_element_a_mutable_binding_or_an_empty_literal_is_fine() {
    let mut a = SemanticAnalyzer::new(SymbolTable::new());
    let with_nil = Expr::Array { elements: vec![one(), nil()], span: at(1) };
    a.check_optional_elements_are_used(&optional_i32s(), &with_nil, false, at(2));
    let plain = Expr::Array { elements: vec![one()], span: at(1) };
    a.check_optional_elements_are_used(&optional_i32s(), &plain, true, at(3));
    let empty = Expr::Array { elements: vec![], span: at(1) };
    a.check_optional_elements_are_used(&optional_i32s(), &empty, false, at(4));
    let not_optional = Type::Array(Box::new(Type::Primitive(PrimitiveType::I32)));
    a.check_optional_elements_are_used(&not_optional, &plain, false, at(5));
    assert!(a.errors.is_empty(), "{:?}", a.errors);
}

fn id(text: &str) -> lib::ast::Ident {
    lib::ast::Ident { name: text.to_string(), span: at(0) }
}

fn binding(name: &str, ty: Option<Type>, value: Expr) -> lib::ast::LetBinding {
    lib::ast::LetBinding {
        visibility: lib::ast::Visibility::Public,
        mutable: false,
        pattern: lib::ast::BindingPattern::Simple(id(name)),
        type_annotation: ty,
        value,
        span: at(9),
    }
}

fn let_facts(vt: lib::sem_type::SemType, fits: bool) -> lib::let_checks::LetFacts {
    lib::let_checks::LetFacts { value_type: vt, fits, closure_body_type: lib::sem_type::SemType::Unknown, closure_body_fits: true }
}

fn i32_t() -> Type {
    Type::Primitive(PrimitiveType::I32)
}

#[test]
fn nil_needs_an_optional_annotation() {
    let mut a = SemanticAnalyzer::new(SymbolTable::new());
    a.validate_let_statement(&binding("x", Some(i32_t()), nil()), &let_facts(lib::sem_type::SemType::Nil, false));
    assert_eq!(a.errors.len(), 1, "{:?}", a.errors);
    assert!(matches!(&a.errors[0], CompilerError::NilAssignedToNonOptional { expected, span } if expected == "I32" && *span == at(9)));
    let optional = Type::Optional(Box::new(i32_t()));
    a.validate_let_statement(&binding("y", Some(optional), nil()), &let_facts(lib::sem_type::SemType::Nil, true));
    assert_eq!(a.errors.len(), 1, "{:?}", a.errors);
}

#[test]
fn a_value_that_does_not_satisfy_its_annotation_is_a_mismatch() {
    let mut a = SemanticAnalyzer::new(SymbolTable::new());
    let text = Expr::Literal { value: Literal::String("s".to_string()), span: at(1) };
    a.validate_let_statement(&binding("x", Some(i32_t()), text), &let_facts(lib::sem_type::SemType::Primitive(PrimitiveType::String), false));
    assert_eq!(a.errors.len(), 1, "{:?}", a.errors);
    assert!(matches!(&a.errors[0], CompilerError::TypeMismatch { expected, found, .. } if expected == "I32" && found == "String"));
}

#[test]
fn a_dot_variant_without_an_annotation_names_no_enum() {
    let mut a = SemanticAnalyzer::new(SymbolTable::new());
    let red = Expr::InferredEnumInstantiation { variant: id("red"), data: vec![], span: at(4) };
    a.validate_let_statement(&binding("c", None, red), &let_facts(lib::sem_type::SemType::InferredEnum, true));
    assert_eq!(a.errors.len(), 1, "{:?}", a.errors);
    assert!(matches!(&a.errors[0], CompilerError::CannotInferEnumType { variant, span } if variant == "red" && *span == at(4)));
}

#[test]
fn a_closure_binding_records_its_conventions_and_captures() {
    let mut a = SemanticAnalyzer::new(SymbolTable::new());
    let body = Expr::BinaryOp {
        left: Box::new(Expr::Reference { path: vec![id("n")], span: at(2) }),
        op: lib::ast::BinaryOperator::Add,
        right: Box::new(Expr::Reference { path: vec![id("k")], span: at(3) }),
        span: at(2),
    };
    let closure = Expr::ClosureExpr {
        params: vec![lib::ast::ClosureParam { convention: lib::ast::ParamConvention::Mut, name: id("n"), ty: Some(i32_t()), span: at(1) }],
        return_type: None,
        body: Box::new(body),
        span: at(1),
    };
    let closure_type = lib::sem_type::SemType::Closure {
        params: vec![(lib::ast::ParamConvention::Mut, lib::sem_type::SemType::Primitive(PrimitiveType::I32))],
        return_ty: Box::new(lib::sem_type::SemType::Primitive(PrimitiveType::I32)),
    };
    a.validate_let_statement(&binding("f", None, closure), &let_facts(closure_type, true));
    assert!(a.errors.is_empty(), "{:?}", a.errors);
    assert_eq!(a.closure_binding_conventions, vec![("f".to_string(), vec![lib::ast::ParamConvention::Mut])]);
    assert_eq!(lib::analyzer::find_names(&a.closure_binding_captures, "f"), Some(&vec!["k".to_string()]));
    assert_eq!(lib::analyzer::find_names(&a.fn_scope_closure_captures, "f"), Some(&vec!["k".to_string()]));
}

#[test]
fn a_closure_literal_is_checked_against_its_closure_annotation() {
    let mut a = SemanticAnalyzer::new(SymbolTable::new());
    let closure = Expr::ClosureExpr {
        params: vec![lib::ast::ClosureParam { convention: lib::ast::ParamConvention::Let, name: id("n"), ty: None, span: at(1) }],
        return_type: None,
        body: Box::new(Expr::Reference { path: vec![id("n")], span: at(2) }),
        span: at(1),
    };
    let annotation = Type::Closure {
        params: vec![(lib::ast::ParamConvention::Let, i32_t())],
        ret: Box::new(Type::Primitive(PrimitiveType::String)),
    };
    let facts = lib::let_checks::LetFacts {
        value_type: lib::sem_type::SemType::Unknown,
        fits: true,
        closure_body_type: lib::sem_type::SemType::Primitive(PrimitiveType::I32),
        closure_body_fits: false,
    };
    a.validate_let_statement(&binding("c", Some(annotation), closure), &facts);
    assert_eq!(a.errors.len(), 1, "{:?}", a.errors);
    assert!(matches!(&a.errors[0], CompilerError::TypeMismatch { expected, found, span }
        if expected == "String" && found == "I32" && *span == at(9)));
    assert_eq!(a.closure_binding_conventions, vec![("c".to_string(), vec![lib::ast::ParamConvention::Let])]);
}

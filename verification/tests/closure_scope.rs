use lib::analyzer::SemanticAnalyzer;
use lib::ast::{BinaryOperator, ClosureParam, Expr, Ident, ParamConvention, PrimitiveType, Span, Type};
use lib::closure_expr::ClosureBodyFacts;
use lib::error::CompilerError;
use lib::sem_type::SemType;
use lib::symbols::SymbolTable;

fn at(n: usize) -> Span {
    Span { start: n, end: n + 1 }
}

fn id(text: &str, n: usize) -> Ident {
    Ident { name: text.to_string(), span: at(n) }
}

fn body_facts(n: usize, body: SemType, fits: bool) -> ClosureBodyFacts {
    ClosureBodyFacts {
        body_type: body,
        body_fits: fits,
        body_unbound: false,
        return_unbound: false,
        slot_unbound: vec![false; n],
        declared_unbound: vec![false; n],
        declared_body_type: SemType::Unknown,
        declared_return_fits: true,
    }
}

fn i32_s() -> SemType {
    SemType::Primitive(PrimitiveType::I32)
}

fn reference(name: &str, n: usize) -> Expr {
    Expr::Reference { path: vec![id(name, n)], span: at(n) }
}

#[test]
fn a_closure_is_checked_before_its_body_and_its_scopes_end_with_it() {
    let mut a = SemanticAnalyzer::new(SymbolTable::new());
    a.consumed_bindings.push("gone".to_string());
    a.consumed_bindings.push("x".to_string());
    a.local_let_bindings.push(("total".to_string(), SemType::Unknown));
    let params = vec![ClosureParam {
        convention: ParamConvention::Let,
        name: id("x", 1),
        ty: Some(Type::Primitive(PrimitiveType::I32)),
        span: at(1),
    }];
    // (x: I32) -> Nope { gone + x }
    let body = Expr::BinaryOp {
        left: Box::new(reference("gone", 4)),
        op: BinaryOperator::Add,
        right: Box::new(reference("x", 6)),
        span: at(3),
    };
    let declared = Type::Ident(id("Nope", 2));
    let expected = a.enter_closure_expr(&params, Some(&declared), &body, None);
    assert_eq!(expected.map(|t| t.display()), Some("Nope".to_string()));
    assert_eq!(a.errors.len(), 2, "{:?}", a.errors);
    assert!(matches!(&a.errors[0], CompilerError::UndefinedType { name, .. } if name == "Nope"), "{:?}", a.errors);
    assert!(matches!(&a.errors[1], CompilerError::UseAfterSink { name, span } if name == "gone" && *span == at(4)));
    assert_eq!(a.closure_param_scopes, vec![vec!["x".to_string()]]);
    assert_eq!(a.inference_scopes, vec![vec!["x".to_string()]]);
    assert_eq!(a.outer_frames.len(), 1);
    assert!(a.outer_frames[0].closure);
    assert_eq!(a.outer_frames[0].names, vec!["total".to_string()]);
    let facts = body_facts(1, i32_s(), true);
    a.leave_closure_expr(&params, Some(&declared), &body, None, &facts);
    assert!(a.closure_param_scopes.is_empty());
    assert!(a.inference_scopes.is_empty());
    assert!(a.outer_frames.is_empty());
    assert_eq!(a.errors.len(), 2);
}

#[test]
fn a_closure_is_checked_against_the_closure_its_position_expects() {
    let mut a = SemanticAnalyzer::new(SymbolTable::new());
    let params = vec![ClosureParam { convention: ParamConvention::Mut, name: id("x", 1), ty: None, span: at(1) }];
    let body = reference("x", 3);
    let slot = SemType::Closure { params: vec![(ParamConvention::Let, i32_s())], return_ty: Box::new(i32_s()) };
    a.enter_closure_expr(&params, None, &body, Some(&slot));
    let facts = body_facts(1, i32_s(), true);
    a.leave_closure_expr(&params, None, &body, Some(&slot), &facts);
    assert_eq!(a.errors.len(), 1, "{:?}", a.errors);
    match &a.errors[0] {
        CompilerError::TypeMismatch { expected, found, span } => {
            assert_eq!(expected, "(I32) -> I32");
            assert_ne!(expected, found);
            assert_eq!(*span, at(3));
        },
        other => panic!("unexpected {other:?}"),
    }
}

#[test]
fn a_body_that_does_not_meet_the_expected_return_type_is_a_mismatch() {
    let mut a = SemanticAnalyzer::new(SymbolTable::new());
    let params = vec![ClosureParam { convention: ParamConvention::Let, name: id("x", 1), ty: None, span: at(1) }];
    let body = reference("x", 3);
    let slot = SemType::Closure { params: vec![(ParamConvention::Let, i32_s())], return_ty: Box::new(i32_s()) };
    a.enter_closure_expr(&params, None, &body, Some(&slot));
    let text = SemType::Primitive(PrimitiveType::String);
    a.leave_closure_expr(&params, None, &body, Some(&slot), &body_facts(1, text, false));
    assert_eq!(a.errors.len(), 1, "{:?}", a.errors);
    assert!(matches!(&a.errors[0], CompilerError::TypeMismatch { expected, .. } if expected == "(I32) -> I32"));
    // The same body type, when it satisfies the return type, is fine.
    let mut b = SemanticAnalyzer::new(SymbolTable::new());
    b.enter_closure_expr(&params, None, &body, Some(&slot));
    b.leave_closure_expr(&params, None, &body, Some(&slot), &body_facts(1, i32_s(), true));
    assert!(b.errors.is_empty(), "{:?}", b.errors);
}

#[test]
fn a_body_not_compatible_with_the_declared_return_type_is_reported() {
    let mut a = SemanticAnalyzer::new(SymbolTable::new());
    let params = vec![ClosureParam {
        convention: ParamConvention::Let,
        name: id("x", 1),
        ty: Some(Type::Primitive(PrimitiveType::I32)),
        span: at(1),
    }];
    let body = reference("x", 3);
    let declared = Type::Primitive(PrimitiveType::String);
    a.enter_closure_expr(&params, Some(&declared), &body, None);
    let mut facts = body_facts(1, i32_s(), true);
    facts.declared_body_type = i32_s();
    facts.declared_return_fits = false;
    a.leave_closure_expr(&params, Some(&declared), &body, None, &facts);
    assert_eq!(a.errors.len(), 1, "{:?}", a.errors);
    assert!(matches!(&a.errors[0], CompilerError::FunctionReturnTypeMismatch { function, expected, actual, span }
        if function == "<closure>" && expected == "String" && actual == "I32" && *span == at(3)));
}

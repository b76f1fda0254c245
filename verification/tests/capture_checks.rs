use lib::analyzer::SemanticAnalyzer;
use lib::ast::{
    ArrayPatternElement, BinaryOperator, BindingPattern, BlockStatement, ClosureParam, Expr, Ident, Literal, MatchArm,
    ParamConvention, Pattern, PrimitiveType, Span, StructPatternField, Type,
};
use lib::error::CompilerError;
use lib::free_vars::{arm_scope, closure_params_scope, is_bound};
use lib::patterns::pattern_binding_names;
use lib::symbols::SymbolTable;

fn w(n: usize) -> Span {
    Span { start: n, end: n + 1 }
}

fn nid(text: &str) -> Ident {
    Ident { name: text.to_string(), span: w(0) }
}

fn r(name: &str, n: usize) -> Expr {
    Expr::Reference { path: vec![nid(name)], span: w(n) }
}

fn plus(a: Expr, b: Expr) -> Expr {
    Expr::BinaryOp { left: Box::new(a), op: BinaryOperator::Add, right: Box::new(b), span: w(0) }
}

fn closure(params: &[&str], body: Expr, n: usize) -> Expr {
    Expr::ClosureExpr {
        params: params.iter().map(|p| ClosureParam { convention: ParamConvention::Let, name: nid(p), ty: None, span: w(0) }).collect(),
        return_type: None,
        body: Box::new(body),
        span: w(n),
    }
}

fn names(parts: &[&str]) -> Vec<String> {
    parts.iter().map(|p| p.to_string()).collect()
}

#[test]
fn free_variables_are_listed_once_in_order_of_use() {
    let body = Expr::Block {
        statements: vec![BlockStatement::Let { mutable: false, pattern: BindingPattern::Simple(nid("t")), ty: None, value: plus(r("b", 0), r("a", 0)), span: w(0) }],
        result: Box::new(plus(plus(r("t", 0), r("b", 0)), Expr::ForExpr {
            var: nid("i"),
            collection: Box::new(r("xs", 0)),
            body: Box::new(plus(r("i", 0), r("self", 0))),
            span: w(0),
        })),
        span: w(0),
    };
    let captured = SemanticAnalyzer::collect_free_variables(&body, &names(&["a"]));
    assert_eq!(captured, names(&["b", "xs"]));
}

#[test]
fn a_nested_closure_and_a_match_arm_bind_their_own_names() {
    let arms = vec![MatchArm {
        pattern: Pattern::Variant { name: nid("some"), bindings: vec![nid("v")] },
        body: plus(r("v", 0), r("outer", 0)),
        span: w(0),
    }];
    let body = Expr::MatchExpr {
        scrutinee: Box::new(closure(&["q"], plus(r("q", 0), r("k", 0)), 0)),
        arms,
        span: w(0),
    };
    assert_eq!(SemanticAnalyzer::collect_free_variables(&body, &vec![]), names(&["k", "outer"]));
    assert_eq!(arm_scope(&Pattern::Variant { name: nid("some"), bindings: vec![nid("v"), nid("w")] }), names(&["v", "w"]));
    assert!(arm_scope(&Pattern::Wildcard).is_empty());
}

#[test]
fn binding_names_are_bound_in_any_scope() {
    let params = vec![
        ClosureParam { convention: ParamConvention::Let, name: nid("x"), ty: Some(Type::Primitive(PrimitiveType::I32)), span: w(0) },
        ClosureParam { convention: ParamConvention::Mut, name: nid("y"), ty: None, span: w(0) },
    ];
    assert_eq!(closure_params_scope(&params), names(&["x", "y"]));
    assert!(is_bound("z", &names(&["x"]), &vec![names(&["w"]), names(&["z"])]));
    assert!(!is_bound("q", &names(&["x"]), &vec![names(&["w"])]));
}

#[test]
fn a_closure_made_after_a_sink_of_what_it_captures_is_a_use_after_sink() {
    let body = plus(r("gone", 3), Expr::LetExpr {
        mutable: false,
        pattern: BindingPattern::Simple(nid("gone")),
        ty: None,
        value: Box::new(r("kept", 4)),
        body: Box::new(r("gone", 5)),
        span: w(0),
    });
    let mut errors: Vec<CompilerError> = Vec::new();
    let mut scopes: Vec<Vec<String>> = Vec::new();
    SemanticAnalyzer::check_captures_rec(&body, &vec![], &names(&["gone"]), &mut errors, &mut scopes);
    assert_eq!(errors.len(), 1);
    assert!(matches!(&errors[0], CompilerError::UseAfterSink { name, span } if name == "gone" && *span == w(3)));
    assert!(scopes.is_empty());
}

#[test]
fn closure_values_carry_their_captures() {
    let mut a = SemanticAnalyzer::new(SymbolTable::new());
    a.closure_binding_captures.push(("f".to_string(), names(&["n"])));
    assert_eq!(a.closure_captures_of_expr(&r("f", 0)), Some(names(&["n"])));
    let literal = closure(&["x"], plus(r("x", 0), r("m", 0)), 0);
    assert_eq!(a.closure_captures_of_expr(&literal), Some(names(&["m"])));
    assert_eq!(a.closure_captures_of_expr(&r("g", 0)), None);
}

#[test]
fn closures_returned_through_branches_and_containers_are_found() {
    let mut a = SemanticAnalyzer::new(SymbolTable::new());
    a.closure_binding_captures.push(("f".to_string(), names(&["n"])));
    let result = Expr::IfExpr {
        condition: Box::new(Expr::Literal { value: Literal::Boolean(true), span: w(0) }),
        then_branch: Box::new(r("f", 1)),
        else_branch: Some(Box::new(Expr::Array { elements: vec![closure(&[], r("p", 0), 2)], span: w(0) })),
        span: w(0),
    };
    let found = a.collect_returned_closure_captures(&result);
    assert_eq!(found, vec![(names(&["n"]), w(1)), (names(&["p"]), w(2))]);
}

#[test]
fn a_returned_closure_consumes_the_sink_parameters_it_captures() {
    let mut a = SemanticAnalyzer::new(SymbolTable::new());
    a.current_fn_param_conventions.push(("owned".to_string(), ParamConvention::Sink));
    a.current_fn_param_conventions.push(("shared".to_string(), ParamConvention::Let));
    let body = closure(&[], plus(r("owned", 0), r("shared", 0)), 1);
    let aggregate = Type::Ident(nid("Callback"));
    a.validate_function_return_escape(Some(&aggregate), &body);
    assert_eq!(a.consumed_bindings, names(&["owned"]));
    let mut b = SemanticAnalyzer::new(SymbolTable::new());
    b.current_fn_param_conventions.push(("owned".to_string(), ParamConvention::Sink));
    b.validate_function_return_escape(Some(&Type::Primitive(PrimitiveType::I32)), &body);
    assert!(b.consumed_bindings.is_empty());
    b.validate_escaping_captures(&names(&["owned", "other"]));
    assert_eq!(b.consumed_bindings, names(&["owned"]));
}

#[test]
fn patterns_bind_names_in_source_order() {
    let pattern = BindingPattern::Array {
        elements: vec![
            ArrayPatternElement::Binding(BindingPattern::Struct {
                fields: vec![StructPatternField { name: nid("x"), alias: Some(nid("px")) }, StructPatternField { name: nid("y"), alias: None }],
                span: w(0),
            }),
            ArrayPatternElement::Wildcard,
            ArrayPatternElement::Rest(Some(nid("tail"))),
        ],
        span: w(0),
    };
    assert_eq!(pattern_binding_names(&pattern), names(&["px", "y", "tail"]));
}

fn one() -> Expr {
    Expr::Literal { value: Literal::Nil, span: w(0) }
}

fn let_stmt(name: &str, value: Expr) -> BlockStatement {
    BlockStatement::Let { mutable: false, pattern: BindingPattern::Simple(nid(name)), ty: None, value, span: w(0) }
}

#[test]
fn a_block_let_shadows_the_name_in_the_statements_after_it() {
    // `{ let a = 1; a; 0 }` with `a` sunk before the closure is made.
    let body = Expr::Block { statements: vec![let_stmt("a", one()), BlockStatement::Expr(r("a", 7))], result: Box::new(one()), span: w(0) };
    let mut errors: Vec<CompilerError> = Vec::new();
    let mut scopes: Vec<Vec<String>> = Vec::new();
    SemanticAnalyzer::check_captures_rec(&body, &vec![], &names(&["a"]), &mut errors, &mut scopes);
    assert!(errors.is_empty(), "{:?}", errors);
    // A read before the `let` still reads the sunk binding.
    let early = Expr::Block { statements: vec![BlockStatement::Expr(r("a", 8)), let_stmt("a", one())], result: Box::new(one()), span: w(0) };
    SemanticAnalyzer::check_captures_rec(&early, &vec![], &names(&["a"]), &mut errors, &mut scopes);
    assert_eq!(errors.len(), 1);
    assert!(matches!(&errors[0], CompilerError::UseAfterSink { name, span } if name == "a" && *span == w(8)));
    assert!(scopes.is_empty());
}

#[test]
fn block_locals_are_not_free_variables() {
    // `{ let t = 1; t; t }`
    let body = Expr::Block { statements: vec![let_stmt("t", one()), BlockStatement::Expr(r("t", 0))], result: Box::new(r("t", 0)), span: w(0) };
    assert!(SemanticAnalyzer::collect_free_variables(&body, &vec![]).is_empty());
    // `{ let u = t; u }`: the `let` value reads the outer `t`.
    let body = Expr::Block { statements: vec![let_stmt("u", r("t", 0))], result: Box::new(r("u", 0)), span: w(0) };
    assert_eq!(SemanticAnalyzer::collect_free_variables(&body, &vec![]), names(&["t"]));
}

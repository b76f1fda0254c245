use lib::analyzer::SemanticAnalyzer;
use lib::ast::Span;
use lib::block_scope::MAX_EXPR_DEPTH;
use lib::error::CompilerError;
use lib::sem_type::SemType;
use lib::symbols::SymbolTable;

fn at(n: usize) -> Span {
    Span { start: n, end: n + 1 }
}

fn empty() -> SemanticAnalyzer {
    SemanticAnalyzer::new(SymbolTable::new())
}

fn sorted(mut v: Vec<String>) -> Vec<String> {
    v.sort();
    v
}

fn names(parts: &[&str]) -> Vec<String> {
    parts.iter().map(|p| p.to_string()).collect()
}

#[test]
fn the_walk_stops_at_the_deepest_nesting_and_reports_it() {
    let mut a = empty();
    for _ in 0..MAX_EXPR_DEPTH {
        assert!(a.enter_expr(at(0)));
    }
    assert_eq!(a.expr_depth, 500);
    assert!(!a.enter_expr(at(7)));
    assert_eq!(a.expr_depth, 500);
    assert_eq!(a.errors.len(), 1);
    match &a.errors[0] {
        CompilerError::ExpressionDepthExceeded { span } => assert_eq!(*span, at(7)),
        other => panic!("unexpected {other:?}"),
    }
    a.leave_expr();
    assert_eq!(a.expr_depth, 499);
    assert!(a.enter_expr(at(8)));
    assert_eq!(a.errors.len(), 1);
}

#[test]
fn leaving_at_depth_zero_stays_at_zero() {
    let mut a = empty();
    a.leave_expr();
    assert_eq!(a.expr_depth, 0);
    assert!(a.enter_expr(at(1)));
    a.leave_expr();
    assert_eq!(a.expr_depth, 0);
}

#[test]
fn a_block_restores_its_bindings_and_keeps_outer_consumption() {
    let mut a = empty();
    a.local_let_bindings.push(("outer".to_string(), SemType::Unknown));
    a.closure_binding_captures.push(("f".to_string(), names(&["outer"])));
    a.consumed_bindings.push("earlier".to_string());
    a.inference_scopes.push(names(&["outer"]));

    let saved = a.open_block_scope();
    assert_eq!(a.inference_scopes.len(), 2);
    assert!(a.inference_scopes[1].is_empty());

    // Inside the block: a new binding, a new closure, and three names given away.
    a.local_let_bindings.push(("inner".to_string(), SemType::Unknown));
    a.closure_binding_captures.push(("g".to_string(), names(&["inner"])));
    a.consumed_bindings.push("outer".to_string());
    a.consumed_bindings.push("inner".to_string());
    a.consumed_bindings.push("module_value".to_string());

    a.close_block_scope(saved);
    assert_eq!(a.local_let_bindings.len(), 1);
    assert_eq!(a.local_let_bindings[0].0, "outer");
    assert_eq!(a.closure_binding_captures.len(), 1);
    assert_eq!(a.closure_binding_captures[0].0, "f");
    assert_eq!(a.inference_scopes, vec![names(&["outer"])]);
    assert_eq!(sorted(a.consumed_bindings.clone()), names(&["earlier", "module_value", "outer"]));
}

#[test]
fn a_name_given_away_before_the_block_stays_given_away_even_if_rebound_inside() {
    let mut a = empty();
    a.consumed_bindings.push("x".to_string());
    let saved = a.open_block_scope();
    a.local_let_bindings.push(("x".to_string(), SemType::Unknown));
    a.consumed_bindings.push("y".to_string());
    a.local_let_bindings.push(("y".to_string(), SemType::Unknown));
    a.close_block_scope(saved);
    assert_eq!(a.consumed_bindings, names(&["x"]));
    assert!(a.local_let_bindings.is_empty());
}

#[test]
fn a_block_binding_shadows_an_outer_one_until_the_block_closes() {
    let mut a = empty();
    a.inference_scopes.push(vec![]);
    a.declare_local_binding("x", SemType::Named("Outer".to_string()), None);
    let saved = a.open_block_scope();
    let caps = names(&["x"]);
    a.declare_local_binding("x", SemType::Named("Inner".to_string()), None);
    a.declare_local_binding("f", SemType::Unknown, Some(&caps));
    assert_eq!(a.inference_scopes, vec![names(&["x"]), names(&["x", "f"])]);
    let found = lib::analyzer::find_let_type(&a.local_let_bindings, "x").map(|t| t.display());
    assert_eq!(found, Some("Inner".to_string()));
    assert_eq!(lib::analyzer::find_names(&a.closure_binding_captures, "f"), Some(&caps));
    assert_eq!(lib::analyzer::find_names(&a.fn_scope_closure_captures, "f"), Some(&caps));
    a.close_block_scope(saved);
    let found = lib::analyzer::find_let_type(&a.local_let_bindings, "x").map(|t| t.display());
    assert_eq!(found, Some("Outer".to_string()));
    assert_eq!(lib::analyzer::find_names(&a.closure_binding_captures, "f"), None);
    assert_eq!(lib::analyzer::find_names(&a.fn_scope_closure_captures, "f"), Some(&caps));
    assert_eq!(a.inference_scopes, vec![names(&["x"])]);
}

#[test]
fn closing_a_block_gives_back_its_frames_even_after_unbalanced_work_inside() {
    let mut a = empty();
    a.inference_scopes.push(names(&["outer"]));
    let saved = a.open_block_scope();
    a.inference_scopes.push(names(&["stray"]));
    a.inference_scopes.push(names(&["another"]));
    a.local_let_bindings.push(("inner".to_string(), SemType::Unknown));
    a.close_block_scope(saved);
    assert_eq!(a.inference_scopes, vec![names(&["outer"])]);
    assert!(a.local_let_bindings.is_empty());
}

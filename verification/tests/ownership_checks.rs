use lib::analyzer::SemanticAnalyzer;
use lib::ast::{Expr, Ident, Literal, ParamConvention, Span};
use lib::error::CompilerError;
use lib::exclusivity::same_names;
use lib::symbols::{LetInfo, ParamInfo, SymbolTable};
use lib::ast::Visibility;
use lib::sem_type::SemType;

fn loc(n: usize) -> Span {
    Span { start: n, end: n + 1 }
}

fn word(text: &str) -> Ident {
    Ident { name: text.to_string(), span: loc(0) }
}

fn path(parts: &[&str]) -> Expr {
    Expr::Reference { path: parts.iter().map(|p| word(p)).collect(), span: loc(0) }
}

fn strings(parts: &[&str]) -> Vec<String> {
    parts.iter().map(|p| p.to_string()).collect()
}

fn sorted(mut v: Vec<String>) -> Vec<String> {
    v.sort();
    v
}

fn param(name: &str, convention: ParamConvention) -> ParamInfo {
    ParamInfo { convention, name: word(name), external_label: None, ty: None, default: None }
}

fn empty() -> SemanticAnalyzer {
    SemanticAnalyzer::new(SymbolTable::new())
}

#[test]
fn consuming_a_closure_consumes_what_it_captures_transitively() {
    let mut a = empty();
    a.closure_binding_captures.push(("outer".to_string(), strings(&["inner", "x"])));
    a.closure_binding_captures.push(("inner".to_string(), strings(&["y"])));
    a.mark_captures_consumed(&strings(&["outer"]));
    assert_eq!(sorted(a.consumed_bindings.clone()), strings(&["inner", "outer", "x", "y"]));
}

#[test]
fn an_escaping_closure_binding_takes_its_captures_with_it() {
    let mut a = empty();
    a.closure_binding_captures.push(("f".to_string(), strings(&["count"])));
    a.escape_closure_value(&path(&["f"]));
    assert_eq!(a.consumed_bindings, strings(&["count"]));
    a.escape_closure_value(&path(&["plain"]));
    assert_eq!(a.consumed_bindings, strings(&["count"]));
}

#[test]
fn frames_hold_the_bindings_from_outside_a_body() {
    let mut a = empty();
    a.local_let_bindings.push(("total".to_string(), SemType::Unknown));
    assert!(!a.sink_repeats("total"));
    a.push_outer_frame(false);
    assert!(a.sink_repeats("total"));
    assert!(!a.is_closure_capture("total"));
    a.pop_outer_frame();
    a.push_outer_frame(true);
    assert!(a.is_closure_capture("total"));
    assert!(a.sink_repeats("total"));
    assert!(!a.sink_repeats("inside"));
    a.pop_outer_frame();
    assert!(a.outer_frames.is_empty());
    a.pop_outer_frame();
    assert!(a.outer_frames.is_empty());
}

#[test]
fn a_sink_of_a_non_sink_parameter_is_a_mutability_mismatch() {
    let mut a = empty();
    a.current_fn_param_conventions.push(("borrowed".to_string(), ParamConvention::Let));
    a.current_fn_param_conventions.push(("owned".to_string(), ParamConvention::Sink));
    a.check_sink_owner("borrowed", loc(1));
    a.check_sink_owner("owned", loc(2));
    a.push_outer_frame(false);
    a.check_sink_owner("owned", loc(3));
    assert_eq!(a.errors.len(), 1);
    assert!(matches!(&a.errors[0], CompilerError::MutabilityMismatch { param, span } if param == "borrowed" && *span == loc(1)));
}

#[test]
fn a_sink_inside_a_loop_of_an_outside_binding_is_a_use_after_sink() {
    let mut a = empty();
    a.local_let_bindings.push(("items".to_string(), SemType::Unknown));
    a.push_outer_frame(false);
    a.check_sink_owner("items", loc(4));
    assert_eq!(a.errors.len(), 1);
    assert!(matches!(&a.errors[0], CompilerError::UseAfterSink { name, span } if name == "items" && *span == loc(4)));
}

#[test]
fn a_module_level_let_cannot_be_given_away() {
    let mut symbols = SymbolTable::new();
    symbols.lets.push(LetInfo { name: "config".to_string(), visibility: Visibility::Public, ty: SemType::Unknown });
    let mut a = SemanticAnalyzer::new(symbols);
    a.check_sink_owner("config", loc(5));
    assert_eq!(a.errors.len(), 1);
    assert!(matches!(&a.errors[0], CompilerError::UseAfterSink { name, .. } if name == "config"));
}

#[test]
fn names_in_scope_cover_lets_locals_and_declarations() {
    let mut symbols = SymbolTable::new();
    symbols.lets.push(LetInfo { name: "limit".to_string(), visibility: Visibility::Private, ty: SemType::Unknown });
    let mut a = SemanticAnalyzer::new(symbols);
    a.loop_var_scopes.push(strings(&["i"]));
    a.local_let_bindings.push(("acc".to_string(), SemType::Unknown));
    assert!(a.names_a_local_binding("i"));
    assert!(!a.names_a_local_binding("acc"));
    assert!(a.names_a_value_in_scope("acc"));
    assert!(a.names_a_value_in_scope("limit"));
    assert!(!a.names_a_value_in_scope("missing"));
}

#[test]
fn mut_arguments_need_mutable_places_and_sinks_consume() {
    let mut a = empty();
    a.local_let_bindings.push(("buffer".to_string(), SemType::Unknown));
    let params = vec![param("target", ParamConvention::Mut), param("source", ParamConvention::Sink)];
    let args = vec![(None, path(&["buffer"])), (None, path(&["buffer"]))];
    a.validate_mut_param_args(&params, &args, &vec![false, true], loc(6));
    let kinds: Vec<String> = a.errors.iter().map(|e| format!("{e:?}")).collect();
    assert_eq!(a.errors.len(), 2, "{kinds:?}");
    assert!(matches!(&a.errors[0], CompilerError::MutabilityMismatch { param, span } if param == "target" && *span == loc(6)));
    assert!(matches!(&a.errors[1], CompilerError::OverlappingArguments { path, .. } if path == "buffer"));
    assert_eq!(a.consumed_bindings, strings(&["buffer"]));
}

#[test]
fn a_mut_argument_captured_by_an_enclosing_closure_is_refused() {
    let mut a = empty();
    a.local_let_bindings.push(("counter".to_string(), SemType::Unknown));
    a.push_outer_frame(true);
    let params = vec![param("target", ParamConvention::Mut)];
    a.validate_mut_param_args(&params, &vec![(None, path(&["counter"]))], &vec![true], loc(7));
    assert_eq!(a.errors.len(), 1);
    assert!(matches!(&a.errors[0], CompilerError::MutabilityMismatch { param, .. } if param == "target"));
}

#[test]
fn overlapping_places_are_reported_once_each() {
    let mut a = empty();
    let p = path(&["p"]);
    let px = Expr::FieldAccess { object: Box::new(path(&["p"])), field: word("x"), span: loc(0) };
    let py = path(&["p", "y"]);
    let fresh = Expr::Literal { value: Literal::Boolean(true), span: loc(0) };
    let accesses = vec![
        (ParamConvention::Mut, &px),
        (ParamConvention::Let, &py),
        (ParamConvention::Let, &p),
        (ParamConvention::Sink, &fresh),
        (ParamConvention::Let, &px),
    ];
    a.validate_exclusive_access(&accesses, loc(8));
    let reported: Vec<String> = a
        .errors
        .iter()
        .map(|e| match e {
            CompilerError::OverlappingArguments { path, .. } => path.clone(),
            other => panic!("unexpected {other:?}"),
        })
        .collect();
    assert_eq!(reported, strings(&["p", "p.x"]));
}

#[test]
fn two_shared_reads_of_one_place_are_fine() {
    let mut a = empty();
    let x = path(&["x"]);
    a.validate_exclusive_access(&vec![(ParamConvention::Let, &x), (ParamConvention::Let, &x)], loc(1));
    assert!(a.errors.is_empty());
}

#[test]
fn access_paths_follow_fields_groups_and_indexing() {
    let indexed = Expr::DictAccess {
        dict: Box::new(Expr::Group { expr: Box::new(path(&["xs", "items"])), span: loc(0) }),
        key: Box::new(path(&["k"])),
        span: loc(0),
    };
    assert_eq!(SemanticAnalyzer::access_path(&indexed), Some(strings(&["xs", "items"])));
    assert_eq!(SemanticAnalyzer::access_path(&Expr::Literal { value: Literal::Nil, span: loc(0) }), None);
    assert_eq!(SemanticAnalyzer::overlap(&strings(&["p", "x"]), &strings(&["p"])), Some(strings(&["p"])));
    assert_eq!(SemanticAnalyzer::overlap(&strings(&["p", "x"]), &strings(&["p", "y"])), None);
    assert!(SemanticAnalyzer::is_exclusive(ParamConvention::Sink));
    assert!(!SemanticAnalyzer::is_exclusive(ParamConvention::Let));
    assert!(same_names(&strings(&["a", "b"]), &strings(&["a", "b"])));
    assert!(!same_names(&strings(&["a"]), &strings(&["a", "b"])));
}

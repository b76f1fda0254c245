use lib::analyzer::SemanticAnalyzer;
use lib::ast::{Expr, GenericParam, Ident, Literal, ParamConvention, PrimitiveType, Span, Type};
use lib::call_shape::ParamView;
use lib::error::CompilerError;
use lib::sem_type::SemType;
use lib::symbols::{ParamInfo, SymbolTable};

fn sp(n: usize) -> Span {
    Span { start: n, end: n + 1 }
}

fn nm(text: &str, n: usize) -> Ident {
    Ident { name: text.to_string(), span: sp(n) }
}

fn arg(label: Option<(&str, usize)>) -> (Option<Ident>, Expr) {
    (label.map(|(l, n)| nm(l, n)), Expr::Literal { value: Literal::Boolean(true), span: sp(0) })
}

fn info(name: &str, label: Option<&str>, ty: Option<Type>, default: bool) -> ParamInfo {
    ParamInfo {
        convention: ParamConvention::Let,
        name: nm(name, 0),
        external_label: label.map(|l| nm(l, 0)),
        ty,
        default: if default { Some(Expr::Literal { value: Literal::Nil, span: sp(0) }) } else { None },
    }
}

fn fresh() -> SemanticAnalyzer {
    SemanticAnalyzer::new(SymbolTable::new())
}

/// `fn move(self, to x: I32, y: I32 = 0)`.
fn move_params() -> Vec<ParamInfo> {
    vec![
        info("self", None, None, false),
        info("x", Some("to"), Some(Type::Primitive(PrimitiveType::I32)), false),
        info("y", None, Some(Type::Primitive(PrimitiveType::I64)), true),
    ]
}

#[test]
fn positions_and_labels_fill_the_parameters() {
    let params = move_params();
    let views: Vec<ParamView> = params.iter().map(ParamView::of_param_info).collect();
    let mut a = fresh();
    assert!(a.validate_call_shape("Method 'move'", "move", &views, &vec![arg(None)], sp(1)));
    assert!(a.validate_call_shape("Method 'move'", "move", &views, &vec![arg(Some(("y", 2))), arg(Some(("to", 3)))], sp(1)));
    assert!(a.errors.is_empty(), "{:?}", a.errors);
}

#[test]
fn a_missing_required_parameter_is_a_count_mismatch() {
    let params = move_params();
    let views: Vec<ParamView> = params.iter().map(ParamView::of_param_info).collect();
    let mut a = fresh();
    assert!(!a.validate_call_shape("Method 'move'", "move", &views, &vec![arg(Some(("y", 2)))], sp(4)));
    assert_eq!(a.errors.len(), 1);
    assert!(matches!(&a.errors[0], CompilerError::ArgumentCountMismatch { callee, expected, actual, span }
        if callee == "Method 'move'" && *expected == 1 && *actual == 1 && *span == sp(4)));
}

#[test]
fn too_many_arguments_and_unknown_labels_are_reported() {
    let params = move_params();
    let views: Vec<ParamView> = params.iter().map(ParamView::of_param_info).collect();
    let mut a = fresh();
    assert!(!a.validate_call_shape("Method 'move'", "move", &views, &vec![arg(None), arg(None), arg(None)], sp(1)));
    assert!(!a.validate_call_shape("Method 'move'", "move", &views, &vec![arg(Some(("z", 5)))], sp(2)));
    assert_eq!(a.errors.len(), 2);
    assert!(matches!(&a.errors[0], CompilerError::ArgumentCountMismatch { expected, actual, .. } if *expected == 2 && *actual == 3));
    assert!(matches!(&a.errors[1], CompilerError::NoMatchingOverload { function, span } if function == "move" && *span == sp(2)));
}

#[test]
fn a_parameter_given_twice_is_a_duplicate_argument() {
    let params = move_params();
    let views: Vec<ParamView> = params.iter().map(ParamView::of_param_info).collect();
    let mut a = fresh();
    assert!(!a.validate_call_shape("Method 'move'", "move", &views, &vec![arg(None), arg(Some(("x", 3)))], sp(6)));
    assert_eq!(a.errors.len(), 1);
    assert!(matches!(&a.errors[0], CompilerError::DuplicateDefinition { name, span } if name == "argument 'x'" && *span == sp(6)));
}

#[test]
fn a_repeated_label_is_reported_where_it_repeats() {
    let mut a = fresh();
    assert!(a.check_repeated_labels(&vec![arg(Some(("a", 1))), arg(None), arg(Some(("b", 2)))]));
    assert!(!a.check_repeated_labels(&vec![arg(Some(("a", 1))), arg(Some(("a", 7)))]));
    assert_eq!(a.errors.len(), 1);
    assert!(matches!(&a.errors[0], CompilerError::DuplicateDefinition { name, span } if name == "argument 'a'" && *span == sp(7)));
}

#[test]
fn a_closure_takes_unlabelled_arguments_of_its_count() {
    let mut a = fresh();
    let params = vec![(ParamConvention::Let, SemType::Primitive(PrimitiveType::I32))];
    let i32_ty = || SemType::Primitive(PrimitiveType::I32);
    a.validate_closure_call_shape(&params, &vec![arg(None)], &vec![i32_ty()], &vec![true], sp(1));
    a.validate_closure_call_shape(&params, &vec![arg(Some(("n", 3))), arg(None)], &vec![i32_ty(), i32_ty()], &vec![true, true], sp(2));
    assert_eq!(a.errors.len(), 2);
    assert!(matches!(&a.errors[0], CompilerError::LabelledClosureArgument { label, span } if label == "n" && *span == sp(3)));
    assert!(matches!(&a.errors[1], CompilerError::ArgumentCountMismatch { callee, expected, actual, .. }
        if callee == "This closure" && *expected == 1 && *actual == 2));
}

#[test]
fn a_type_parameter_that_no_argument_fixes_is_uninferable() {
    let mut a = fresh();
    let generics = vec![
        GenericParam { name: nm("T", 0), constraints: vec![], span: sp(0) },
        GenericParam { name: nm("U", 0), constraints: vec![], span: sp(0) },
    ];
    let params = vec![
        info("value", None, Some(Type::Ident(nm("T", 0))), false),
        info("fallback", None, Some(Type::Ident(nm("U", 0))), true),
    ];
    a.check_type_params_given("pick", &params, &generics, &vec![], &vec![arg(None)], sp(8));
    a.check_type_params_given("pick", &params, &generics, &vec![Type::Primitive(PrimitiveType::I32)], &vec![arg(None)], sp(9));
    a.check_type_params_given("pick", &params, &generics, &vec![], &vec![arg(None), arg(Some(("fallback", 1)))], sp(10));
    assert_eq!(a.errors.len(), 1);
    assert!(matches!(&a.errors[0], CompilerError::UninferableMethodTypeParameter { param, method, span }
        if param == "U" && method == "pick" && *span == sp(8)));
}

#[test]
fn the_expected_type_of_an_argument_comes_from_its_parameter() {
    let params = move_params();
    let views: Vec<ParamView> = params.iter().map(ParamView::of_param_info).collect();
    let by_position = SemanticAnalyzer::expected_argument(&views, 0, None);
    assert!(matches!(by_position, SemType::Primitive(PrimitiveType::I32)));
    let label = nm("y", 0);
    let by_label = SemanticAnalyzer::expected_argument(&views, 0, Some(&label));
    assert!(matches!(by_label, SemType::Primitive(PrimitiveType::I64)));
    let past_the_end = SemanticAnalyzer::expected_argument(&views, 5, None);
    assert!(matches!(past_the_end, SemType::Unknown));
}

#[test]
fn outer_shapes_compare_only_the_outermost_constructor() {
    let declared = Type::Array(Box::new(Type::Primitive(PrimitiveType::I32)));
    assert!(SemanticAnalyzer::outer_shapes_agree(&declared, &SemType::Array(Box::new(SemType::Primitive(PrimitiveType::String)))));
    assert!(!SemanticAnalyzer::outer_shapes_agree(&declared, &SemType::Primitive(PrimitiveType::I32)));
    assert!(SemanticAnalyzer::outer_shapes_agree(&declared, &SemType::Unknown));
    let closure = Type::Closure { params: vec![(ParamConvention::Let, Type::Primitive(PrimitiveType::I32))], ret: Box::new(Type::Primitive(PrimitiveType::I32)) };
    let no_params = SemType::Closure { params: vec![], return_ty: Box::new(SemType::Primitive(PrimitiveType::I32)) };
    assert!(!SemanticAnalyzer::outer_shapes_agree(&closure, &no_params));
}

#[test]
fn a_closure_argument_must_fit_its_typed_parameter() {
    let mut a = fresh();
    let params = vec![
        (ParamConvention::Let, SemType::Primitive(PrimitiveType::I32)),
        (ParamConvention::Let, SemType::Unknown),
    ];
    let args = vec![
        (None, Expr::Literal { value: Literal::Boolean(true), span: sp(4) }),
        (None, Expr::Literal { value: Literal::Boolean(true), span: sp(5) }),
    ];
    let found = vec![SemType::Primitive(PrimitiveType::Boolean), SemType::Primitive(PrimitiveType::Boolean)];
    a.validate_closure_call_shape(&params, &args, &found, &vec![false, false], sp(6));
    assert_eq!(a.errors.len(), 1);
    assert!(matches!(&a.errors[0], CompilerError::TypeMismatch { expected, found, span }
        if expected == "I32" && found == "Boolean" && *span == sp(4)));
}

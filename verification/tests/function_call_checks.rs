use lib::analyzer::SemanticAnalyzer;
use lib::ast::{
    Expr, GenericConstraint, GenericParam, Ident, Literal, NumberLiteral, NumberSourceKind, NumberValue, ParamConvention, PrimitiveType, Span,
    Type, Visibility,
};
use lib::error::CompilerError;
use lib::function_calls::{simple_name, ArgumentFacts};
use lib::sem_type::SemType;
use lib::symbols::{FunctionInfo, ModuleInfo, ParamInfo, SymbolTable};

fn sp_(n: usize) -> Span {
    Span { start: n, end: n + 1 }
}

fn id_(text: &str) -> Ident {
    Ident { name: text.to_string(), span: sp_(0) }
}

fn int_lit(v: i128) -> Expr {
    Expr::Literal {
        value: Literal::Number(NumberLiteral { value: NumberValue::Integer(v), suffix: None, kind: NumberSourceKind::Integer }),
        span: sp_(0),
    }
}

fn refer(name: &str) -> Expr {
    Expr::Reference { path: vec![id_(name)], span: sp_(0) }
}

fn param(name: &str, convention: ParamConvention, ty: Type) -> ParamInfo {
    ParamInfo { convention, name: id_(name), external_label: None, ty: Some(ty), default: None }
}

fn function(name: &str, generics: Vec<GenericParam>, params: Vec<ParamInfo>) -> FunctionInfo {
    FunctionInfo { name: name.to_string(), visibility: Visibility::Public, generics, params, return_type: None }
}

fn i32_t() -> Type {
    Type::Primitive(PrimitiveType::I32)
}

fn i32_s() -> SemType {
    SemType::Primitive(PrimitiveType::I32)
}

/// Facts for `n` arguments that are all mutable places of type `I32`
/// and fit every parameter, for `k` overloads that the call's shape fits.
fn facts(n: usize, k: usize) -> ArgumentFacts {
    ArgumentFacts {
        mutable: vec![true; n],
        types: (0..n).map(|_| i32_s()).collect(),
        closure_fits: vec![true; n],
        shaped: vec![true; k],
        satisfies: (0..k).map(|_| vec![true; n]).collect(),
        substituted: (0..n).map(|_| None).collect(),
        substituted_fits: vec![true; n],
    }
}

#[test]
fn the_simple_name_is_the_text_after_the_last_separator() {
    assert_eq!(simple_name("math::trig::sin"), "sin");
    assert_eq!(simple_name("compute"), "compute");
    assert_eq!(simple_name("a:::b"), "b");
}

#[test]
fn a_call_through_a_closure_binding_checks_its_captures_and_conventions() {
    let mut a = SemanticAnalyzer::new(SymbolTable::new());
    a.closure_binding_captures.push(("f".to_string(), vec!["n".to_string(), "m".to_string()]));
    a.consumed_bindings.push("m".to_string());
    let params = vec![(ParamConvention::Mut, i32_s())];
    let mut f = facts(1, 0);
    f.mutable = vec![false];
    a.validate_function_call_target("f", &vec![], &vec![(None, refer("x"))], &vec![], Some(&params), None, &f, sp_(4));
    assert_eq!(a.errors.len(), 2, "{:?}", a.errors);
    assert!(matches!(&a.errors[0], CompilerError::UseAfterSink { name, span } if name == "m" && *span == sp_(4)));
    assert!(matches!(&a.errors[1], CompilerError::MutabilityMismatch { param, .. } if param == "arg0"));
    // One argument too many for the closure.
    a.validate_function_call_target("f", &vec![], &vec![(None, refer("x")), (None, refer("y"))], &vec![], Some(&params), None, &facts(2, 0), sp_(5));
    assert!(matches!(a.errors.last(), Some(CompilerError::ArgumentCountMismatch { callee, expected, actual, .. })
        if callee == "This closure" && *expected == 1 && *actual == 2));
}

#[test]
fn an_unknown_name_and_an_absent_closure_are_reported() {
    let mut math = SymbolTable::new();
    math.functions.push(function("compute", vec![], vec![]));
    let mut st = SymbolTable::new();
    st.modules.push(ModuleInfo { name: "math".to_string(), visibility: Visibility::Public, symbols: math });
    let mut a = SemanticAnalyzer::new(st);
    a.validate_function_call_target("math::compute", &vec![], &vec![], &vec![], None, None, &facts(0, 0), sp_(1));
    assert!(a.errors.is_empty());
    a.validate_function_call_target("nothing", &vec![], &vec![], &vec![], None, None, &facts(0, 0), sp_(2));
    assert!(matches!(&a.errors[0], CompilerError::UndefinedReference { name, span } if name == "nothing" && *span == sp_(2)));
    let maybe = SemType::Optional(Box::new(SemType::Closure { params: vec![], return_ty: Box::new(i32_s()) }));
    a.validate_function_call_target("g", &vec![], &vec![], &vec![], None, Some(&maybe), &facts(0, 0), sp_(3));
    assert!(matches!(&a.errors[1], CompilerError::OptionalUsedAsNonOptional { actual, expected, .. }
        if actual == "() -> I32?" && expected == "() -> I32"));
}

#[test]
fn a_call_with_one_overload_is_checked_against_it() {
    let mut a = SemanticAnalyzer::new(SymbolTable::new());
    let g = vec![function("g", vec![], vec![param("into", ParamConvention::Mut, i32_t())])];
    // Type arguments on a function without type parameters.
    a.validate_function_call_target("g", &vec![i32_t()], &vec![(None, refer("x"))], &g, None, None, &facts(1, 1), sp_(1));
    assert_eq!(a.errors.len(), 1);
    assert!(matches!(&a.errors[0], CompilerError::GenericArityMismatch { name, expected, actual, .. }
        if name == "g" && *expected == 0 && *actual == 1));
    // Too many arguments: the shape is wrong, and nothing else is checked.
    let mut two = facts(2, 1);
    two.mutable = vec![false, false];
    a.validate_function_call_target("g", &vec![], &vec![(None, refer("x")), (None, int_lit(1))], &g, None, None, &two, sp_(2));
    assert_eq!(a.errors.len(), 2);
    assert!(matches!(&a.errors[1], CompilerError::ArgumentCountMismatch { callee, expected, actual, .. }
        if callee == "Function 'g'" && *expected == 1 && *actual == 2));
    // The right shape, with an immutable argument at a `mut` parameter.
    let mut one = facts(1, 1);
    one.mutable = vec![false];
    a.validate_function_call_target("g", &vec![], &vec![(None, refer("x"))], &g, None, None, &one, sp_(3));
    assert_eq!(a.errors.len(), 3);
    assert!(matches!(&a.errors[2], CompilerError::MutabilityMismatch { param, .. } if param == "into"));
    // A label given twice stops the check.
    a.validate_function_call_target("g", &vec![], &vec![(Some(id_("into")), refer("x")), (Some(id_("into")), refer("y"))], &g, None, None, &facts(2, 1), sp_(4));
    assert_eq!(a.errors.len(), 4);
    assert!(matches!(&a.errors[3], CompilerError::DuplicateDefinition { name, .. } if name == "argument 'into'"));
}

#[test]
fn a_call_with_several_overloads_is_resolved_first() {
    let mut a = SemanticAnalyzer::new(SymbolTable::new());
    let width = vec![
        function("width", vec![], vec![param("v", ParamConvention::Let, i32_t())]),
        function("width", vec![], vec![param("v", ParamConvention::Mut, Type::Primitive(PrimitiveType::I64))]),
    ];
    let args = vec![(None, refer("x"))];
    let mut none_fit = facts(1, 2);
    none_fit.shaped = vec![false, false];
    a.validate_function_call_target("m::width", &vec![], &args, &width, None, None, &none_fit, sp_(1));
    assert!(matches!(&a.errors[0], CompilerError::NoMatchingOverload { function, .. } if function == "width"));
    a.validate_function_call_target("width", &vec![], &args, &width, None, None, &facts(1, 2), sp_(2));
    assert!(matches!(&a.errors[1], CompilerError::AmbiguousCall { function, .. } if function == "width"));
    // Only the second fits; it takes a `mut` argument, which `x` is not.
    let mut second = facts(1, 2);
    second.satisfies = vec![vec![false], vec![true]];
    second.types = vec![SemType::Primitive(PrimitiveType::I64)];
    second.mutable = vec![false];
    a.validate_function_call_target("width", &vec![], &args, &width, None, None, &second, sp_(3));
    assert_eq!(a.errors.len(), 3);
    assert!(matches!(&a.errors[2], CompilerError::MutabilityMismatch { param, .. } if param == "v"));
    // The call resolved to the second overload, and that is recorded.
    assert_eq!(a.symbols.overload_choices.len(), 1);
    assert_eq!(a.symbols.overload_choices[0], (sp_(3), "width".to_string(), 1));
}

fn bounded(name: &str, bound: &str) -> GenericParam {
    GenericParam {
        name: id_(name),
        constraints: vec![GenericConstraint::Trait { name: id_(bound), args: vec![] }],
        span: sp_(0),
    }
}

fn at_(e: Expr, n: usize) -> Expr {
    match e {
        Expr::Reference { path, .. } => Expr::Reference { path, span: sp_(n) },
        other => other,
    }
}

#[test]
fn a_written_type_argument_must_meet_its_bound() {
    let mut st = SymbolTable::new();
    st.trait_impls.push(("Square".to_string(), "Shape".to_string()));
    let mut a = SemanticAnalyzer::new(st);
    let total = vec![function("total", vec![bounded("T", "Shape")], vec![param("item", ParamConvention::Let, Type::Ident(id_("T")))])];
    let plain = Type::Ident(id_("Plain"));
    let square = Type::Ident(id_("Square"));
    let mut sq = facts(1, 1);
    sq.types = vec![SemType::Named("Square".to_string())];
    a.validate_function_call_target("total", &vec![square], &vec![(None, refer("s"))], &total, None, None, &sq, sp_(1));
    assert!(a.errors.is_empty(), "{:?}", a.errors);
    let mut unknown = facts(1, 1);
    unknown.types = vec![SemType::Unknown];
    a.validate_function_call_target("total", &vec![plain], &vec![(None, refer("p"))], &total, None, None, &unknown, sp_(2));
    assert_eq!(a.errors.len(), 1, "{:?}", a.errors);
    assert!(matches!(&a.errors[0], CompilerError::GenericConstraintViolation { arg, constraint, span }
        if arg == "Plain" && constraint == "Shape" && *span == sp_(2)));
}

#[test]
fn an_argument_must_satisfy_its_parameter_type() {
    let mut a = SemanticAnalyzer::new(SymbolTable::new());
    let g = vec![function("g", vec![], vec![param("n", ParamConvention::Let, i32_t())])];
    let mut f = facts(1, 1);
    f.types = vec![SemType::Primitive(PrimitiveType::String)];
    f.satisfies = vec![vec![false]];
    a.validate_function_call_target("g", &vec![], &vec![(Some(id_("n")), at_(refer("text"), 7))], &g, None, None, &f, sp_(1));
    assert_eq!(a.errors.len(), 1, "{:?}", a.errors);
    assert!(matches!(&a.errors[0], CompilerError::TypeMismatch { expected, found, span }
        if expected == "I32" && found == "String" && *span == sp_(7)));
}

#[test]
fn an_argument_for_a_type_parameter_meets_its_bound_and_shape() {
    let mut a = SemanticAnalyzer::new(SymbolTable::new());
    let total = vec![function("total", vec![bounded("T", "Shape")], vec![param("item", ParamConvention::Let, Type::Ident(id_("T")))])];
    let mut f = facts(1, 1);
    f.types = vec![SemType::Named("Plain".to_string())];
    a.validate_function_call_target("total", &vec![], &vec![(None, at_(refer("p"), 5))], &total, None, None, &f, sp_(1));
    assert_eq!(a.errors.len(), 1, "{:?}", a.errors);
    assert!(matches!(&a.errors[0], CompilerError::GenericConstraintViolation { arg, constraint, span }
        if arg == "Plain" && constraint == "Shape" && *span == sp_(5)));
    // `fn each(xs: [T])` takes an array whatever `T` is; a number is not one.
    let each = vec![function("each", vec![GenericParam { name: id_("T"), constraints: vec![], span: sp_(0) }],
        vec![param("xs", ParamConvention::Let, Type::Array(Box::new(Type::Ident(id_("T")))))])];
    let mut g = facts(1, 1);
    g.types = vec![i32_s()];
    a.validate_function_call_target("each", &vec![], &vec![(None, at_(refer("n"), 6))], &each, None, None, &g, sp_(2));
    assert_eq!(a.errors.len(), 2, "{:?}", a.errors);
    assert!(matches!(&a.errors[1], CompilerError::TypeMismatch { expected, found, span }
        if expected == "[T]" && found == "I32" && *span == sp_(6)));
    // The substituted type of a parameter is compared too.
    let id_fn = vec![function("id", vec![GenericParam { name: id_("T"), constraints: vec![], span: sp_(0) }],
        vec![param("x", ParamConvention::Let, Type::Ident(id_("T")))])];
    let mut h = facts(1, 1);
    h.types = vec![SemType::Primitive(PrimitiveType::String)];
    h.substituted = vec![Some(i32_s())];
    h.substituted_fits = vec![false];
    a.validate_function_call_target("id", &vec![i32_t()], &vec![(None, at_(refer("s"), 8))], &id_fn, None, None, &h, sp_(3));
    assert_eq!(a.errors.len(), 3, "{:?}", a.errors);
    assert!(matches!(&a.errors[2], CompilerError::TypeMismatch { expected, found, span }
        if expected == "I32" && found == "String" && *span == sp_(8)));
}

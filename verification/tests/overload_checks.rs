use lib::analyzer::SemanticAnalyzer;
use lib::ast::{
    Expr, FnParam, GenericConstraint, GenericParam, Ident, Literal, NumberLiteral, NumberSourceKind, NumberValue,
    ParamConvention, PrimitiveType, Span, Type, Visibility,
};
use lib::call_shape::ParamView;
use lib::error::CompilerError;
use lib::sem_type::SemType;
use lib::symbols::{FunctionInfo, ModuleInfo, ParamInfo, StructInfo, SymbolTable};

fn sp_(n: usize) -> Span {
    Span { start: n, end: n + 1 }
}

fn id_(text: &str) -> Ident {
    Ident { name: text.to_string(), span: sp_(0) }
}

fn int_lit(v: i128, n: usize) -> Expr {
    Expr::Literal {
        value: Literal::Number(NumberLiteral { value: NumberValue::Integer(v), suffix: None, kind: NumberSourceKind::Integer }),
        span: sp_(n),
    }
}

fn refer(name: &str) -> Expr {
    Expr::Reference { path: vec![id_(name)], span: sp_(0) }
}

fn info_param(name: &str, ty: Option<Type>, has_default: bool) -> ParamInfo {
    ParamInfo {
        convention: ParamConvention::Let,
        name: id_(name),
        external_label: None,
        ty,
        default: if has_default { Some(int_lit(0, 0)) } else { None },
    }
}

fn function(name: &str, params: Vec<ParamInfo>) -> FunctionInfo {
    FunctionInfo { name: name.to_string(), visibility: Visibility::Public, generics: vec![], params, return_type: None }
}

fn i32_() -> Type {
    Type::Primitive(PrimitiveType::I32)
}

fn i64_() -> Type {
    Type::Primitive(PrimitiveType::I64)
}

fn module(name: &str, symbols: SymbolTable) -> ModuleInfo {
    ModuleInfo { name: name.to_string(), visibility: Visibility::Public, symbols }
}

#[test]
fn a_qualified_function_is_found_one_or_two_modules_deep() {
    let mut trig = SymbolTable::new();
    trig.functions.push(function("sin", vec![]));
    let mut math = SymbolTable::new();
    math.functions.push(function("compute", vec![]));
    math.modules.push(module("trig", trig));
    let mut st = SymbolTable::new();
    st.modules.push(module("math", math));
    let a = SemanticAnalyzer::new(st);
    assert!(a.resolve_qualified_function("math::compute"));
    assert!(a.resolve_qualified_function("math::trig::sin"));
    assert!(!a.resolve_qualified_function("math::missing"));
    assert!(!a.resolve_qualified_function("math::trig::cos"));
    assert!(!a.resolve_qualified_function("physics::compute"));
    assert!(!a.resolve_qualified_function("compute"));
    assert!(!a.resolve_qualified_function("math::nowhere::sin"));
}

fn shape_symbols() -> SymbolTable {
    let mut st = SymbolTable::new();
    st.structs.push(StructInfo { name: "Square".to_string(), visibility: Visibility::Public, generics: vec![], fields: vec![] });
    st.structs.push(StructInfo { name: "Plain".to_string(), visibility: Visibility::Public, generics: vec![], fields: vec![] });
    st.trait_impls.push(("Square".to_string(), "Shape".to_string()));
    st.trait_impls.push(("I32".to_string(), "Shape".to_string()));
    st
}

#[test]
fn a_type_implements_a_trait_by_an_impl_or_by_its_bounds() {
    let mut a = SemanticAnalyzer::new(shape_symbols());
    a.type_param_bounds.push(("T".to_string(), vec!["Shape".to_string(), "Named".to_string()]));
    assert!(a.implements_trait("Square", "Shape"));
    assert!(!a.implements_trait("Plain", "Shape"));
    assert!(a.implements_trait("T", "Named"));
    assert!(!a.implements_trait("T", "Other"));
    assert!(a.sem_type_satisfies_trait(&SemType::Named("Square".to_string()), "Shape"));
    assert!(a.sem_type_satisfies_trait(&SemType::Primitive(PrimitiveType::I32), "Shape"));
    assert!(!a.sem_type_satisfies_trait(&SemType::Primitive(PrimitiveType::I64), "Shape"));
    assert!(a.sem_type_satisfies_trait(&SemType::Generic { base: "Square".to_string(), args: vec![] }, "Shape"));
    assert!(a.sem_type_satisfies_trait(&SemType::Unknown, "Shape"));
    assert!(a.sem_type_satisfies_trait(&SemType::Nil, "Shape"));
    assert!(!a.sem_type_satisfies_trait(&SemType::Array(Box::new(SemType::Named("Square".to_string()))), "Shape"));
}

#[test]
fn an_argument_that_misses_a_bound_is_reported_once_per_bound() {
    let mut a = SemanticAnalyzer::new(shape_symbols());
    let generic = GenericParam {
        name: id_("T"),
        constraints: vec![
            GenericConstraint::Trait { name: id_("Shape"), args: vec![] },
            GenericConstraint::Trait { name: id_("Named"), args: vec![] },
        ],
        span: sp_(0),
    };
    let arg = int_lit(1, 7);
    a.check_generic_bounds(&generic, &arg, &SemType::Named("Plain".to_string()));
    assert_eq!(a.errors.len(), 2);
    assert!(matches!(&a.errors[0], CompilerError::GenericConstraintViolation { arg, constraint, span }
        if arg == "Plain" && constraint == "Shape" && *span == sp_(7)));
    assert!(matches!(&a.errors[1], CompilerError::GenericConstraintViolation { constraint, .. } if constraint == "Named"));
    a.check_generic_bounds(&generic, &arg, &SemType::Unknown);
    assert_eq!(a.errors.len(), 2);
    let unbounded = GenericParam { name: id_("U"), constraints: vec![], span: sp_(0) };
    a.check_generic_bounds(&unbounded, &arg, &SemType::Named("Plain".to_string()));
    assert_eq!(a.errors.len(), 2);
    let shape_only = GenericParam { name: id_("S"), constraints: vec![GenericConstraint::Trait { name: id_("Shape"), args: vec![] }], span: sp_(0) };
    a.check_generic_bounds(&shape_only, &arg, &SemType::Named("Square".to_string()));
    assert_eq!(a.errors.len(), 2);
}

fn view_params() -> Vec<FnParam> {
    vec![
        FnParam { convention: ParamConvention::Let, external_label: None, name: id_("self"), ty: None, default: None, span: sp_(0) },
        FnParam { convention: ParamConvention::Let, external_label: Some(id_("by")), name: id_("amount"), ty: Some(i64_()), default: None, span: sp_(0) },
        FnParam { convention: ParamConvention::Let, external_label: None, name: id_("item"), ty: Some(Type::Ident(id_("T"))), default: None, span: sp_(0) },
    ]
}

#[test]
fn argument_types_fit_their_parameters() {
    let a = SemanticAnalyzer::new(SymbolTable::new());
    let params = view_params();
    let views: Vec<ParamView> = params.iter().map(ParamView::of_fn_param).collect();
    let names = vec!["T".to_string()];
    let args = vec![(None, int_lit(3, 1)), (None, refer("x"))];
    let types = vec![SemType::Primitive(PrimitiveType::I32), SemType::Primitive(PrimitiveType::String)];
    // The literal is an I32, so only a lenient match lets it fill an I64.
    assert!(!a.argument_types_fit(&views, &names, &args, false, &types, &vec![false, false]));
    assert!(a.argument_types_fit(&views, &names, &args, true, &types, &vec![false, false]));
    // A labelled argument fills the parameter its label names.
    let labelled = vec![(Some(id_("by")), refer("y"))];
    assert!(!a.argument_types_fit(&views, &names, &labelled, true, &vec![SemType::Primitive(PrimitiveType::String)], &vec![false]));
    assert!(a.argument_types_fit(&views, &names, &labelled, false, &vec![SemType::Unknown], &vec![false]));
    assert!(a.argument_types_fit(&views, &names, &labelled, false, &vec![SemType::Primitive(PrimitiveType::I64)], &vec![true]));
    // An argument that fills no parameter fits.
    let extra = vec![(Some(id_("nothing")), refer("y"))];
    assert!(a.argument_types_fit(&views, &names, &extra, false, &vec![SemType::Primitive(PrimitiveType::String)], &vec![false]));
}

#[test]
fn the_overload_that_fits_exactly_and_fires_fewest_defaults_wins() {
    let a = SemanticAnalyzer::new(SymbolTable::new());
    let overloads = vec![
        function("width", vec![info_param("v", Some(i32_()), false)]),
        function("width", vec![info_param("v", Some(i64_()), false)]),
        function("width", vec![info_param("v", Some(i32_()), false), info_param("scale", Some(i32_()), true)]),
    ];
    let args = vec![(None, int_lit(1, 0))];
    let types = vec![SemType::Primitive(PrimitiveType::I32)];
    let shaped = vec![true, true, true];
    let exact = vec![vec![true], vec![false], vec![true]];
    let chosen = a.most_specific_overloads(&overloads, &args, &shaped, &types, &exact);
    assert_eq!(chosen.len(), 1);
    assert!(std::ptr::eq(chosen[0], &overloads[0]));
    // With no exact fit, the literal fits both numeric widths: ambiguous.
    let none_exact = vec![vec![false], vec![false], vec![false]];
    let chosen = a.most_specific_overloads(&overloads, &args, &shaped, &types, &none_exact);
    assert_eq!(chosen.len(), 2);
    assert!(std::ptr::eq(chosen[0], &overloads[0]));
    assert!(std::ptr::eq(chosen[1], &overloads[1]));
    // An overload whose labels or count do not fit is never chosen.
    let chosen = a.most_specific_overloads(&overloads, &args, &vec![false, false, true], &types, &exact);
    assert_eq!(chosen.len(), 1);
    assert!(std::ptr::eq(chosen[0], &overloads[2]));
    let text = vec![SemType::Primitive(PrimitiveType::String)];
    let none = a.most_specific_overloads(&overloads, &vec![(None, refer("s"))], &shaped, &text, &none_exact);
    assert!(none.is_empty());
}

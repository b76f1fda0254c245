use lib::analyzer::SemanticAnalyzer;
use lib::ast::{
    Definition, Expr, File, FnDef, FnParam, GenericConstraint, GenericParam, Ident, ImplDef, Literal, ModuleDef,
    ParamConvention, PrimitiveType, Span, Statement, StructDef, StructField, Type, Visibility,
};
use lib::error::CompilerError;
use lib::method_lookup::{is_primitive_name, method_lookup_name};
use lib::sem_type::SemType;
use lib::symbols::{EnumInfo, StructInfo, SymbolTable, TraitInfo};

fn sp_(n: usize) -> Span {
    Span { start: n, end: n + 1 }
}

fn id_(text: &str) -> Ident {
    Ident { name: text.to_string(), span: sp_(0) }
}

fn method(name: &str, n: usize) -> FnDef {
    FnDef { name: id_(name), generics: vec![], params: vec![], return_type: None, body: None, span: sp_(n) }
}

fn impl_block(owner: &str, methods: Vec<FnDef>) -> Definition {
    Definition::Impl(ImplDef { name: id_(owner), trait_name: None, generics: vec![], functions: methods, is_extern: false, span: sp_(0) })
}

fn stmt(d: Definition) -> Statement {
    Statement::Definition(Box::new(d))
}

fn bounded(name: &str, bound: &str) -> GenericParam {
    GenericParam { name: id_(name), constraints: vec![GenericConstraint::Trait { name: id_(bound), args: vec![] }], span: sp_(0) }
}

fn trait_info(name: &str, methods: &[&str], composed: &[&str]) -> TraitInfo {
    TraitInfo {
        name: name.to_string(),
        visibility: Visibility::Public,
        methods: methods.iter().map(|m| m.to_string()).collect(),
        composed_traits: composed.iter().map(|m| m.to_string()).collect(),
    }
}

/// `struct Point`, `enum Mode`, traits `Shape { area }`, `Named { name }`,
/// `Solid: Shape + Named` and the cycle `Loop: Loop`; `impl Named for Point`.
fn lookup_symbols() -> SymbolTable {
    let mut st = SymbolTable::new();
    st.structs.push(StructInfo { name: "Point".to_string(), visibility: Visibility::Public, generics: vec![], fields: vec![] });
    st.enums.push(EnumInfo { name: "Mode".to_string(), visibility: Visibility::Public, generics: vec![], variants: vec![], variant_fields: vec![] });
    st.traits.push(trait_info("Shape", &["area"], &[]));
    st.traits.push(trait_info("Named", &["name"], &[]));
    st.traits.push(trait_info("Solid", &["volume"], &["Loop", "Shape", "Named"]));
    st.traits.push(trait_info("Loop", &[], &["Loop"]));
    st.trait_impls.push(("Point".to_string(), "Named".to_string()));
    st
}

fn lookup_file() -> File {
    File {
        statements: vec![
            stmt(impl_block("Point", vec![method("norm", 1), method("scale", 2), method("norm", 3)])),
            stmt(impl_block("Mode", vec![method("next", 4)])),
            stmt(impl_block("String", vec![method("shout", 5)])),
            stmt(Definition::Struct(StructDef {
                visibility: Visibility::Public,
                name: id_("Holder"),
                generics: vec![bounded("T", "Shape")],
                fields: vec![
                    StructField {
                        mutable: false,
                        name: id_("on_press"),
                        ty: Type::Closure { params: vec![], ret: Box::new(Type::Primitive(PrimitiveType::I32)) },
                        default: None,
                        optional: false,
                        span: sp_(0),
                    },
                    StructField { mutable: false, name: id_("count"), ty: Type::Primitive(PrimitiveType::I32), default: None, optional: false, span: sp_(0) },
                ],
                span: sp_(0),
            })),
            stmt(Definition::Module(ModuleDef {
                visibility: Visibility::Public,
                name: id_("geo"),
                definitions: vec![impl_block("Circle", vec![method("radius", 6)]), impl_block("Point", vec![method("norm", 7)])],
                span: sp_(0),
            })),
        ],
    }
}

#[test]
fn a_lookup_name_drops_optional_marks_and_type_arguments() {
    assert_eq!(method_lookup_name("Box<T>??"), "Box");
    assert_eq!(method_lookup_name("Point?"), "Point");
    assert_eq!(method_lookup_name("m::Foo"), "m::Foo");
    assert!(is_primitive_name("String"));
    assert!(is_primitive_name("Never"));
    assert!(!is_primitive_name("Nil"));
}

#[test]
fn methods_come_from_impls_traits_and_bounds() {
    let file = lookup_file();
    let mut a = SemanticAnalyzer::new(lookup_symbols());
    assert!(a.method_exists_on_type("Point", "scale", &file));
    assert!(a.method_exists_on_type("Point?", "name", &file));
    assert!(!a.method_exists_on_type("Point", "area", &file));
    assert!(a.method_exists_on_type("Mode", "next", &file));
    assert!(a.method_exists_on_type("String", "shout", &file));
    assert!(!a.method_exists_on_type("I32", "shout", &file));
    assert!(a.method_exists_on_type("Solid", "area", &file));
    assert!(a.method_exists_on_type("Solid", "name", &file));
    assert!(!a.method_exists_on_type("Loop", "area", &file));
    assert!(a.method_exists_on_type("T", "area", &file));
    assert!(!a.method_exists_on_type("U", "area", &file));
    a.type_param_bounds.push(("U".to_string(), vec!["Named".to_string()]));
    assert!(a.method_exists_on_type("U", "name", &file));
    assert!(a.method_exists_on_type("geo::Circle", "radius", &file));
    assert!(!a.method_exists_on_type("geo::Circle", "norm", &file));
}

#[test]
fn methods_of_imported_modules_are_found() {
    let file = File { statements: vec![] };
    let mut a = SemanticAnalyzer::new(lookup_symbols());
    assert!(!a.method_exists_on_type("Circle", "radius", &file));
    a.module_files.push(File { statements: vec![stmt(impl_block("Circle", vec![method("radius", 1)]))] });
    assert!(a.method_exists_on_type("Circle", "radius", &file));
    assert!(a.method_exists_on_type("shapes::Circle", "radius", &file));
    assert!(!a.method_exists_on_type("a::b::Circle", "radius", &file));
}

#[test]
fn the_trait_chain_skips_what_is_visited() {
    let a = SemanticAnalyzer::new(lookup_symbols());
    let mut visited: Vec<String> = Vec::new();
    assert!(a.trait_chain_has_method("Solid", "name", &mut visited));
    // Each trait the search reaches is visited once and stays visited; the
    // cycle `Loop: Loop` ends.
    assert_eq!(visited, vec!["Solid".to_string(), "Loop".to_string(), "Shape".to_string(), "Named".to_string()]);
    let mut seen = vec!["Named".to_string()];
    assert!(!a.trait_chain_has_method("Solid", "name", &mut seen));
    assert_eq!(seen, vec!["Named".to_string(), "Solid".to_string(), "Loop".to_string(), "Shape".to_string()]);
}

#[test]
fn the_first_method_of_a_name_and_all_overloads() {
    let file = lookup_file();
    let found = SemanticAnalyzer::find_method_fn_def("Point", "norm", &file).expect("a method");
    assert_eq!(found.span, sp_(1));
    assert!(SemanticAnalyzer::find_method_fn_def("Point", "area", &file).is_none());
    let all = SemanticAnalyzer::find_method_overloads("Point", "norm", &file);
    let spans: Vec<Span> = all.iter().map(|(f, _)| f.span).collect();
    assert_eq!(spans, vec![sp_(1), sp_(3), sp_(7)]);
}

#[test]
fn a_closure_field_can_be_called_like_a_method() {
    let file = lookup_file();
    let a = SemanticAnalyzer::new(lookup_symbols());
    assert!(a.struct_field_is_closure("Holder<I32>?", "on_press", &file));
    assert!(!a.struct_field_is_closure("Holder", "count", &file));
    assert!(a.type_param_has_method("T", "area", &file));
    assert!(!a.type_param_has_method("T", "name", &file));
}

fn fparam(name: &str, label: Option<&str>, convention: ParamConvention) -> FnParam {
    FnParam { convention, external_label: label.map(id_), name: id_(name), ty: None, default: None, span: sp_(0) }
}

fn refer(name: &str) -> Expr {
    Expr::Reference { path: vec![id_(name)], span: sp_(0) }
}

#[test]
fn a_mut_self_needs_a_mutable_receiver_and_a_sink_self_consumes_it() {
    let mut a = SemanticAnalyzer::new(SymbolTable::new());
    let mut_self = vec![fparam("self", None, ParamConvention::Mut)];
    a.validate_fn_param_conventions_receiver(&refer("p"), &mut_self, false, sp_(3));
    a.validate_fn_param_conventions_receiver(&refer("p"), &mut_self, true, sp_(4));
    assert_eq!(a.errors.len(), 1);
    assert!(matches!(&a.errors[0], CompilerError::MutabilityMismatch { param, span } if param == "self" && *span == sp_(3)));
    let sink_self = vec![fparam("x", None, ParamConvention::Let), fparam("self", None, ParamConvention::Sink)];
    a.validate_fn_param_conventions_receiver(&refer("p"), &sink_self, false, sp_(5));
    assert_eq!(a.consumed_bindings, vec!["p".to_string()]);
}

#[test]
fn method_arguments_follow_their_parameters() {
    let mut a = SemanticAnalyzer::new(SymbolTable::new());
    a.closure_binding_captures.push(("f".to_string(), vec!["n".to_string()]));
    let params = vec![
        fparam("self", None, ParamConvention::Let),
        fparam("into", None, ParamConvention::Mut),
        fparam("callback", Some("then"), ParamConvention::Sink),
    ];
    let args = vec![(None, Expr::Literal { value: Literal::Nil, span: sp_(0) }), (Some(id_("then")), refer("f"))];
    let accesses = a.validate_fn_param_conventions_args(&params, &args, &vec![false, true], sp_(8));
    assert_eq!(a.errors.len(), 1);
    assert!(matches!(&a.errors[0], CompilerError::MutabilityMismatch { param, span } if param == "into" && *span == sp_(8)));
    let conventions: Vec<ParamConvention> = accesses.iter().map(|(c, _)| *c).collect();
    assert_eq!(conventions, vec![ParamConvention::Mut, ParamConvention::Sink]);
    let mut consumed = a.consumed_bindings.clone();
    consumed.sort();
    assert_eq!(consumed, vec!["f".to_string(), "n".to_string()]);
}

#[test]
fn closure_call_arguments_follow_the_closure_conventions() {
    let mut a = SemanticAnalyzer::new(SymbolTable::new());
    let conventions = vec![ParamConvention::Mut, ParamConvention::Sink];
    let args = vec![(None, refer("x")), (None, refer("x")), (None, refer("y"))];
    a.validate_closure_call_conventions(&conventions, &args, &vec![false, true, false], sp_(9));
    assert_eq!(a.errors.len(), 2, "{:?}", a.errors);
    assert!(matches!(&a.errors[0], CompilerError::OverlappingArguments { path, .. } if path == "x"));
    assert!(matches!(&a.errors[1], CompilerError::MutabilityMismatch { param, span } if param == "arg0" && *span == sp_(9)));
    assert_eq!(a.consumed_bindings, vec!["x".to_string()]);
}

fn typed(name: &str, default: bool) -> FnParam {
    FnParam {
        convention: ParamConvention::Let,
        external_label: None,
        name: id_(name),
        ty: Some(Type::Primitive(PrimitiveType::I32)),
        default: if default { Some(Expr::Literal { value: Literal::Nil, span: sp_(0) }) } else { None },
        span: sp_(0),
    }
}

#[test]
fn a_receiver_is_looked_up_by_the_carrier_of_its_shape() {
    let i32_ = || SemType::Primitive(PrimitiveType::I32);
    assert_eq!(SemanticAnalyzer::method_receiver_name(&SemType::Array(Box::new(i32_()))), "Array");
    assert_eq!(SemanticAnalyzer::method_receiver_name(&SemType::Optional(Box::new(i32_()))), "Optional");
    assert_eq!(
        SemanticAnalyzer::method_receiver_name(&SemType::Dictionary { key: Box::new(i32_()), value: Box::new(i32_()) }),
        "Dictionary"
    );
    assert_eq!(SemanticAnalyzer::method_receiver_name(&SemType::Generic { base: "Box".to_string(), args: vec![i32_()] }), "Box");
    assert_eq!(SemanticAnalyzer::method_receiver_name(&SemType::Named("Point".to_string())), "Point");
    assert_eq!(SemanticAnalyzer::method_receiver_name(&i32_()), "I32");
    let dict = SemType::Dictionary { key: Box::new(SemType::Primitive(PrimitiveType::String)), value: Box::new(i32_()) };
    let args = SemanticAnalyzer::receiver_type_arguments(&dict);
    assert_eq!(args.len(), 2);
    assert!(matches!(args[0], SemType::Primitive(PrimitiveType::String)));
    assert!(matches!(args[1], SemType::Primitive(PrimitiveType::I32)));
    let arr = SemanticAnalyzer::receiver_type_arguments(&SemType::Array(Box::new(i32_())));
    assert_eq!(arr.len(), 1);
    assert!(matches!(arr[0], SemType::Primitive(PrimitiveType::I32)));
    assert!(SemanticAnalyzer::receiver_type_arguments(&SemType::Named("Point".to_string())).is_empty());
}

#[test]
fn a_method_call_gives_between_its_required_and_its_declared_arguments() {
    let params = vec![fparam("self", None, ParamConvention::Let), typed("a", false), typed("b", true)];
    let arg = || (None, refer("x"));
    assert_eq!(SemanticAnalyzer::method_arity_mismatch(&params, &vec![]), Some((1, 0)));
    assert_eq!(SemanticAnalyzer::method_arity_mismatch(&params, &vec![arg()]), None);
    assert_eq!(SemanticAnalyzer::method_arity_mismatch(&params, &vec![arg(), arg()]), None);
    assert_eq!(SemanticAnalyzer::method_arity_mismatch(&params, &vec![arg(), arg(), arg()]), Some((2, 3)));
}

#[test]
fn a_call_on_a_type_reaches_only_a_method_without_self() {
    let mut a = SemanticAnalyzer::new(lookup_symbols());
    let mut zero = method("zero", 0);
    assert!(a.check_static_call(Some(&zero), "zero", "Point", sp_(1)));
    assert!(a.errors.is_empty());
    zero.params.push(fparam("self", None, ParamConvention::Let));
    assert!(!a.check_static_call(Some(&zero), "zero", "Point", sp_(2)));
    assert!(matches!(&a.errors[0], CompilerError::NotAStaticMethod { method, named_type, span }
        if method == "zero" && named_type == "Point" && *span == sp_(2)));
    assert!(!a.check_static_call(None, "one", "Point", sp_(3)));
    assert!(matches!(&a.errors[1], CompilerError::UndefinedReference { name, span }
        if name == "method 'one' on type 'Point'" && *span == sp_(3)));
    assert!(matches!(a.type_receiver(&refer("Point")), Some(SemType::Named(n)) if n == "Point"));
    assert!(a.type_receiver(&refer("Mode")).is_none());
    assert!(a.type_receiver(&refer("p")).is_none());
}

#[test]
fn a_resolved_method_call_checks_receiver_arguments_places_and_count() {
    let mut a = SemanticAnalyzer::new(lookup_symbols());
    let mut push = method("push", 0);
    push.params = vec![fparam("self", None, ParamConvention::Mut), fparam("into", None, ParamConvention::Mut), typed("n", false)];
    // `p.push(p, 1, 2)`: an immutable receiver, an immutable `mut`
    // argument that is the receiver itself, and one argument too many.
    let args = vec![(None, refer("p")), (None, refer("x")), (None, refer("y"))];
    a.validate_method_call_target(&refer("p"), "Point", &id_("push"), &args, Some(&push), false, &vec![false, true, true], sp_(6), &lookup_file());
    assert_eq!(a.errors.len(), 4, "{:?}", a.errors);
    assert!(matches!(&a.errors[0], CompilerError::MutabilityMismatch { param, .. } if param == "self"));
    assert!(matches!(&a.errors[1], CompilerError::MutabilityMismatch { param, .. } if param == "into"));
    assert!(matches!(&a.errors[2], CompilerError::OverlappingArguments { path, .. } if path == "p"));
    assert!(matches!(&a.errors[3], CompilerError::ArgumentCountMismatch { callee, expected, actual, span }
        if callee == "Method 'push'" && *expected == 2 && *actual == 3 && *span == sp_(6)));
}

#[test]
fn an_unresolved_method_call_needs_the_method_on_the_type() {
    let file = lookup_file();
    let mut a = SemanticAnalyzer::new(lookup_symbols());
    a.validate_method_call_target(&refer("p"), "Point", &id_("norm"), &vec![], None, true, &vec![], sp_(1), &file);
    a.validate_method_call_target(&refer("h"), "Holder", &id_("on_press"), &vec![], None, true, &vec![], sp_(2), &file);
    assert!(a.errors.is_empty());
    a.validate_method_call_target(&refer("p"), "Point", &id_("fly"), &vec![], None, true, &vec![], sp_(3), &file);
    assert_eq!(a.errors.len(), 1);
    assert!(matches!(&a.errors[0], CompilerError::UndefinedReference { name, span }
        if name == "method 'fly' on type 'Point'" && *span == sp_(3)));
}

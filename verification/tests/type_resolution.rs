use lib::analyzer::SemanticAnalyzer;
use lib::ast::{FieldDef, GenericParam, Ident, PrimitiveType, Span, StructDef, StructField, TraitDef, TupleTypeField, Type, Visibility};
use lib::error::CompilerError;
use lib::modules::{find_item_visibility, get_module};
use lib::module_functions::{overloads_in, qualify_type};
use lib::symbols::{EnumInfo, FunctionInfo, ModuleInfo, StructInfo, SymbolTable, TraitInfo};

fn here(n: usize) -> Span {
    Span { start: n, end: n + 1 }
}

fn ident_at(text: &str, n: usize) -> Ident {
    Ident { name: text.to_string(), span: here(n) }
}

fn structure(name: &str, visibility: Visibility, generics: &[&str]) -> StructInfo {
    StructInfo { name: name.to_string(), visibility, generics: generics.iter().map(|g| g.to_string()).collect(), fields: vec![] }
}

/// `struct Pair<A, B>`, `enum Mode`, `trait Show`, `struct Dictionary<K, V>`,
/// and `pub mod outer { pub mod inner { pub struct Item; struct Secret } mod hidden { pub struct Deep } }`.
fn world() -> SymbolTable {
    let mut inner = SymbolTable::new();
    inner.structs.push(structure("Item", Visibility::Public, &[]));
    inner.structs.push(structure("Secret", Visibility::Private, &[]));
    let mut hidden = SymbolTable::new();
    hidden.structs.push(structure("Deep", Visibility::Public, &[]));
    let mut outer = SymbolTable::new();
    outer.modules.push(ModuleInfo { name: "inner".to_string(), visibility: Visibility::Public, symbols: inner });
    outer.modules.push(ModuleInfo { name: "hidden".to_string(), visibility: Visibility::Private, symbols: hidden });
    let mut top = SymbolTable::new();
    top.structs.push(structure("Pair", Visibility::Public, &["A", "B"]));
    top.structs.push(structure("Dictionary", Visibility::Public, &["K", "V"]));
    top.structs.push(structure("Measure", Visibility::Public, &[]));
    top.structs[2].fields.push(FieldDef { name: ident_at("w", 0), ty: Type::Primitive(PrimitiveType::F64), span: here(0) });
    top.enums.push(EnumInfo { name: "Mode".to_string(), visibility: Visibility::Private, generics: vec![], variants: vec![], variant_fields: vec![] });
    top.traits.push(TraitInfo { name: "Show".to_string(), visibility: Visibility::Public, methods: vec![], composed_traits: vec![] });
    top.modules.push(ModuleInfo { name: "outer".to_string(), visibility: Visibility::Public, symbols: outer });
    top
}

fn checker() -> SemanticAnalyzer {
    SemanticAnalyzer::new(world())
}

#[test]
fn item_visibility_is_found_by_kind() {
    let st = world();
    assert_eq!(find_item_visibility(&st, "Mode"), Some(Visibility::Private));
    assert_eq!(find_item_visibility(&st, "Show"), Some(Visibility::Public));
    assert_eq!(find_item_visibility(&st, "outer"), Some(Visibility::Public));
    assert_eq!(find_item_visibility(&st, "nothing"), None);
    assert!(get_module(&st, "outer").is_some());
    assert!(get_module(&st, "inner").is_none());
}

#[test]
fn a_path_through_a_private_module_or_to_a_private_item_is_refused() {
    let mut a = checker();
    let to_item = vec![ident_at("outer", 0), ident_at("inner", 0), ident_at("Item", 0)];
    let to_secret = vec![ident_at("outer", 0), ident_at("inner", 0), ident_at("Secret", 0)];
    let through_hidden = vec![ident_at("outer", 0), ident_at("hidden", 0), ident_at("Deep", 0)];
    assert!(a.check_module_visibility(&to_item, here(1)));
    assert!(!a.check_module_visibility(&to_secret, here(2)));
    assert!(!a.check_module_visibility(&through_hidden, here(3)));
    assert_eq!(a.errors.len(), 2);
    assert!(matches!(&a.errors[0], CompilerError::VisibilityViolation { name, span } if name == "Secret" && *span == here(2)));
    assert!(matches!(&a.errors[1], CompilerError::VisibilityViolation { name, .. } if name == "hidden"));
}

#[test]
fn nested_module_types_name_what_is_missing() {
    let a = checker();
    assert_eq!(a.resolve_nested_module_type(&vec!["outer", "inner", "Item"]), None);
    assert_eq!(a.resolve_nested_module_type(&vec!["a", "T"]), Some("module 'a' not found".to_string()));
    assert_eq!(
        a.resolve_nested_module_type(&vec!["outer", "missing", "T"]),
        Some("module 'outer::missing' not found".to_string())
    );
    assert_eq!(
        a.resolve_nested_module_type(&vec!["outer", "inner", "T"]),
        Some("type 'T' not found in module 'outer::inner'".to_string())
    );
}

#[test]
fn written_types_must_exist_and_not_be_traits() {
    let mut a = checker();
    a.validate_type(&Type::Ident(ident_at("Pair", 1)), here(0));
    a.validate_type(&Type::Ident(ident_at("Show", 2)), here(0));
    a.validate_type(&Type::Ident(ident_at("Missing", 3)), here(0));
    a.validate_type(&Type::Optional(Box::new(Type::Ident(ident_at("T", 4)))), here(0));
    a.validate_type(&Type::Ident(ident_at("outer::inner::Item", 5)), here(0));
    a.validate_type(&Type::Ident(ident_at("outer::inner::Gone", 6)), here(0));
    assert_eq!(a.errors.len(), 4, "{:?}", a.errors);
    assert!(matches!(&a.errors[0], CompilerError::TraitUsedAsValueType { name, span } if name == "Show" && *span == here(2)));
    assert!(matches!(&a.errors[1], CompilerError::UndefinedType { name, span } if name == "Missing" && *span == here(3)));
    assert!(matches!(&a.errors[2], CompilerError::OutOfScopeTypeParameter { param, span } if param == "T" && *span == here(4)));
    assert!(matches!(&a.errors[3], CompilerError::UndefinedType { name, .. } if name == "type 'Gone' not found in module 'outer::inner'"));
}

#[test]
fn a_type_parameter_in_scope_shadows_everything() {
    let mut a = checker();
    a.push_generic_scope(&vec![GenericParam { name: ident_at("Show", 0), constraints: vec![], span: here(0) }]);
    assert!(a.is_type_parameter("Show"));
    a.validate_type(&Type::Ident(ident_at("Show", 1)), here(0));
    assert!(a.errors.is_empty());
    a.pop_generic_scope();
    assert!(!a.is_type_parameter("Show"));
}

#[test]
fn generic_types_take_their_declared_count_of_arguments() {
    let mut a = checker();
    let i32_ty = || Type::Primitive(PrimitiveType::I32);
    a.validate_generic_type(&ident_at("Pair", 0), &vec![i32_ty(), i32_ty()], here(1));
    a.validate_generic_type(&ident_at("Pair", 0), &vec![i32_ty()], here(2));
    a.validate_generic_type(&ident_at("Show", 3), &vec![i32_ty()], here(4));
    a.validate_generic_type(&ident_at("Dictionary", 0), &vec![Type::Ident(ident_at("Measure", 0)), i32_ty()], here(5));
    assert_eq!(a.errors.len(), 3, "{:?}", a.errors);
    assert!(matches!(&a.errors[0], CompilerError::GenericArityMismatch { name, expected, actual, span }
        if name == "Pair" && *expected == 2 && *actual == 1 && *span == here(2)));
    assert!(matches!(&a.errors[1], CompilerError::TraitUsedAsValueType { name, span } if name == "Show" && *span == here(3)));
    assert!(matches!(&a.errors[2], CompilerError::InvalidDictionaryKey { key_type, span } if key_type == "Measure" && *span == here(5)));
}

#[test]
fn a_tuple_label_may_appear_once() {
    let mut a = checker();
    let field = |label: &str, n: usize| TupleTypeField { name: Some(ident_at(label, n)), ty: Type::Primitive(PrimitiveType::I32), span: here(n) };
    a.validate_type(&Type::Tuple(vec![field("x", 1), field("y", 2), field("x", 3)]), here(0));
    assert_eq!(a.errors.len(), 1);
    assert!(matches!(&a.errors[0], CompilerError::DuplicateDefinition { name, span } if name == "tuple label 'x'" && *span == here(3)));
}

#[test]
fn struct_fields_see_the_struct_type_parameters() {
    let mut a = checker();
    let def = StructDef {
        visibility: Visibility::Public,
        name: ident_at("Boxed", 0),
        generics: vec![GenericParam { name: ident_at("T", 0), constraints: vec![], span: here(0) }],
        fields: vec![
            StructField { mutable: false, name: ident_at("value", 0), ty: Type::Ident(ident_at("T", 1)), default: None, optional: false, span: here(1) },
            StructField { mutable: false, name: ident_at("other", 0), ty: Type::Ident(ident_at("U", 2)), default: None, optional: false, span: here(2) },
        ],
        span: here(0),
    };
    a.resolve_struct_types(&def);
    assert_eq!(a.errors.len(), 1);
    assert!(matches!(&a.errors[0], CompilerError::OutOfScopeTypeParameter { param, .. } if param == "U"));
    assert!(a.generic_scopes.is_empty());
}

#[test]
fn a_trait_requires_only_traits() {
    let mut a = checker();
    let def = TraitDef {
        visibility: Visibility::Public,
        name: ident_at("Fancy", 0),
        generics: vec![],
        traits: vec![ident_at("Show", 1), ident_at("Pair", 2), ident_at("Mode", 3), ident_at("Nope", 4)],
        fields: vec![],
        methods: vec![],
        span: here(0),
    };
    a.resolve_trait_types(&def);
    assert_eq!(a.errors.len(), 3);
    assert!(matches!(&a.errors[0], CompilerError::NotATrait { name, actual_kind, .. } if name == "Pair" && actual_kind == "struct"));
    assert!(matches!(&a.errors[1], CompilerError::NotATrait { name, actual_kind, .. } if name == "Mode" && actual_kind == "enum"));
    assert!(matches!(&a.errors[2], CompilerError::UndefinedTrait { name, span } if name == "Nope" && *span == here(4)));
}

#[test]
fn type_dependencies_skip_containers_that_break_cycles() {
    let mut graph: Vec<(String, String)> = Vec::new();
    let ty = Type::Generic {
        name: ident_at("Pair", 0),
        args: vec![Type::Optional(Box::new(Type::Ident(ident_at("Node", 0)))), Type::Array(Box::new(Type::Ident(ident_at("Leaf", 0))))],
        span: here(0),
    };
    SemanticAnalyzer::add_type_dependencies(&mut graph, "Tree", &ty);
    assert_eq!(graph, vec![("Tree".to_string(), "Pair".to_string()), ("Tree".to_string(), "Node".to_string())]);
}

#[test]
fn names_a_type_covers_types_traits_and_module_paths() {
    let a = checker();
    assert!(a.names_a_type("Pair"));
    assert!(a.names_a_type("Show"));
    assert!(a.names_a_type("outer::inner::Item"));
    assert!(!a.names_a_type("outer::inner::Gone"));
    assert!(!a.names_a_type("Gone"));
}

#[test]
fn types_of_a_module_read_with_its_prefix_from_outside() {
    let module = {
        let mut t = SymbolTable::new();
        t.structs.push(structure("Item", Visibility::Public, &[]));
        t.traits.push(TraitInfo { name: "Show".to_string(), visibility: Visibility::Public, methods: vec![], composed_traits: vec![] });
        t
    };
    let written = Type::Generic {
        name: ident_at("Pair", 1),
        args: vec![
            Type::Ident(ident_at("Item", 2)),
            Type::Closure { params: vec![(lib::ast::ParamConvention::Sink, Type::Ident(ident_at("Show", 3)))], ret: Box::new(Type::Primitive(PrimitiveType::I32)) },
        ],
        span: here(0),
    };
    let qualified = qualify_type(&written, &module, "m");
    let mut names: Vec<String> = Vec::new();
    lib::type_names::for_each_named_type(&qualified, &mut names);
    assert_eq!(names, vec!["Pair".to_string(), "m::Item".to_string(), "m::Show".to_string()]);
}

#[test]
fn overloads_are_found_inside_the_named_module() {
    let mut inner = SymbolTable::new();
    let f = |n: usize| FunctionInfo { name: "id".to_string(), visibility: Visibility::Public, generics: vec![], params: vec![], return_type: Some(Type::Primitive(PrimitiveType::I32)) };
    inner.functions.push(f(0));
    inner.functions.push(FunctionInfo { name: "other".to_string(), visibility: Visibility::Public, generics: vec![], params: vec![], return_type: None });
    inner.functions.push(f(1));
    let mut st = SymbolTable::new();
    st.modules.push(ModuleInfo { name: "m".to_string(), visibility: Visibility::Public, symbols: inner });
    let (table, found) = overloads_in(&st, &vec!["m"], "id").expect("overloads");
    assert_eq!(found.len(), 2);
    assert_eq!(table.functions.len(), 3);
    assert!(overloads_in(&st, &vec!["m"], "missing").is_none());
    assert!(overloads_in(&st, &vec!["n"], "id").is_none());
}

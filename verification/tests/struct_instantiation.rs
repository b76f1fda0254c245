use lib::analyzer::SemanticAnalyzer;
use lib::ast::{
    ClosureParam, Definition, Expr, File, Ident, Literal, ModuleDef, ParamConvention, PrimitiveType, Span, Statement, StructDef,
    StructField, Type, Visibility,
};
use lib::error::CompilerError;
use lib::sem_type::SemType;
use lib::ast::{GenericParam, NumberLiteral, NumberSourceKind, NumberValue};
use lib::symbols::{StructInfo, SymbolTable};

fn pos_(n: usize) -> Span {
    Span { start: n, end: n + 1 }
}

fn word_(text: &str, n: usize) -> Ident {
    Ident { name: text.to_string(), span: pos_(n) }
}

fn field(name: &str, ty: Type, default: bool, optional: bool) -> StructField {
    StructField {
        mutable: false,
        name: word_(name, 0),
        ty,
        default: if default { Some(Expr::Literal { value: Literal::Nil, span: pos_(0) }) } else { None },
        optional,
        span: pos_(0),
    }
}

fn structure(name: &str, fields: Vec<StructField>, n: usize) -> Definition {
    Definition::Struct(StructDef { visibility: Visibility::Public, name: word_(name, n), generics: vec![], fields, span: pos_(n) })
}

fn i32_ty() -> Type {
    Type::Primitive(PrimitiveType::I32)
}

/// `struct Config { port: I32, host?: String, retries: I32 = 3 }` at the top,
/// and `mod net { struct Config { url: String } }`.
fn config_file() -> File {
    File {
        statements: vec![
            Statement::Definition(Box::new(structure(
                "Config",
                vec![
                    field("port", i32_ty(), false, false),
                    field("host", Type::Primitive(PrimitiveType::String), false, true),
                    field("retries", i32_ty(), true, false),
                ],
                1,
            ))),
            Statement::Definition(Box::new(Definition::Module(ModuleDef {
                visibility: Visibility::Public,
                name: word_("net", 0),
                definitions: vec![structure("Config", vec![field("url", Type::Primitive(PrimitiveType::String), false, false)], 2)],
                span: pos_(0),
            }))),
        ],
    }
}

fn value() -> Expr {
    Expr::Literal { value: Literal::Nil, span: pos_(0) }
}

#[test]
fn the_innermost_module_struct_is_found_first() {
    let file = config_file();
    let mut a = SemanticAnalyzer::new(SymbolTable::new());
    assert_eq!(a.find_struct_def_in_files("Config", &file).map(|s| s.span), Some(pos_(1)));
    a.enclosing_modules.push("net".to_string());
    assert_eq!(a.find_struct_def_in_files("Config", &file).map(|s| s.span), Some(pos_(2)));
    assert_eq!(a.definitions_in_scope(&file).len(), 2);
    a.enclosing_modules.push("missing".to_string());
    assert_eq!(a.definitions_in_scope(&file).len(), 2);
    assert!(a.find_struct_def_in_files("Other", &file).is_none());
    a.module_files.push(File { statements: vec![Statement::Definition(Box::new(structure("Other", vec![], 3)))] });
    assert_eq!(a.find_struct_def_in_files("Other", &file).map(|s| s.span), Some(pos_(3)));
}

#[test]
fn unknown_and_missing_fields_are_reported() {
    let file = config_file();
    let mut a = SemanticAnalyzer::new(SymbolTable::new());
    a.validate_struct_fields("Config", &vec![(Some(word_("port", 4)), value()), (Some(word_("colour", 5)), value())], &vec![SemType::Unknown, SemType::Unknown], &vec![true, true], pos_(6), &file);
    assert_eq!(a.errors.len(), 1, "{:?}", a.errors);
    assert!(matches!(&a.errors[0], CompilerError::UnknownField { field, named_type, span }
        if field == "colour" && named_type == "Config" && *span == pos_(5)));
    a.validate_struct_fields("Config", &vec![(Some(word_("host", 4)), value())], &vec![SemType::Unknown], &vec![true], pos_(7), &file);
    assert_eq!(a.errors.len(), 2);
    assert!(matches!(&a.errors[1], CompilerError::MissingField { field, named_type, span }
        if field == "port" && named_type == "Config" && *span == pos_(7)));
    a.validate_struct_fields("Nowhere", &vec![(Some(word_("x", 4)), value())], &vec![SemType::Unknown], &vec![true], pos_(8), &file);
    assert_eq!(a.errors.len(), 2);
}

#[test]
fn a_closure_stored_in_a_field_escapes_with_the_struct() {
    let closure_ty = Type::Closure { params: vec![], ret: Box::new(i32_ty()) };
    let file = File {
        statements: vec![Statement::Definition(Box::new(structure(
            "Button",
            vec![field("on_press", closure_ty, false, false), field("label", i32_ty(), false, false)],
            1,
        )))],
    };
    let mut a = SemanticAnalyzer::new(SymbolTable::new());
    a.closure_binding_captures.push(("handler".to_string(), vec!["count".to_string()]));
    let literal = Expr::ClosureExpr {
        params: vec![ClosureParam { convention: ParamConvention::Let, name: word_("x", 0), ty: None, span: pos_(0) }],
        return_type: None,
        body: Box::new(Expr::Reference { path: vec![word_("total", 0)], span: pos_(0) }),
        span: pos_(0),
    };
    let handler = Expr::Reference { path: vec![word_("handler", 0)], span: pos_(0) };
    a.validate_struct_mutability("Button", &vec![(Some(word_("label", 0)), literal), (Some(word_("on_press", 0)), handler)], &file, pos_(9));
    assert_eq!(a.consumed_bindings, vec!["count".to_string()]);
    assert!(a.errors.is_empty());
}

#[test]
fn an_instantiation_needs_labels_type_arguments_and_its_fields() {
    let file = config_file();
    let mut st = SymbolTable::new();
    st.structs.push(StructInfo { name: "Config".to_string(), visibility: Visibility::Public, generics: vec![], fields: vec![] });
    st.structs.push(StructInfo { name: "Pair".to_string(), visibility: Visibility::Public, generics: vec!["T".to_string()], fields: vec![] });
    let mut a = SemanticAnalyzer::new(st);
    // `Config<I32>(1, port: 2)`: a positional argument, a type argument
    // that `Config` does not take.
    let positional = Expr::Literal { value: Literal::Nil, span: pos_(3) };
    a.validate_expr_invocation_struct("Config", &vec![i32_ty()], &vec![(None, positional), (Some(word_("port", 4)), value())], &vec![SemType::Unknown, SemType::Unknown], &vec![true, true], pos_(5), &file);
    assert_eq!(a.errors.len(), 2, "{:?}", a.errors);
    assert!(matches!(&a.errors[0], CompilerError::PositionalArgInStruct { struct_name, position, span }
        if struct_name == "Config" && *position == 1 && *span == pos_(3)));
    assert!(matches!(&a.errors[1], CompilerError::GenericArityMismatch { name, expected, actual, .. }
        if name == "Config" && *expected == 0 && *actual == 1));
    // `Pair(...)` without its type argument.
    a.validate_expr_invocation_struct("Pair", &vec![], &vec![], &vec![], &vec![], pos_(6), &file);
    assert!(matches!(&a.errors[2], CompilerError::MissingGenericArguments { name, span } if name == "Pair" && *span == pos_(6)));
    // `Config()` leaves out the required `port`.
    a.validate_expr_invocation_struct("Config", &vec![], &vec![], &vec![], &vec![], pos_(7), &file);
    assert_eq!(a.errors.len(), 4);
    assert!(matches!(&a.errors[3], CompilerError::MissingField { field, .. } if field == "port"));
}

#[test]
fn a_field_value_of_the_wrong_type_is_reported_unless_the_type_names_a_parameter() {
    // `struct Pick<S> { item: S, label: String, note: String? }`
    let pick = Definition::Struct(StructDef {
        visibility: Visibility::Public,
        name: word_("Pick", 1),
        generics: vec![GenericParam { name: word_("S", 0), constraints: vec![], span: pos_(0) }],
        fields: vec![
            field("item", Type::Ident(word_("S", 0)), false, false),
            field("label", Type::Primitive(PrimitiveType::String), false, false),
            field("note", Type::Optional(Box::new(Type::Primitive(PrimitiveType::String))), false, true),
        ],
        span: pos_(1),
    });
    let file = File { statements: vec![Statement::Definition(Box::new(pick))] };
    let mut a = SemanticAnalyzer::new(SymbolTable::new());
    let number = |v: i128, n: usize| Expr::Literal {
        value: Literal::Number(NumberLiteral { value: NumberValue::Integer(v), suffix: None, kind: NumberSourceKind::Integer }),
        span: pos_(n),
    };
    let i32_s = || SemType::Primitive(PrimitiveType::I32);
    // `Pick(item: 1, label: 99, note: nil)`: only `label` is wrong.
    let args = vec![(Some(word_("item", 2)), number(1, 3)), (Some(word_("label", 4)), number(99, 5)), (Some(word_("note", 6)), value())];
    a.validate_struct_fields("Pick", &args, &vec![i32_s(), i32_s(), SemType::Nil], &vec![false, false, false], pos_(7), &file);
    assert_eq!(a.errors.len(), 1, "{:?}", a.errors);
    assert!(matches!(&a.errors[0], CompilerError::TypeMismatch { expected, found, span }
        if expected == "String" && found == "I32" && *span == pos_(5)));
    // A `String` in the optional field, by its type without the mark.
    let args = vec![(Some(word_("label", 4)), value()), (Some(word_("note", 6)), value())];
    let text = || SemType::Primitive(PrimitiveType::String);
    a.validate_struct_fields("Pick", &args, &vec![text(), text()], &vec![true, false], pos_(8), &file);
    assert_eq!(a.errors.len(), 2, "{:?}", a.errors);
    assert!(matches!(&a.errors[1], CompilerError::MissingField { field, .. } if field == "item"));
}

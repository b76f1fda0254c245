use lib::analyzer::SemanticAnalyzer;
use lib::ast::{
    Definition, EnumDef, EnumVariant, Expr, FieldDef, File, FnParam, FunctionDef, Ident, Literal, ModuleDef,
    NumberLiteral, NumberSourceKind, NumberValue, ParamConvention, PrimitiveType, Span, Statement, StructDef,
    StructField, Type, Visibility,
};
use lib::error::CompilerError;
use lib::float_keys::key_names;
use lib::literals::{is_flexible, literal_fits};
use lib::sem_type::SemType;
use lib::symbols::{EnumInfo, StructInfo, SymbolTable, VariantInfo};

fn pos(n: usize) -> Span {
    Span { start: n, end: n + 1 }
}

fn id(text: &str, n: usize) -> Ident {
    Ident { name: text.to_string(), span: pos(n) }
}

fn i32_type() -> Type {
    Type::Primitive(PrimitiveType::I32)
}

fn field(text: &str, ty: Type) -> FieldDef {
    FieldDef { name: id(text, 0), ty, span: pos(0) }
}

fn int_literal(v: i128, suffix: Option<PrimitiveType>) -> Expr {
    Expr::Literal {
        value: Literal::Number(NumberLiteral { value: NumberValue::Integer(v), suffix, kind: NumberSourceKind::Integer }),
        span: pos(0),
    }
}

/// `struct Key { a: I32 }`, `struct Measure { w: F64 }`,
/// `struct Holder { f: () -> I32 }`, `struct Wrap<T> { t: T }`,
/// `enum Tag { plain, weighted(w: F32) }`.
fn table() -> SymbolTable {
    let mut symbols = SymbolTable::new();
    let plain = |name: &str, fields: Vec<FieldDef>, generics: Vec<String>| StructInfo {
        name: name.to_string(),
        visibility: Visibility::Public,
        generics,
        fields,
    };
    symbols.structs.push(plain("Key", vec![field("a", i32_type())], vec![]));
    symbols.structs.push(plain("Measure", vec![field("w", Type::Primitive(PrimitiveType::F64))], vec![]));
    symbols.structs.push(plain(
        "Holder",
        vec![field("f", Type::Closure { params: vec![], ret: Box::new(i32_type()) })],
        vec![],
    ));
    symbols.structs.push(plain("Wrap", vec![field("t", Type::Ident(id("T", 0)))], vec!["T".to_string()]));
    symbols.structs.push(plain("Node", vec![field("next", Type::Optional(Box::new(Type::Ident(id("Node", 0)))))], vec![]));
    symbols.enums.push(EnumInfo {
        name: "Tag".to_string(),
        visibility: Visibility::Public,
        generics: vec![],
        variants: vec![
            VariantInfo { name: "plain".to_string(), arity: 0, span: pos(0) },
            VariantInfo { name: "weighted".to_string(), arity: 1, span: pos(0) },
        ],
        variant_fields: vec![field("w", Type::Primitive(PrimitiveType::F32))],
    });
    symbols
}

fn named(n: &str) -> SemType {
    SemType::Named(n.to_string())
}

#[test]
fn key_types_are_hashable_primitives_and_structs_of_them() {
    let a = SemanticAnalyzer::new(table());
    assert!(a.is_key_type(&SemType::Primitive(PrimitiveType::String)));
    assert!(a.is_key_type(&SemType::Primitive(PrimitiveType::I64)));
    assert!(a.is_key_type(&named("Key")));
    assert!(a.is_key_type(&SemType::Generic { base: "Wrap".to_string(), args: vec![SemType::Primitive(PrimitiveType::F64)] }));
    assert!(a.is_key_type(&named("Imported")));
    assert!(!a.is_key_type(&SemType::Primitive(PrimitiveType::F32)));
    assert!(!a.is_key_type(&named("Measure")));
    assert!(!a.is_key_type(&named("Tag")));
    assert!(!a.is_key_type(&SemType::Array(Box::new(SemType::Primitive(PrimitiveType::I32)))));
}

#[test]
fn a_struct_with_an_optional_field_is_no_key() {
    let a = SemanticAnalyzer::new(table());
    assert!(!a.is_key_type(&named("Node")));
}

#[test]
fn an_invalid_dictionary_key_is_reported_with_its_type() {
    let mut a = SemanticAnalyzer::new(table());
    a.validate_dictionary_key(&Type::Ident(id("Key", 0)), pos(1));
    a.validate_dictionary_key(&Type::Ident(id("Measure", 0)), pos(2));
    a.validate_dictionary_key(&Type::Array(Box::new(i32_type())), pos(3));
    assert_eq!(a.errors.len(), 2);
    assert!(matches!(&a.errors[0], CompilerError::InvalidDictionaryKey { key_type, span } if key_type == "Measure" && *span == pos(2)));
    assert!(matches!(&a.errors[1], CompilerError::InvalidDictionaryKey { key_type, .. } if key_type == "[I32]"));
}

#[test]
fn closures_make_a_type_unequatable() {
    let a = SemanticAnalyzer::new(table());
    let mut seen: Vec<String> = Vec::new();
    assert!(a.holds_a_closure(&named("Holder"), &mut seen));
    assert!(seen.is_empty());
    assert!(!a.is_equatable(&named("Holder")));
    assert!(!a.is_equatable(&SemType::Array(Box::new(named("Holder")))));
    assert!(a.is_equatable(&named("Key")));
    assert!(a.is_equatable(&named("Node")));
    assert!(a.is_equatable(&SemType::Primitive(PrimitiveType::F64)));
}

#[test]
fn a_literal_over_the_range_of_its_type_overflows() {
    let mut a = SemanticAnalyzer::new(table());
    let big = Literal::Number(NumberLiteral { value: NumberValue::Integer(2147483648), suffix: None, kind: NumberSourceKind::Integer });
    let low = Literal::Number(NumberLiteral { value: NumberValue::Integer(-2147483649), suffix: None, kind: NumberSourceKind::Integer });
    let edge = Literal::Number(NumberLiteral { value: NumberValue::Integer(-2147483648), suffix: None, kind: NumberSourceKind::Integer });
    a.validate_numeric_literal(&big, Some(PrimitiveType::I32), pos(1));
    a.validate_numeric_literal(&big, Some(PrimitiveType::I64), pos(2));
    a.validate_numeric_literal(&edge, Some(PrimitiveType::I32), pos(3));
    a.validate_numeric_literal(&low, Some(PrimitiveType::I32), pos(4));
    a.validate_numeric_literal(&big, None, pos(5));
    assert_eq!(a.errors.len(), 2);
    assert!(matches!(&a.errors[0], CompilerError::NumericOverflow { written, target, span }
        if written == "2147483648" && *target == PrimitiveType::I32 && *span == pos(1)));
    assert!(matches!(&a.errors[1], CompilerError::NumericOverflow { written, .. } if written == "-2147483649"));
}

#[test]
fn the_key_check_enters_each_name_once_and_keeps_it() {
    // `struct R { n: I32, next: R }` and `struct Q { r: R, f: F64 }`.
    let mut symbols = SymbolTable::new();
    let r = StructInfo { name: "R".to_string(), visibility: Visibility::Public, generics: vec![],
        fields: vec![field("n", i32_type()), field("next", Type::Ident(id("R", 0)))] };
    let q = StructInfo { name: "Q".to_string(), visibility: Visibility::Public, generics: vec![],
        fields: vec![field("r", Type::Ident(id("R", 0))), field("f", Type::Primitive(PrimitiveType::F64))] };
    symbols.structs.push(r);
    symbols.structs.push(q);
    let a = SemanticAnalyzer::new(symbols);
    let mut seen: Vec<String> = Vec::new();
    assert!(a.is_key_type_inner(&named("R"), &mut seen));
    assert_eq!(seen, vec!["R".to_string()]);
    let mut seen: Vec<String> = Vec::new();
    assert!(!a.is_key_type_inner(&named("Q"), &mut seen));
    assert_eq!(seen, vec!["Q".to_string(), "R".to_string()]);
}

#[test]
fn a_value_with_a_fraction_has_only_a_float_type() {
    let mut a = SemanticAnalyzer::new(table());
    let half = Literal::Number(NumberLiteral { value: NumberValue::Float("1.5".to_string()), suffix: None, kind: NumberSourceKind::Float });
    a.validate_numeric_literal(&half, Some(PrimitiveType::I32), pos(1));
    a.validate_numeric_literal(&half, Some(PrimitiveType::F64), pos(2));
    a.validate_numeric_literal(&half, Some(PrimitiveType::F32), pos(3));
    assert_eq!(a.errors.len(), 1);
    assert!(matches!(&a.errors[0], CompilerError::InvalidNumber { value, span }
        if value == "1.5 does not fit in I32" && *span == pos(1)));
}

#[test]
fn unsuffixed_number_literals_take_their_type_from_the_context() {
    let sum = Expr::BinaryOp {
        left: Box::new(int_literal(1, None)),
        op: lib::ast::BinaryOperator::Add,
        right: Box::new(Expr::Group { expr: Box::new(int_literal(2, None)), span: pos(0) }),
        span: pos(0),
    };
    let suffixed = int_literal(1, Some(PrimitiveType::I64));
    assert!(is_flexible(&sum));
    assert!(!is_flexible(&suffixed));
    assert!(literal_fits(&int_literal(7, None), &Type::Primitive(PrimitiveType::I64)));
    assert!(!literal_fits(&int_literal(7, None), &Type::Primitive(PrimitiveType::F32)));
    assert!(!literal_fits(&suffixed, &Type::Primitive(PrimitiveType::I64)));
}

#[test]
fn a_float_keyed_literal_is_reported_once() {
    let mut a = SemanticAnalyzer::new(table());
    let entries = vec![(int_literal(1, None), int_literal(2, None))];
    a.check_literal_float_key(&entries, &SemType::Primitive(PrimitiveType::F64), pos(4));
    a.check_literal_float_key(&vec![], &SemType::Primitive(PrimitiveType::F32), pos(5));
    a.check_literal_float_key(&entries, &SemType::Primitive(PrimitiveType::I32), pos(6));
    assert_eq!(a.errors.len(), 1);
    assert!(matches!(&a.errors[0], CompilerError::FloatDictionaryKey { key_type, span } if key_type == "F64" && *span == pos(4)));
}

#[test]
fn key_names_keeps_the_candidates_standing_as_keys() {
    let dict = Type::Dictionary { key: Box::new(Type::Ident(id("K", 0))), value: Box::new(Type::Ident(id("V", 0))) };
    let nested = Type::Array(Box::new(Type::Dictionary { key: Box::new(Type::Ident(id("K", 0))), value: Box::new(i32_type()) }));
    let candidates = vec!["K".to_string(), "V".to_string()];
    let found = key_names(&candidates, &vec![&dict, &nested]);
    assert_eq!(found, vec!["K".to_string()]);
}

fn param(text: &str, label: Option<&str>, n: usize) -> FnParam {
    FnParam {
        convention: ParamConvention::Let,
        external_label: label.map(|l| id(l, n)),
        name: id(text, n),
        ty: Some(i32_type()),
        default: None,
        span: pos(n),
    }
}

#[test]
fn repeated_fields_params_and_labels_are_reported() {
    let point = StructDef {
        visibility: Visibility::Public,
        name: id("Point", 0),
        generics: vec![],
        fields: vec![
            StructField { mutable: false, name: id("x", 1), ty: i32_type(), default: None, optional: false, span: pos(1) },
            StructField { mutable: false, name: id("x", 2), ty: i32_type(), default: None, optional: false, span: pos(2) },
        ],
        span: pos(0),
    };
    let shape = EnumDef {
        visibility: Visibility::Public,
        name: id("Shape", 0),
        generics: vec![],
        variants: vec![EnumVariant {
            name: id("rect", 0),
            fields: vec![FieldDef { name: id("w", 3), ty: i32_type(), span: pos(3) }, FieldDef { name: id("w", 4), ty: i32_type(), span: pos(4) }],
            span: pos(0),
        }],
        span: pos(0),
    };
    let f = FunctionDef {
        visibility: Visibility::Public,
        name: id("f", 0),
        generics: vec![],
        params: vec![param("a", Some("at"), 5), param("a", None, 6), param("b", Some("at"), 7)],
        return_type: None,
        body: None,
        extern_abi: None,
        span: pos(0),
    };
    let inner = ModuleDef { visibility: Visibility::Public, name: id("m", 0), definitions: vec![Definition::Function(f)], span: pos(0) };
    let file = File {
        statements: vec![
            Statement::Definition(Box::new(Definition::Struct(point))),
            Statement::Definition(Box::new(Definition::Enum(shape))),
            Statement::Definition(Box::new(Definition::Module(inner))),
        ],
    };
    let mut a = SemanticAnalyzer::new(SymbolTable::new());
    a.validate_duplicate_names(&file);
    let reported: Vec<(String, Span)> = a
        .errors
        .iter()
        .map(|e| match e {
            CompilerError::DuplicateDefinition { name, span } => (name.clone(), *span),
            other => panic!("unexpected {other:?}"),
        })
        .collect();
    assert_eq!(
        reported,
        vec![
            ("field 'x' of struct Point".to_string(), pos(2)),
            ("field 'w' of variant Shape.rect".to_string(), pos(4)),
            ("parameter 'a' of f".to_string(), pos(6)),
            ("argument label 'at' of f".to_string(), pos(7)),
        ]
    );
}

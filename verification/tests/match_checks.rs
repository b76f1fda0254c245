use lib::analyzer::SemanticAnalyzer;
use lib::ast::{
    Definition, EnumDef, EnumVariant, Expr, FieldDef, File, Ident, Literal, MatchArm, NumberLiteral, NumberSourceKind,
    NumberValue, Pattern, PrimitiveType, Span, Statement, Type, Visibility,
};
use lib::error::CompilerError;
use lib::sem_type::SemType;
use lib::symbols::{EnumInfo, SymbolTable, VariantInfo};

fn span(n: usize) -> Span {
    Span { start: n, end: n + 1 }
}

fn ident(name: &str) -> Ident {
    Ident { name: name.to_string(), span: span(0) }
}

fn unit() -> Expr {
    Expr::Literal {
        value: Literal::Number(NumberLiteral { value: NumberValue::Integer(0), suffix: None, kind: NumberSourceKind::Integer }),
        span: span(0),
    }
}

fn arm(variant: &str, bindings: usize, at: usize) -> MatchArm {
    MatchArm {
        pattern: Pattern::Variant { name: ident(variant), bindings: (0..bindings).map(|i| ident(&format!("x{i}"))).collect() },
        body: unit(),
        span: span(at),
    }
}

fn wildcard(at: usize) -> MatchArm {
    MatchArm { pattern: Pattern::Wildcard, body: unit(), span: span(at) }
}

fn variant(name: &str, arity: usize) -> VariantInfo {
    VariantInfo { name: name.to_string(), arity, span: span(0) }
}

/// A table with `enum Color { red, green, blue(level: I32) }`.
fn color_table() -> SymbolTable {
    let mut symbols = SymbolTable::new();
    symbols.enums.push(EnumInfo {
        name: "Color".to_string(),
        visibility: Visibility::Public,
        generics: vec![],
        variants: vec![variant("red", 0), variant("green", 0), variant("blue", 1)],
        variant_fields: vec![],
    });
    symbols
}

fn analyzer() -> SemanticAnalyzer {
    SemanticAnalyzer::new(color_table())
}

#[test]
fn a_complete_match_reports_nothing() {
    let mut a = analyzer();
    let arms = vec![arm("red", 0, 1), arm("green", 0, 2), arm("blue", 1, 3)];
    a.validate_match(&SemType::Named("Color".to_string()), &arms, span(9));
    assert!(a.errors.is_empty(), "{:?}", a.errors);
}

#[test]
fn missing_variants_are_listed_in_declaration_order() {
    let mut a = analyzer();
    a.validate_match(&SemType::Named("Color".to_string()), &vec![arm("green", 0, 1)], span(9));
    assert_eq!(a.errors.len(), 1);
    match &a.errors[0] {
        CompilerError::NonExhaustiveMatch { missing, span: at } => {
            assert_eq!(missing, "red, blue");
            assert_eq!(*at, span(9));
        },
        other => panic!("unexpected {other:?}"),
    }
}

#[test]
fn a_wildcard_covers_the_rest_and_silences_later_arms() {
    let mut a = analyzer();
    let arms = vec![wildcard(1), arm("red", 0, 2)];
    a.validate_match(&SemType::Named("Color".to_string()), &arms, span(9));
    assert_eq!(a.errors.len(), 1);
    assert!(matches!(a.errors[0], CompilerError::UnreachableMatchArm { span: s } if s == span(2)));
}

#[test]
fn a_repeated_arm_and_a_wrong_arity_are_reported() {
    let mut a = analyzer();
    let arms = vec![arm("red", 0, 1), arm("red", 0, 2), arm("blue", 2, 3), arm("green", 0, 4)];
    a.validate_match(&SemType::Named("Color".to_string()), &arms, span(9));
    assert_eq!(a.errors.len(), 2, "{:?}", a.errors);
    assert!(matches!(&a.errors[0], CompilerError::DuplicateMatchArm { variant, span: s } if variant == "red" && *s == span(2)));
    assert!(matches!(&a.errors[1], CompilerError::VariantArityMismatch { variant, expected: 1, actual: 2, .. } if variant == "blue"));
}

#[test]
fn an_unknown_variant_is_reported_with_its_enum() {
    let mut a = analyzer();
    let arms = vec![arm("purple", 0, 1), wildcard(2)];
    a.validate_match(&SemType::Named("Color".to_string()), &arms, span(9));
    assert_eq!(a.errors.len(), 1);
    assert!(matches!(&a.errors[0], CompilerError::UnknownEnumVariant { variant, enum_name, .. }
        if variant == "purple" && enum_name == "Color"));
}

#[test]
fn an_optional_is_matched_as_some_and_none() {
    let mut a = analyzer();
    let optional = SemType::Optional(Box::new(SemType::Primitive(PrimitiveType::I32)));
    a.validate_match(&optional, &vec![arm("some", 1, 1), arm("none", 0, 2)], span(9));
    assert!(a.errors.is_empty());
    a.validate_match(&optional, &vec![arm("some", 1, 1)], span(9));
    assert!(matches!(&a.errors[0], CompilerError::NonExhaustiveMatch { missing, .. } if missing == "none"));
}

#[test]
fn a_match_over_a_number_is_not_a_match_over_an_enum() {
    let mut a = analyzer();
    a.validate_match(&SemType::Primitive(PrimitiveType::I32), &vec![wildcard(1)], span(9));
    assert!(matches!(&a.errors[0], CompilerError::MatchNotEnum { actual, .. } if actual == "I32"));
}

#[test]
fn an_unknown_scrutinee_is_left_alone() {
    let mut a = analyzer();
    a.validate_match(&SemType::Unknown, &vec![arm("anything", 3, 1)], span(9));
    assert!(a.errors.is_empty());
}

#[test]
fn a_generic_enum_instance_is_matched_against_its_base() {
    let mut a = analyzer();
    let ty = SemType::Generic { base: "Color".to_string(), args: vec![SemType::Primitive(PrimitiveType::I32)] };
    a.validate_match(&ty, &vec![arm("red", 0, 1), arm("green", 0, 2), arm("blue", 1, 3)], span(9));
    assert!(a.errors.is_empty());
}

fn shape_file() -> File {
    let shape = EnumDef {
        visibility: Visibility::Public,
        name: ident("Shape"),
        generics: vec![],
        variants: vec![
            EnumVariant { name: ident("dot"), fields: vec![], span: span(0) },
            EnumVariant {
                name: ident("circle"),
                fields: vec![FieldDef { name: ident("radius"), ty: Type::Primitive(PrimitiveType::I32), span: span(0) }],
                span: span(0),
            },
        ],
        span: span(0),
    };
    File { statements: vec![Statement::Definition(Box::new(Definition::Enum(shape)))] }
}

fn shape_analyzer() -> SemanticAnalyzer {
    let mut symbols = SymbolTable::new();
    symbols.enums.push(EnumInfo {
        name: "Shape".to_string(),
        visibility: Visibility::Public,
        generics: vec![],
        variants: vec![variant("dot", 0), variant("circle", 1)],
        variant_fields: vec![],
    });
    SemanticAnalyzer::new(symbols)
}

#[test]
fn variant_fields_come_from_the_file_then_from_imported_modules() {
    let a = SemanticAnalyzer::new(SymbolTable::new());
    let file = shape_file();
    let fields = a.get_enum_variant_fields("Shape", "circle", &file).expect("circle has fields");
    assert_eq!(fields.len(), 1);
    assert_eq!(fields[0].name.name, "radius");
    assert!(a.get_enum_variant_fields("Shape", "square", &file).is_none());
    let empty = File { statements: vec![] };
    assert!(a.get_enum_variant_fields("Shape", "circle", &empty).is_none());
    let mut b = SemanticAnalyzer::new(SymbolTable::new());
    b.module_files.push(shape_file());
    assert!(b.get_enum_variant_fields("Shape", "dot", &empty).is_some());
}

fn payload(label: &str) -> (Ident, Expr) {
    (ident(label), unit())
}

#[test]
fn an_enum_value_gives_exactly_the_fields_of_its_variant() {
    let file = shape_file();
    let mut a = shape_analyzer();
    a.validate_enum_instantiation(&ident("Shape"), &ident("circle"), &vec![payload("radius")], &vec![SemType::Primitive(PrimitiveType::I32)], &vec![true], span(5), &file);
    assert!(a.errors.is_empty());

    a.validate_enum_instantiation(&ident("Shape"), &ident("circle"), &vec![payload("diameter")], &vec![SemType::Primitive(PrimitiveType::I32)], &vec![true], span(5), &file);
    assert_eq!(a.errors.len(), 2, "{:?}", a.errors);
    assert!(matches!(&a.errors[0], CompilerError::MissingField { field, named_type, .. }
        if field == "radius" && named_type == "Shape.circle"));
    assert!(matches!(&a.errors[1], CompilerError::UnknownField { field, named_type, .. }
        if field == "diameter" && named_type == "Shape.circle"));
}

#[test]
fn a_payload_of_the_wrong_type_is_reported() {
    let file = shape_file();
    let mut a = shape_analyzer();
    let text = Expr::Literal { value: Literal::String("text".to_string()), span: span(9) };
    let found = vec![SemType::Primitive(PrimitiveType::String)];
    a.validate_enum_instantiation(&ident("Shape"), &ident("circle"), &vec![(ident("radius"), text)], &found, &vec![false], span(5), &file);
    assert_eq!(a.errors.len(), 1, "{:?}", a.errors);
    assert!(matches!(&a.errors[0], CompilerError::TypeMismatch { expected, found, span: at }
        if expected == "I32" && found == "String" && *at == span(9)));
}

#[test]
fn data_and_its_absence_are_checked_against_the_variant() {
    let file = shape_file();
    let mut a = shape_analyzer();
    a.validate_enum_instantiation(&ident("Shape"), &ident("dot"), &vec![payload("x")], &vec![SemType::Primitive(PrimitiveType::I32)], &vec![true], span(5), &file);
    a.validate_enum_instantiation(&ident("Shape"), &ident("circle"), &vec![], &vec![], &vec![], span(6), &file);
    a.validate_enum_instantiation(&ident("Shape"), &ident("square"), &vec![], &vec![], &vec![], span(7), &file);
    a.validate_enum_instantiation(&ident("Blob"), &ident("dot"), &vec![], &vec![], &vec![], span(8), &file);
    assert_eq!(a.errors.len(), 4, "{:?}", a.errors);
    assert!(matches!(&a.errors[0], CompilerError::EnumVariantWithoutData { variant, .. } if variant == "dot"));
    assert!(matches!(&a.errors[1], CompilerError::EnumVariantRequiresData { variant, .. } if variant == "circle"));
    assert!(matches!(&a.errors[2], CompilerError::UnknownEnumVariant { variant, .. } if variant == "square"));
    assert!(matches!(&a.errors[3], CompilerError::UndefinedType { name, .. } if name == "Blob"));
}

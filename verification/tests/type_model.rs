use lib::analyzer::SemanticAnalyzer;
use lib::ast::{ClosureParam, Ident, ParamConvention, PrimitiveType, Span, TupleTypeField, Type};
use lib::error::CompilerError;
use lib::expected::float_key_in;
use lib::sem_type::SemType;
use lib::symbols::{EnumInfo, SymbolTable};
use lib::text::{contains_path_separator, decimal_string, decimal_string_wide, signed_decimal_string};
use lib::type_names::{for_each_key_name, for_each_named_type, type_mentions_any};
use lib::ast::Visibility;

fn at_(n: usize) -> Span {
    Span { start: n, end: n + 1 }
}

fn tid(text: &str) -> Ident {
    Ident { name: text.to_string(), span: at_(0) }
}

fn p(t: PrimitiveType) -> SemType {
    SemType::Primitive(t)
}

#[test]
fn numbers_are_written_in_decimal() {
    assert_eq!(decimal_string(0), "0");
    assert_eq!(decimal_string(407), "407");
    assert_eq!(decimal_string_wide(u128::MAX), "340282366920938463463374607431768211455");
    assert_eq!(signed_decimal_string(i128::MIN), "-170141183460469231731687303715884105728");
    assert_eq!(signed_decimal_string(-5), "-5");
    assert_eq!(signed_decimal_string(12), "12");
}

#[test]
fn a_path_separator_is_two_colons() {
    assert!(contains_path_separator("a::B"));
    assert!(!contains_path_separator("a:B"));
    assert!(!contains_path_separator(":"));
}

#[test]
fn types_display_as_the_source_writes_them() {
    let tuple = SemType::Tuple(vec![("x".to_string(), p(PrimitiveType::I32)), (String::new(), p(PrimitiveType::String))]);
    assert_eq!(tuple.display(), "(x: I32, String)");
    let dict = SemType::Dictionary { key: Box::new(p(PrimitiveType::String)), value: Box::new(SemType::Array(Box::new(p(PrimitiveType::F64)))) };
    assert_eq!(dict.display(), "[String: [F64]]");
    let generic = SemType::Generic { base: "Pair".to_string(), args: vec![p(PrimitiveType::I64), SemType::Optional(Box::new(p(PrimitiveType::Boolean)))] };
    assert_eq!(generic.display(), "Pair<I64, Boolean?>");
    let closure = SemType::Closure {
        params: vec![(ParamConvention::Mut, p(PrimitiveType::I32)), (ParamConvention::Sink, SemType::Named("Item".to_string()))],
        return_ty: Box::new(p(PrimitiveType::Never)),
    };
    assert_eq!(closure.display(), "(mut I32, sink Item) -> Never");
    assert_eq!(SemType::Nil.display(), "Nil");
}

#[test]
fn a_written_type_becomes_a_semantic_type() {
    let written = Type::Tuple(vec![
        TupleTypeField { name: Some(tid("k")), ty: Type::Ident(tid("Key")), span: at_(0) },
        TupleTypeField { name: None, ty: Type::Generic { name: tid("Box"), args: vec![Type::Primitive(PrimitiveType::I32)], span: at_(0) }, span: at_(0) },
    ]);
    let sem = SemType::from_ast(&written);
    assert_eq!(sem.display(), "(k: Key, Box<I32>)");
    assert_eq!(sem.duplicate().display(), "(k: Key, Box<I32>)");
    assert!(SemType::Unknown.is_indeterminate());
    assert!(SemType::InferredEnum.is_indeterminate());
    assert!(!SemType::Nil.is_indeterminate());
    assert!(SemType::Unknown.is_unknown());
    assert!(!SemType::InferredEnum.is_unknown());
}

#[test]
fn substitution_replaces_every_occurrence_of_a_name() {
    let ty = SemType::Dictionary {
        key: Box::new(SemType::Named("T".to_string())),
        value: Box::new(SemType::Array(Box::new(SemType::Named("T".to_string())))),
    };
    let replaced = ty.substitute_named("T", &p(PrimitiveType::String));
    assert_eq!(replaced.display(), "[String: [String]]");
    let untouched = ty.substitute_named("U", &p(PrimitiveType::String));
    assert_eq!(untouched.display(), "[T: [T]]");
}

#[test]
fn generic_enum_arguments_are_put_in_for_its_parameters() {
    let mut symbols = SymbolTable::new();
    symbols.enums.push(EnumInfo {
        name: "Either".to_string(),
        visibility: Visibility::Public,
        generics: vec!["L".to_string(), "R".to_string()],
        variants: vec![],
        variant_fields: vec![],
    });
    let a = SemanticAnalyzer::new(symbols);
    let expected = SemType::Optional(Box::new(SemType::Generic {
        base: "Either".to_string(),
        args: vec![p(PrimitiveType::I32), p(PrimitiveType::String)],
    }));
    let args = SemanticAnalyzer::enum_type_args(&expected, "Either").expect("arguments");
    assert_eq!(args.len(), 2);
    assert!(SemanticAnalyzer::enum_type_args(&expected, "Other").is_none());
    let payload = SemType::Tuple(vec![(String::new(), SemType::Named("L".to_string())), (String::new(), SemType::Named("R".to_string()))]);
    let concrete = a.with_enum_type_args("Either", payload.duplicate(), Some(&args));
    assert_eq!(concrete.display(), "(I32, String)");
    let unchanged = a.with_enum_type_args("Either", payload, None);
    assert_eq!(unchanged.display(), "(L, R)");
}

fn cparam(name: &str, ty: Option<Type>, n: usize) -> ClosureParam {
    ClosureParam { convention: ParamConvention::Let, name: Ident { name: name.to_string(), span: at_(n) }, ty, span: at_(n) }
}

#[test]
fn untyped_closure_parameters_need_an_expected_closure() {
    let mut a = SemanticAnalyzer::new(SymbolTable::new());
    let params = vec![cparam("a", None, 1), cparam("b", Some(Type::Primitive(PrimitiveType::I32)), 2)];
    a.check_closure_parameter_types(&params, None);
    let one = SemType::Closure { params: vec![(ParamConvention::Let, p(PrimitiveType::I32))], return_ty: Box::new(p(PrimitiveType::I32)) };
    a.check_closure_parameter_types(&params, Some(&one));
    let two = SemType::Optional(Box::new(SemType::Closure {
        params: vec![(ParamConvention::Let, p(PrimitiveType::I32)), (ParamConvention::Let, p(PrimitiveType::I32))],
        return_ty: Box::new(p(PrimitiveType::I32)),
    }));
    a.check_closure_parameter_types(&params, Some(&two));
    a.check_closure_parameter_types(&params, Some(&SemType::Unknown));
    assert_eq!(a.errors.len(), 2, "{:?}", a.errors);
    assert!(matches!(&a.errors[0], CompilerError::ClosureParameterNeedsType { param, span } if param == "a" && *span == at_(1)));
    assert!(matches!(&a.errors[1], CompilerError::TypeMismatch { expected, found, span }
        if expected == "(I32) -> I32" && found == "(_, _) -> _" && *span == at_(1)));
}

#[test]
fn closure_parameters_are_named_once_and_typed_validly() {
    let mut a = SemanticAnalyzer::new(SymbolTable::new());
    let params = vec![cparam("x", Some(Type::Ident(tid("Nowhere"))), 1), cparam("x", None, 2)];
    a.check_closure_params(&params);
    assert_eq!(a.errors.len(), 2, "{:?}", a.errors);
    assert!(matches!(&a.errors[0], CompilerError::UndefinedType { name, .. } if name == "Nowhere"));
    assert!(matches!(&a.errors[1], CompilerError::DuplicateDefinition { name, span } if name == "closure parameter 'x'" && *span == at_(2)));
}

#[test]
fn type_names_compare_whole_names() {
    let ty = Type::Generic {
        name: tid("Dictionary"),
        args: vec![Type::Ident(tid("K")), Type::Array(Box::new(Type::Dictionary { key: Box::new(Type::Ident(tid("J"))), value: Box::new(Type::Primitive(PrimitiveType::String)) }))],
        span: at_(0),
    };
    let mut names: Vec<String> = Vec::new();
    for_each_named_type(&ty, &mut names);
    assert_eq!(names, vec!["Dictionary".to_string(), "K".to_string(), "J".to_string()]);
    let mut keys: Vec<String> = vec!["before".to_string()];
    for_each_key_name(&ty, &mut keys);
    assert_eq!(keys, vec!["before".to_string(), "K".to_string(), "J".to_string()]);
    let string_ty = Type::Primitive(PrimitiveType::String);
    assert!(!type_mentions_any(&string_ty, &vec!["S".to_string()]));
    assert!(!type_mentions_any(&Type::Ident(tid("Inner")), &vec!["I".to_string()]));
    assert!(type_mentions_any(&ty, &vec!["Z".to_string(), "J".to_string()]));
}

#[test]
fn float_keys_are_found_at_the_top_or_anywhere() {
    let nested = SemType::Array(Box::new(SemType::Dictionary { key: Box::new(p(PrimitiveType::F32)), value: Box::new(p(PrimitiveType::I32)) }));
    assert_eq!(float_key_in(&nested, false), None);
    assert_eq!(float_key_in(&nested, true), Some("F32"));
    let top = SemType::Dictionary { key: Box::new(p(PrimitiveType::F64)), value: Box::new(p(PrimitiveType::I32)) };
    assert_eq!(float_key_in(&top, false), Some("F64"));
}

#[test]
fn expected_types_flow_into_elements_entries_and_fields() {
    let arr = SemType::Array(Box::new(p(PrimitiveType::I64)));
    assert!(matches!(SemanticAnalyzer::expected_element(Some(&arr)), Some(SemType::Primitive(PrimitiveType::I64))));
    assert!(SemanticAnalyzer::expected_element(Some(&p(PrimitiveType::I64))).is_none());
    let dict = SemType::Dictionary { key: Box::new(p(PrimitiveType::String)), value: Box::new(p(PrimitiveType::Boolean)) };
    let (k, v) = SemanticAnalyzer::expected_entry(Some(&dict));
    assert!(matches!(k, Some(SemType::Primitive(PrimitiveType::String))));
    assert!(matches!(v, Some(SemType::Primitive(PrimitiveType::Boolean))));
    let tuple = SemType::Tuple(vec![("a".to_string(), p(PrimitiveType::I32)), ("b".to_string(), p(PrimitiveType::F32))]);
    assert!(matches!(SemanticAnalyzer::expected_tuple_field(Some(&tuple), "b"), Some(SemType::Primitive(PrimitiveType::F32))));
    assert!(SemanticAnalyzer::expected_tuple_field(Some(&tuple), "c").is_none());
    let opt = SemType::Optional(Box::new(SemType::Named("Color".to_string())));
    assert_eq!(SemanticAnalyzer::expected_enum_name(&opt), Some("Color".to_string()));
    assert!(SemanticAnalyzer::compares_against_nil(&SemType::Nil, &opt));
    assert!(!SemanticAnalyzer::compares_against_nil(&SemType::Nil, &p(PrimitiveType::I32)));
    assert!(SemanticAnalyzer::is_sequence(&SemType::Generic { base: "Seq".to_string(), args: vec![] }));
    assert!(SemanticAnalyzer::is_indexable(&p(PrimitiveType::String)));
    assert!(!SemanticAnalyzer::holds_named_fields(&SemType::Nil));
    let declared = Type::Primitive(PrimitiveType::I32);
    assert!(matches!(SemanticAnalyzer::closure_body_expected(Some(&declared), None), Some(SemType::Primitive(PrimitiveType::I32))));
    let closure = SemType::Optional(Box::new(SemType::Closure { params: vec![], return_ty: Box::new(p(PrimitiveType::String)) }));
    assert!(matches!(SemanticAnalyzer::closure_body_expected(None, Some(&closure)), Some(SemType::Primitive(PrimitiveType::String))));
}

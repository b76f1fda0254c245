use lib::analyzer::SemanticAnalyzer;
use lib::ast::{
    BindingPattern, Definition, EnumDef, EnumVariant, Expr, FieldDef, File, FnDef, FnParam, FunctionDef, GenericConstraint,
    GenericParam, Ident, ImplDef, LetBinding, Literal, ModuleDef, ParamConvention, PrimitiveType, Span, Statement, StructDef,
    StructField, Type, Visibility,
};
use lib::error::CompilerError;
use lib::private_in_public::type_is_private;
use lib::public_closure_field::holds_a_closure;
use lib::symbols::{ModuleInfo, StructInfo, SymbolTable, TraitInfo};

fn s(n: usize) -> Span {
    Span { start: n, end: n + 1 }
}

fn i(text: &str, n: usize) -> Ident {
    Ident { name: text.to_string(), span: s(n) }
}

fn closure_ty() -> Type {
    Type::Closure { params: vec![(ParamConvention::Let, Type::Primitive(PrimitiveType::I32))], ret: Box::new(Type::Primitive(PrimitiveType::I32)) }
}

fn seq_of(t: Type) -> Type {
    Type::Generic { name: i("Seq", 0), args: vec![t], span: s(0) }
}

fn sfield(name: &str, ty: Type, n: usize) -> StructField {
    StructField { mutable: false, name: i(name, n), ty, default: None, optional: false, span: s(n) }
}

fn fparam(name: &str, convention: ParamConvention, ty: Type, n: usize) -> FnParam {
    FnParam { convention, external_label: None, name: i(name, n), ty: Some(ty), default: None, span: s(n) }
}

fn def(d: Definition) -> Statement {
    Statement::Definition(Box::new(d))
}

fn strukt(name: &str, visibility: Visibility, fields: Vec<StructField>) -> Definition {
    Definition::Struct(StructDef { visibility, name: i(name, 0), generics: vec![], fields, span: s(0) })
}

fn function(name: &str, params: Vec<FnParam>, return_type: Option<Type>, extern_abi: Option<String>) -> FunctionDef {
    FunctionDef { visibility: Visibility::Public, name: i(name, 20), generics: vec![], params, return_type, body: None, extern_abi, span: s(21) }
}

fn nothing() -> SemanticAnalyzer {
    SemanticAnalyzer::new(SymbolTable::new())
}

#[test]
fn closure_fields_of_public_definitions_are_refused() {
    let file = File {
        statements: vec![
            def(strukt("Handler", Visibility::Public, vec![sfield("run", closure_ty(), 1), sfield("name", Type::Primitive(PrimitiveType::String), 2)])),
            def(strukt("Internal", Visibility::Private, vec![sfield("run", closure_ty(), 3)])),
            def(Definition::Module(ModuleDef {
                visibility: Visibility::Public,
                name: i("m", 0),
                definitions: vec![Definition::Enum(EnumDef {
                    visibility: Visibility::Public,
                    name: i("Event", 0),
                    generics: vec![],
                    variants: vec![EnumVariant {
                        name: i("click", 0),
                        fields: vec![FieldDef { name: i("callbacks", 4), ty: Type::Array(Box::new(closure_ty())), span: s(4) }],
                        span: s(0),
                    }],
                    span: s(0),
                })],
                span: s(0),
            })),
        ],
    };
    let mut a = nothing();
    a.validate_public_closure_fields(&file);
    assert_eq!(a.errors.len(), 2);
    assert!(matches!(&a.errors[0], CompilerError::PublicClosureField { owner, field, span }
        if owner == "struct Handler" && field == "run" && *span == s(1)));
    assert!(matches!(&a.errors[1], CompilerError::PublicClosureField { owner, field, .. }
        if owner == "enum Event variant click" && field == "callbacks"));
    assert!(holds_a_closure(&Type::Optional(Box::new(closure_ty()))));
    assert!(!holds_a_closure(&Type::Ident(i("Handler", 0))));
}

#[test]
fn a_sequence_may_only_be_consumed() {
    let seq_i32 = || seq_of(Type::Primitive(PrimitiveType::I32));
    let file = File {
        statements: vec![
            def(strukt("Holder", Visibility::Public, vec![sfield("items", Type::Optional(Box::new(seq_i32())), 1)])),
            def(Definition::Function(function(
                "drain",
                vec![fparam("taken", ParamConvention::Sink, seq_i32(), 2), fparam("peeked", ParamConvention::Let, seq_i32(), 3)],
                Some(seq_i32()),
                None,
            ))),
            def(Definition::Function(function("cursor", vec![], Some(seq_i32()), Some("C".to_string())))),
            def(Definition::Impl(ImplDef {
                name: i("Host", 0),
                trait_name: None,
                generics: vec![],
                functions: vec![FnDef { name: i("next", 9), generics: vec![], params: vec![], return_type: Some(seq_i32()), body: None, span: s(9) }],
                is_extern: true,
                span: s(0),
            })),
            Statement::Let(LetBinding {
                visibility: Visibility::Private,
                mutable: false,
                pattern: BindingPattern::Simple(i("all", 0)),
                type_annotation: Some(seq_i32()),
                value: Expr::Literal { value: Literal::Nil, span: s(0) },
                span: s(5),
            }),
        ],
    };
    let mut a = nothing();
    a.validate_sequence_placement(&file);
    let positions: Vec<(String, Span)> = a
        .errors
        .iter()
        .map(|e| match e {
            CompilerError::SeqInvalidPosition { position, span } => (position.clone(), *span),
            other => panic!("unexpected {other:?}"),
        })
        .collect();
    assert_eq!(
        positions,
        vec![
            ("a struct field".to_string(), s(1)),
            ("a parameter that is not `sink`; a sequence must be consumed, so write `sink`".to_string(), s(3)),
            ("a function return type".to_string(), s(20)),
            ("a module-level let".to_string(), s(5)),
        ]
    );
    assert!(SemanticAnalyzer::mentions_sequence(&Type::Dictionary { key: Box::new(Type::Primitive(PrimitiveType::String)), value: Box::new(seq_i32()) }));
    assert!(!SemanticAnalyzer::mentions_sequence(&Type::Ident(i("Seq", 0))));
}

/// `struct Hidden` (private), `pub struct Shown`, `trait Secret` (private),
/// and `pub mod inner` whose own `Hidden` is public.
fn privacy_table() -> SymbolTable {
    let mut inner = SymbolTable::new();
    inner.structs.push(StructInfo { name: "Hidden".to_string(), visibility: Visibility::Public, generics: vec![], fields: vec![] });
    let mut st = SymbolTable::new();
    st.structs.push(StructInfo { name: "Hidden".to_string(), visibility: Visibility::Private, generics: vec![], fields: vec![] });
    st.structs.push(StructInfo { name: "Shown".to_string(), visibility: Visibility::Public, generics: vec![], fields: vec![] });
    st.traits.push(TraitInfo { name: "Secret".to_string(), visibility: Visibility::Private, methods: vec![], composed_traits: vec![] });
    st.modules.push(ModuleInfo { name: "inner".to_string(), visibility: Visibility::Public, symbols: inner });
    st
}

#[test]
fn a_private_type_in_a_public_signature_is_reported_with_its_position() {
    let hidden = || Type::Ident(i("Hidden", 0));
    let mut f = function("make", vec![fparam("seed", ParamConvention::Let, Type::Array(Box::new(hidden())), 2)], Some(Type::Optional(Box::new(hidden()))), None);
    f.generics = vec![GenericParam {
        name: i("T", 0),
        constraints: vec![GenericConstraint::Trait { name: i("Secret", 7), args: vec![] }],
        span: s(0),
    }];
    let file = File {
        statements: vec![
            def(strukt("Shown", Visibility::Public, vec![sfield("inside", hidden(), 1), sfield("other", Type::Ident(i("Elsewhere", 0)), 3)])),
            def(Definition::Function(f)),
            def(Definition::Module(ModuleDef {
                visibility: Visibility::Public,
                name: i("inner", 0),
                definitions: vec![strukt("Uses", Visibility::Public, vec![sfield("h", hidden(), 4)])],
                span: s(0),
            })),
            Statement::Let(LetBinding {
                visibility: Visibility::Public,
                mutable: false,
                pattern: BindingPattern::Simple(i("global", 0)),
                type_annotation: Some(hidden()),
                value: Expr::Literal { value: Literal::Nil, span: s(0) },
                span: s(6),
            }),
        ],
    };
    let mut a = SemanticAnalyzer::new(privacy_table());
    a.validate_private_in_public(&file);
    let reports: Vec<(String, String, Span)> = a
        .errors
        .iter()
        .map(|e| match e {
            CompilerError::PrivateTypeInPublic { named_type, position, span } => (named_type.clone(), position.clone(), *span),
            other => panic!("unexpected {other:?}"),
        })
        .collect();
    assert_eq!(
        reports,
        vec![
            ("Hidden".to_string(), "field 'inside' of struct Shown".to_string(), s(1)),
            ("Secret".to_string(), "a bound of make".to_string(), s(7)),
            ("Hidden".to_string(), "parameter 'seed' of make".to_string(), s(2)),
            ("Hidden".to_string(), "the return type of make".to_string(), s(21)),
            ("Hidden".to_string(), "a public let".to_string(), s(6)),
        ]
    );
}

#[test]
fn the_innermost_scope_decides_privacy() {
    let st = privacy_table();
    let inner = &st.modules[0].symbols;
    assert!(type_is_private(&vec![&st], "Hidden"));
    assert!(!type_is_private(&vec![inner, &st], "Hidden"));
    assert!(type_is_private(&vec![inner, &st], "Secret"));
    assert!(!type_is_private(&vec![&st], "Unknown"));
}

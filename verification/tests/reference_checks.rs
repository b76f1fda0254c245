use lib::analyzer::SemanticAnalyzer;
use lib::ast::{FieldDef, Ident, PrimitiveType, Span, Type, Visibility};
use lib::error::CompilerError;
use lib::sem_type::SemType;
use lib::symbols::{EnumInfo, LetInfo, StructInfo, SymbolTable};

fn at(n: usize) -> Span {
    Span { start: n, end: n + 1 }
}

fn id(text: &str, n: usize) -> Ident {
    Ident { name: text.to_string(), span: at(n) }
}

fn chain(parts: &[&str]) -> Vec<Ident> {
    parts.iter().enumerate().map(|(i, p)| id(p, 10 + i)).collect()
}

fn field(name: &str, ty: Type) -> FieldDef {
    FieldDef { name: id(name, 0), ty, span: at(0) }
}

fn shown(errors: &[CompilerError]) -> Vec<String> {
    errors.iter().map(|e| format!("{e:?}")).collect()
}

fn one(e: CompilerError) -> Vec<String> {
    vec![format!("{e:?}")]
}

fn geometry() -> SemanticAnalyzer {
    let mut st = SymbolTable::new();
    st.structs.push(StructInfo {
        name: "Point".to_string(),
        visibility: Visibility::Public,
        generics: vec![],
        fields: vec![field("x", Type::Primitive(PrimitiveType::I32)), field("y", Type::Primitive(PrimitiveType::I32))],
    });
    st.structs.push(StructInfo {
        name: "Segment".to_string(),
        visibility: Visibility::Public,
        generics: vec![],
        fields: vec![field("from", Type::Ident(id("Point", 0))), field("to", Type::Optional(Box::new(Type::Ident(id("Point", 0)))))],
    });
    st.enums.push(EnumInfo { name: "Mode".to_string(), visibility: Visibility::Public, generics: vec![], variants: vec![], variant_fields: vec![] });
    st.lets.push(LetInfo { name: "origin".to_string(), visibility: Visibility::Public, ty: SemType::Named("Point".to_string()) });
    SemanticAnalyzer::new(st)
}

#[test]
fn a_field_chain_through_structs_and_an_optional_reports_nothing() {
    let mut a = geometry();
    a.local_let_bindings.push(("seg".to_string(), SemType::Named("Segment".to_string())));
    a.validate_expr_reference(&chain(&["seg", "to", "x"]), at(1));
    a.validate_expr_reference(&chain(&["origin", "y"]), at(2));
    assert!(a.errors.is_empty(), "{:?}", a.errors);
}

#[test]
fn a_missing_field_in_a_chain_is_an_unknown_field_of_the_type_reached() {
    let mut a = geometry();
    a.local_let_bindings.push(("seg".to_string(), SemType::Named("Segment".to_string())));
    a.validate_expr_reference(&chain(&["seg", "from", "z", "w"]), at(3));
    assert_eq!(
        shown(&a.errors),
        one(CompilerError::UnknownField { field: "z".to_string(), named_type: "Point".to_string(), span: at(3) })
    );
}

#[test]
fn a_primitive_has_no_fields() {
    let mut a = geometry();
    a.validate_expr_reference(&chain(&["origin", "x", "bits"]), at(4));
    assert_eq!(
        shown(&a.errors),
        one(CompilerError::UnknownField { field: "bits".to_string(), named_type: "I32".to_string(), span: at(4) })
    );
}

#[test]
fn a_tuple_is_walked_by_its_labels() {
    let mut a = geometry();
    let pair = SemType::Tuple(vec![("left".to_string(), SemType::Named("Point".to_string())), ("n".to_string(), SemType::Primitive(PrimitiveType::I64))]);
    a.local_let_bindings.push(("pair".to_string(), pair));
    a.validate_expr_reference(&chain(&["pair", "left", "x"]), at(5));
    assert!(a.errors.is_empty(), "{:?}", a.errors);
    a.validate_expr_reference(&chain(&["pair", "right"]), at(6));
    assert_eq!(shown(&a.errors).len(), 1);
    match &a.errors[0] {
        CompilerError::UnknownField { field, span, .. } => {
            assert_eq!(field, "right");
            assert_eq!(*span, at(6));
        },
        other => panic!("unexpected {other:?}"),
    }
}

#[test]
fn an_enum_value_carries_no_fields() {
    let mut a = geometry();
    a.local_let_bindings.push(("m".to_string(), SemType::Named("Mode".to_string())));
    a.validate_expr_reference(&chain(&["m", "level"]), at(7));
    assert_eq!(
        shown(&a.errors),
        one(CompilerError::UnknownField { field: "level".to_string(), named_type: "Mode".to_string(), span: at(7) })
    );
}

#[test]
fn a_type_unknown_here_ends_the_walk_quietly() {
    let mut a = geometry();
    a.local_let_bindings.push(("ext".to_string(), SemType::Named("Imported".to_string())));
    a.validate_expr_reference(&chain(&["ext", "anything", "deeper"]), at(8));
    assert!(a.errors.is_empty(), "{:?}", a.errors);
}

#[test]
fn names_not_in_scope_are_undefined_references() {
    let mut a = geometry();
    a.validate_expr_reference(&chain(&["ghost"]), at(9));
    a.validate_expr_reference(&chain(&["nowhere", "x"]), at(11));
    assert_eq!(
        shown(&a.errors),
        vec![
            format!("{:?}", CompilerError::UndefinedReference { name: "ghost".to_string(), span: at(9) }),
            format!("{:?}", CompilerError::UndefinedReference { name: "nowhere".to_string(), span: at(10) }),
        ]
    );
}

#[test]
fn a_root_in_scope_without_a_known_type_is_left_alone() {
    let mut a = geometry();
    a.loop_var_scopes.push(vec!["item".to_string()]);
    a.validate_expr_reference(&chain(&["item"]), at(1));
    a.validate_expr_reference(&chain(&["item", "x"]), at(1));
    assert!(a.errors.is_empty(), "{:?}", a.errors);
}

#[test]
fn a_consumed_binding_cannot_be_referenced() {
    let mut a = geometry();
    a.local_let_bindings.push(("seg".to_string(), SemType::Named("Segment".to_string())));
    a.consumed_bindings.push("seg".to_string());
    a.validate_expr_reference(&chain(&["seg", "nothing"]), at(12));
    assert_eq!(shown(&a.errors), one(CompilerError::UseAfterSink { name: "seg".to_string(), span: at(12) }));
}

#[test]
fn self_needs_an_impl_and_self_field_a_declared_field() {
    let mut a = geometry();
    a.validate_expr_reference(&chain(&["self"]), at(13));
    a.current_impl_struct = Some("Point".to_string());
    a.validate_expr_reference(&chain(&["self"]), at(14));
    a.validate_expr_reference(&chain(&["self", "x"]), at(15));
    a.validate_expr_reference(&chain(&["self", "z"]), at(16));
    assert_eq!(
        shown(&a.errors),
        vec![
            format!("{:?}", CompilerError::UndefinedReference { name: "self".to_string(), span: at(13) }),
            format!("{:?}", CompilerError::UndefinedReference { name: "self.z".to_string(), span: at(16) }),
        ]
    );
}

use lib::ast::{
    Definition, EnumDef, EnumVariant, Expr, FieldDef, File, FnParam, FunctionDef, Ident, Literal, ModuleDef,
    NumberLiteral, NumberSourceKind, NumberValue, ParamConvention, PrimitiveType, Span, Statement, Type, Visibility,
};
use lib::symbols::SymbolTable;
use lib::value_paths::rewrite_value_paths;

fn span() -> Span {
    Span { start: 0, end: 0 }
}

fn ident(name: &str) -> Ident {
    Ident { name: name.to_string(), span: span() }
}

fn integer(value: i128) -> Expr {
    Expr::Literal {
        value: Literal::Number(NumberLiteral {
            value: NumberValue::Integer(value),
            suffix: None,
            kind: NumberSourceKind::Integer,
        }),
        span: span(),
    }
}

/// `Name.variant(label: value, ...)` as the parser reads it.
fn dotted(name: &str, variant: &str, data: Vec<(Ident, Expr)>) -> Expr {
    Expr::EnumInstantiation { enum_name: ident(name), variant: ident(variant), data, span: span() }
}

fn function(name: &str, params: Vec<FnParam>, return_type: Type, body: Expr) -> Definition {
    Definition::Function(FunctionDef {
        visibility: Visibility::Public,
        name: ident(name),
        generics: vec![],
        params,
        return_type: Some(return_type),
        body: Some(body),
        extern_abi: None,
        span: span(),
    })
}

fn param(name: &str, ty: Type) -> FnParam {
    FnParam {
        convention: ParamConvention::Let,
        external_label: None,
        name: ident(name),
        ty: Some(ty),
        default: None,
        span: span(),
    }
}

/// `enum E { a, b(n: I32) }`, or only `a` when `with_payload` is false.
fn enum_e(with_payload: bool) -> Definition {
    let mut variants = vec![EnumVariant { name: ident("a"), fields: vec![], span: span() }];
    if with_payload {
        variants.push(EnumVariant {
            name: ident("b"),
            fields: vec![FieldDef { name: ident("n"), ty: Type::Primitive(PrimitiveType::I32), span: span() }],
            span: span(),
        });
    }
    Definition::Enum(EnumDef {
        visibility: Visibility::Public,
        name: ident("E"),
        generics: vec![],
        variants,
        span: span(),
    })
}

fn file_of(definitions: Vec<Definition>) -> File {
    File { statements: definitions.into_iter().map(|d| Statement::Definition(Box::new(d))).collect() }
}

/// The body of the function `name` among `definitions`.
fn body_of<'a>(definitions: &'a [Definition], name: &str) -> Result<&'a Expr, Box<dyn std::error::Error>> {
    definitions
        .iter()
        .find_map(|def| match def {
            Definition::Function(f) if f.name.name == name => f.body.as_ref(),
            _ => None,
        })
        .ok_or_else(|| "no such function".into())
}

fn top_level(file: &File) -> Vec<&Definition> {
    file.statements
        .iter()
        .filter_map(|s| match s {
            Statement::Definition(def) => Some(&**def),
            _ => None,
        })
        .collect()
}

#[test]
fn a_value_name_becomes_a_method_call() -> Result<(), Box<dyn std::error::Error>> {
    // pub fn f(G: String) -> String { G.slice(start: 1, end: 3) }
    let body = dotted("G", "slice", vec![(ident("start"), integer(1)), (ident("end"), integer(3))]);
    let mut file = file_of(vec![function(
        "f",
        vec![param("G", Type::Primitive(PrimitiveType::String))],
        Type::Primitive(PrimitiveType::String),
        body,
    )]);
    rewrite_value_paths(&mut file, &SymbolTable::new());
    let definitions: Vec<&Definition> = top_level(&file);
    let Definition::Function(f) = definitions[0] else {
        return Err("no such function".into());
    };
    let body = f.body.as_ref().ok_or("no body")?;
    if !matches!(body, Expr::MethodCall { .. }) {
        return Err(format!("expected a method call, got {body:?}").into());
    }
    Ok(())
}

#[test]
fn an_enum_of_an_inline_module_stays_an_enum_instantiation() -> Result<(), Box<dyn std::error::Error>> {
    // pub mod m {
    //   pub enum E { a, b(n: I32) }
    //   pub fn pick() -> E { E.a }
    //   pub fn pick2() -> E { E.b(n: 1) }
    // }
    let module = Definition::Module(ModuleDef {
        visibility: Visibility::Public,
        name: ident("m"),
        definitions: vec![
            enum_e(true),
            function("pick", vec![], Type::Ident(ident("E")), dotted("E", "a", vec![])),
            function("pick2", vec![], Type::Ident(ident("E")), dotted("E", "b", vec![(ident("n"), integer(1))])),
        ],
        span: span(),
    });
    let mut file = file_of(vec![module]);
    rewrite_value_paths(&mut file, &SymbolTable::new());
    let Some(Definition::Module(m)) = top_level(&file).first().copied() else {
        return Err("no such module".into());
    };
    for name in ["pick", "pick2"] {
        let body = body_of(&m.definitions, name)?;
        if !matches!(body, Expr::EnumInstantiation { .. }) {
            return Err(format!("{name}: expected an enum instantiation, got {body:?}").into());
        }
    }
    Ok(())
}

#[test]
fn a_top_level_enum_stays_an_enum_instantiation() -> Result<(), Box<dyn std::error::Error>> {
    // pub enum E { a }
    // pub fn pick() -> E { E.a }
    let mut file = file_of(vec![
        enum_e(false),
        function("pick", vec![], Type::Ident(ident("E")), dotted("E", "a", vec![])),
    ]);
    rewrite_value_paths(&mut file, &SymbolTable::new());
    let definitions: Vec<&Definition> = top_level(&file);
    let body = definitions
        .iter()
        .find_map(|def| match def {
            Definition::Function(f) if f.name.name == "pick" => f.body.as_ref(),
            _ => None,
        })
        .ok_or("no such function")?;
    // The symbol table is empty here, so the enum is known only from the
    // file.
    if matches!(body, Expr::EnumInstantiation { .. }) {
        return Ok(());
    }
    Err(format!("expected an enum instantiation, got {body:?}").into())
}

#[test]
fn a_second_rewrite_changes_nothing() {
    // pub enum E { a, b(n: I32) }
    // pub fn f(G: String) -> String { G.slice(start: 1, end: E.b(n: G.len)) }
    let inner = dotted("E", "b", vec![(ident("n"), dotted("G", "len", vec![]))]);
    let body = dotted("G", "slice", vec![(ident("start"), integer(1)), (ident("end"), inner)]);
    let mut file = file_of(vec![
        enum_e(true),
        function("f", vec![param("G", Type::Primitive(PrimitiveType::String))], Type::Primitive(PrimitiveType::String), body),
    ]);
    rewrite_value_paths(&mut file, &SymbolTable::new());
    let once = format!("{file:?}");
    assert!(once.contains("MethodCall"));
    rewrite_value_paths(&mut file, &SymbolTable::new());
    assert_eq!(format!("{file:?}"), once);
}

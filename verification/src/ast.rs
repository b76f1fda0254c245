//! The syntax tree that the semantic passes read and rewrite.
//!
//! A file is a list of statements. A statement is a `use`, a module-level
//! `let`, or a definition; definitions nest through inline modules.
//! Expressions and written types are recursive trees.

use vstd::prelude::*;

verus! {

/// A region of the source text, by character offset.
#[derive(Clone, Copy, Debug, PartialEq, Eq, Structural)]
pub struct Span {
    pub start: usize,
    pub end: usize,
}

/// A name as written, with where it was written.
#[derive(Debug)]
pub struct Ident {
    pub name: String,
    pub span: Span,
}

#[derive(Clone, Copy, Debug, PartialEq, Eq, Structural)]
pub enum PrimitiveType {
    String,
    I32,
    I64,
    F32,
    F64,
    Boolean,
    Never,
}

/// How a parameter receives its argument.
#[derive(Clone, Copy, Debug, PartialEq, Eq, Structural)]
pub enum ParamConvention {
    Let,
    Mut,
    Sink,
}

#[derive(Clone, Copy, Debug, PartialEq, Eq, Structural)]
pub enum Visibility {
    Public,
    Private,
}

/// One element of a tuple type, with its optional label.
#[derive(Debug)]
pub struct TupleTypeField {
    pub name: Option<Ident>,
    pub ty: Type,
    pub span: Span,
}

/// A type as the source writes it.
#[derive(Debug)]
pub enum Type {
    Primitive(PrimitiveType),
    Ident(Ident),
    Generic { name: Ident, args: Vec<Type>, span: Span },
    Array(Box<Type>),
    Optional(Box<Type>),
    Tuple(Vec<TupleTypeField>),
    Dictionary { key: Box<Type>, value: Box<Type> },
    Closure { params: Vec<(ParamConvention, Type)>, ret: Box<Type> },
}

#[derive(Clone, Copy, Debug, PartialEq, Eq, Structural)]
pub enum BinaryOperator {
    Add,
    Sub,
    Mul,
    Div,
    Mod,
    Lt,
    Gt,
    Le,
    Ge,
    Eq,
    Ne,
    And,
    Or,
    Range,
}

#[derive(Clone, Copy, Debug, PartialEq, Eq, Structural)]
pub enum UnaryOperator {
    Neg,
    Not,
}

/// Whether a number was written with integer or with float syntax.
#[derive(Clone, Copy, Debug, PartialEq, Eq, Structural)]
pub enum NumberSourceKind {
    Integer,
    Float,
}

/// The value of a number literal. A float value is kept as it was
/// written.
#[derive(Debug)]
pub enum NumberValue {
    Integer(i128),
    Float(String),
}

#[derive(Debug)]
pub struct NumberLiteral {
    pub value: NumberValue,
    pub suffix: Option<PrimitiveType>,
    pub kind: NumberSourceKind,
}

#[derive(Debug)]
pub enum Literal {
    String(String),
    Number(NumberLiteral),
    Boolean(bool),
    Nil,
}

/// A pattern that introduces bindings: `x`, `[a, b]`, `(a, b)`,
/// `{ x, y: renamed }`.
#[derive(Debug)]
pub enum BindingPattern {
    Simple(Ident),
    Array { elements: Vec<ArrayPatternElement>, span: Span },
    Tuple { elements: Vec<BindingPattern>, span: Span },
    Struct { fields: Vec<StructPatternField>, span: Span },
}

/// One element of an array pattern: a nested pattern, the rest of the
/// array (bound to a name or not), or a skipped position.
#[derive(Debug)]
pub enum ArrayPatternElement {
    Binding(BindingPattern),
    Rest(Option<Ident>),
    Wildcard,
}

/// One field of a struct pattern; the binding is the alias when there
/// is one, else the field's own name.
#[derive(Debug)]
pub struct StructPatternField {
    pub name: Ident,
    pub alias: Option<Ident>,
}

/// The pattern of a `match` arm.
#[derive(Debug)]
pub enum Pattern {
    Variant { name: Ident, bindings: Vec<Ident> },
    Wildcard,
}

#[derive(Debug)]
pub struct MatchArm {
    pub pattern: Pattern,
    pub body: Expr,
    pub span: Span,
}

#[derive(Debug)]
pub struct ClosureParam {
    pub convention: ParamConvention,
    pub name: Ident,
    pub ty: Option<Type>,
    pub span: Span,
}

/// A statement inside a block expression.
#[derive(Debug)]
pub enum BlockStatement {
    Let { mutable: bool, pattern: BindingPattern, ty: Option<Type>, value: Expr, span: Span },
    Assign { target: Expr, value: Expr, span: Span },
    Expr(Expr),
}

#[derive(Debug)]
pub enum Expr {
    Literal { value: Literal, span: Span },
    /// A name, or a dotted path of names: `x`, `p.x`.
    Reference { path: Vec<Ident>, span: Span },
    /// A call of a function or a struct by name.
    Invocation {
        path: Vec<Ident>,
        type_args: Vec<Type>,
        args: Vec<(Option<Ident>, Expr)>,
        span: Span,
    },
    MethodCall {
        receiver: Box<Expr>,
        method: Ident,
        args: Vec<(Option<Ident>, Expr)>,
        span: Span,
    },
    /// `Name.variant` or `Name.variant(label: value, ...)`.
    EnumInstantiation { enum_name: Ident, variant: Ident, data: Vec<(Ident, Expr)>, span: Span },
    /// `.variant(label: value, ...)`, whose enum comes from the context.
    InferredEnumInstantiation { variant: Ident, data: Vec<(Ident, Expr)>, span: Span },
    Tuple { fields: Vec<(Ident, Expr)>, span: Span },
    Array { elements: Vec<Expr>, span: Span },
    BinaryOp { left: Box<Expr>, op: BinaryOperator, right: Box<Expr>, span: Span },
    UnaryOp { op: UnaryOperator, operand: Box<Expr>, span: Span },
    Group { expr: Box<Expr>, span: Span },
    ClosureExpr {
        params: Vec<ClosureParam>,
        return_type: Option<Type>,
        body: Box<Expr>,
        span: Span,
    },
    FieldAccess { object: Box<Expr>, field: Ident, span: Span },
    ForExpr { var: Ident, collection: Box<Expr>, body: Box<Expr>, span: Span },
    IfExpr {
        condition: Box<Expr>,
        then_branch: Box<Expr>,
        else_branch: Option<Box<Expr>>,
        span: Span,
    },
    MatchExpr { scrutinee: Box<Expr>, arms: Vec<MatchArm>, span: Span },
    DictLiteral { entries: Vec<(Expr, Expr)>, span: Span },
    DictAccess { dict: Box<Expr>, key: Box<Expr>, span: Span },
    /// `let pattern = value { body }`, the optional-unwrap form.
    LetExpr {
        mutable: bool,
        pattern: BindingPattern,
        ty: Option<Type>,
        value: Box<Expr>,
        body: Box<Expr>,
        span: Span,
    },
    Block { statements: Vec<BlockStatement>, result: Box<Expr>, span: Span },
}

/// Where an expression stands in the source.
pub open spec fn expr_span(e: Expr) -> Span {
    match e {
        Expr::Literal { span, .. } => span,
        Expr::Reference { span, .. } => span,
        Expr::Invocation { span, .. } => span,
        Expr::MethodCall { span, .. } => span,
        Expr::EnumInstantiation { span, .. } => span,
        Expr::InferredEnumInstantiation { span, .. } => span,
        Expr::Tuple { span, .. } => span,
        Expr::Array { span, .. } => span,
        Expr::BinaryOp { span, .. } => span,
        Expr::UnaryOp { span, .. } => span,
        Expr::Group { span, .. } => span,
        Expr::ClosureExpr { span, .. } => span,
        Expr::FieldAccess { span, .. } => span,
        Expr::ForExpr { span, .. } => span,
        Expr::IfExpr { span, .. } => span,
        Expr::MatchExpr { span, .. } => span,
        Expr::DictLiteral { span, .. } => span,
        Expr::DictAccess { span, .. } => span,
        Expr::LetExpr { span, .. } => span,
        Expr::Block { span, .. } => span,
    }
}

impl Expr {
    /// Where this expression stands in the source.
    pub fn span(&self) -> (r: Span)
        ensures
            r == expr_span(*self),
    {
        match self {
            Expr::Literal { span, .. } => *span,
            Expr::Reference { span, .. } => *span,
            Expr::Invocation { span, .. } => *span,
            Expr::MethodCall { span, .. } => *span,
            Expr::EnumInstantiation { span, .. } => *span,
            Expr::InferredEnumInstantiation { span, .. } => *span,
            Expr::Tuple { span, .. } => *span,
            Expr::Array { span, .. } => *span,
            Expr::BinaryOp { span, .. } => *span,
            Expr::UnaryOp { span, .. } => *span,
            Expr::Group { span, .. } => *span,
            Expr::ClosureExpr { span, .. } => *span,
            Expr::FieldAccess { span, .. } => *span,
            Expr::ForExpr { span, .. } => *span,
            Expr::IfExpr { span, .. } => *span,
            Expr::MatchExpr { span, .. } => *span,
            Expr::DictLiteral { span, .. } => *span,
            Expr::DictAccess { span, .. } => *span,
            Expr::LetExpr { span, .. } => *span,
            Expr::Block { span, .. } => *span,
        }
    }
}

/// A bound on a generic parameter.
#[derive(Debug)]
pub enum GenericConstraint {
    Trait { name: Ident, args: Vec<Type> },
}

#[derive(Debug)]
pub struct GenericParam {
    pub name: Ident,
    pub constraints: Vec<GenericConstraint>,
    pub span: Span,
}

#[derive(Debug)]
pub struct FnParam {
    pub convention: ParamConvention,
    /// The label a call uses for this parameter, when it differs from
    /// the name.
    pub external_label: Option<Ident>,
    pub name: Ident,
    pub ty: Option<Type>,
    pub default: Option<Expr>,
    pub span: Span,
}

#[derive(Debug)]
pub struct StructField {
    pub mutable: bool,
    pub name: Ident,
    pub ty: Type,
    pub default: Option<Expr>,
    /// A field written `name?: T`, which an instantiation may leave out.
    pub optional: bool,
    pub span: Span,
}

/// A payload field of an enum variant, or a field of a trait.
#[derive(Debug)]
pub struct FieldDef {
    pub name: Ident,
    pub ty: Type,
    pub span: Span,
}

#[derive(Debug)]
pub struct EnumVariant {
    pub name: Ident,
    pub fields: Vec<FieldDef>,
    pub span: Span,
}

#[derive(Debug)]
pub struct StructDef {
    pub visibility: Visibility,
    pub name: Ident,
    pub generics: Vec<GenericParam>,
    pub fields: Vec<StructField>,
    pub span: Span,
}

#[derive(Debug)]
pub struct EnumDef {
    pub visibility: Visibility,
    pub name: Ident,
    pub generics: Vec<GenericParam>,
    pub variants: Vec<EnumVariant>,
    pub span: Span,
}

/// The signature of a trait method.
#[derive(Debug)]
pub struct FnSignature {
    pub name: Ident,
    pub generics: Vec<GenericParam>,
    pub params: Vec<FnParam>,
    pub return_type: Option<Type>,
    pub span: Span,
}

#[derive(Debug)]
pub struct TraitDef {
    pub visibility: Visibility,
    pub name: Ident,
    pub generics: Vec<GenericParam>,
    /// The traits that this trait requires of its implementors.
    pub traits: Vec<Ident>,
    pub fields: Vec<FieldDef>,
    pub methods: Vec<FnSignature>,
    pub span: Span,
}

/// A method inside an `impl` block.
#[derive(Debug)]
pub struct FnDef {
    pub name: Ident,
    pub generics: Vec<GenericParam>,
    pub params: Vec<FnParam>,
    pub return_type: Option<Type>,
    pub body: Option<Expr>,
    pub span: Span,
}

#[derive(Debug)]
pub struct ImplDef {
    pub name: Ident,
    pub trait_name: Option<Ident>,
    pub generics: Vec<GenericParam>,
    pub functions: Vec<FnDef>,
    pub is_extern: bool,
    pub span: Span,
}

#[derive(Debug)]
pub struct FunctionDef {
    pub visibility: Visibility,
    pub name: Ident,
    pub generics: Vec<GenericParam>,
    pub params: Vec<FnParam>,
    pub return_type: Option<Type>,
    pub body: Option<Expr>,
    /// Present on an `extern fn`.
    pub extern_abi: Option<String>,
    pub span: Span,
}

#[derive(Debug)]
pub struct ModuleDef {
    pub visibility: Visibility,
    pub name: Ident,
    pub definitions: Vec<Definition>,
    pub span: Span,
}

#[derive(Debug)]
pub enum Definition {
    Trait(TraitDef),
    Struct(StructDef),
    Impl(ImplDef),
    Enum(EnumDef),
    Module(ModuleDef),
    Function(FunctionDef),
}

#[derive(Debug)]
pub struct LetBinding {
    pub visibility: Visibility,
    pub mutable: bool,
    pub pattern: BindingPattern,
    pub type_annotation: Option<Type>,
    pub value: Expr,
    pub span: Span,
}

#[derive(Debug)]
pub struct UseStmt {
    pub path: Vec<Ident>,
    pub span: Span,
}

#[derive(Debug)]
pub enum Statement {
    Use(UseStmt),
    Let(LetBinding),
    Definition(Box<Definition>),
}

#[derive(Debug)]
pub struct File {
    pub statements: Vec<Statement>,
}

} // verus!

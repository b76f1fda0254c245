//! Separate an enum instantiation from a use of a value.
//!
//! The parser reads `Name.variant` and `Name.variant(label: value)` as an
//! enum instantiation when `Name` starts with an uppercase letter. The
//! same text is a field access or a method call when `Name` is a value:
//! `G.slice(start: 1, end: 3)` on a `let G: String`.
//!
//! This pass runs after the symbol table is complete. It changes each
//! `EnumInstantiation` whose name is not a type or a trait into the
//! expression that the text means for a value. A type declared in an
//! inline `mod` counts too. When a local binding has the name of an
//! enum, the enum wins.

use vstd::prelude::*;
use crate::ast::{
    BlockStatement, Definition, Expr, File, FnDef, FnParam, FnSignature, Ident, MatchArm,
    Statement, StructField, Span,
};
use crate::symbols::SymbolTable;
use crate::text::{contains_path_separator, has_path_separator, list_contains, views};

verus! {

broadcast use vstd::std_specs::vec::group_vec_axioms;

/// The names that a type can have: the symbol table, which holds the
/// imports, and each type that the file declares, at the top level or
/// in an inline `mod`.
pub struct TypeNames<'a> {
    pub symbols: &'a SymbolTable,
    pub in_file: Vec<String>,
}

/// What a name is checked against: the symbol table and the types that
/// the file declares.
pub ghost struct TypeScope {
    pub symbols: SymbolTable,
    pub in_file: Seq<Seq<char>>,
}

impl TypeScope {
    /// True when `name` can only be a value: it is one path segment, and
    /// no type or trait has that name.
    pub open spec fn names_value(self, name: Seq<char>) -> bool {
        &&& !has_path_separator(name)
        &&& !self.symbols.names_type(name)
        &&& !self.symbols.has_trait(name)
        &&& !self.in_file.contains(name)
    }
}

impl<'a> View for TypeNames<'a> {
    type V = TypeScope;

    open spec fn view(&self) -> TypeScope {
        TypeScope { symbols: *self.symbols, in_file: views(self.in_file@) }
    }
}

/// `new` is `old` with every value path rewritten, `old` itself first.
pub open spec fn rewrites(old: Expr, new: Expr, t: TypeScope) -> bool
    decreases old, 1nat,
{
    match old {
        Expr::EnumInstantiation { enum_name, variant, data, span } => {
            if t.names_value(enum_name.name@) {
                if data@.len() == 0 {
                    // `Name.field`, the same shape as `name.field`.
                    new matches Expr::Reference { path, span: s2 }
                        && s2 == span && path@ == seq![enum_name, variant]
                } else {
                    // `Name.method(label: value, ...)`.
                    &&& new matches Expr::MethodCall { receiver, method, args, span: s2 }
                    &&& s2 == span
                    &&& method == variant
                    &&& *receiver matches Expr::Reference { path, span: rs }
                    &&& rs == enum_name.span
                    &&& path@ == seq![enum_name]
                    &&& rewrites_data_to_args(data@, args@, t)
                }
            } else {
                rewrites_children(old, new, t)
            }
        },
        _ => rewrites_children(old, new, t),
    }
}

/// `new` has the constructor and the plain fields of `old`, and each
/// sub-expression of `old` rewritten.
pub open spec fn rewrites_children(old: Expr, new: Expr, t: TypeScope) -> bool
    decreases old, 0nat,
{
    match old {
        Expr::Literal { .. } | Expr::Reference { .. } => new == old,
        Expr::Invocation { path, type_args, args, span } => {
            &&& new matches Expr::Invocation { path: p2, type_args: t2, args: a2, span: s2 }
            &&& p2 == path && t2 == type_args && s2 == span
            &&& rewrites_args(args@, a2@, t)
        },
        Expr::MethodCall { receiver, method, args, span } => {
            &&& new matches Expr::MethodCall { receiver: r2, method: m2, args: a2, span: s2 }
            &&& m2 == method && s2 == span
            &&& rewrites(*receiver, *r2, t)
            &&& rewrites_args(args@, a2@, t)
        },
        Expr::EnumInstantiation { enum_name, variant, data, span } => {
            &&& new matches Expr::EnumInstantiation { enum_name: n2, variant: v2, data: d2, span: s2 }
            &&& n2 == enum_name && v2 == variant && s2 == span
            &&& rewrites_labeled(data@, d2@, t)
        },
        Expr::InferredEnumInstantiation { variant, data, span } => {
            &&& new matches Expr::InferredEnumInstantiation { variant: v2, data: d2, span: s2 }
            &&& v2 == variant && s2 == span
            &&& rewrites_labeled(data@, d2@, t)
        },
        Expr::Tuple { fields, span } => {
            &&& new matches Expr::Tuple { fields: f2, span: s2 }
            &&& s2 == span
            &&& rewrites_labeled(fields@, f2@, t)
        },
        Expr::Array { elements, span } => {
            &&& new matches Expr::Array { elements: e2, span: s2 }
            &&& s2 == span
            &&& rewrites_list(elements@, e2@, t)
        },
        Expr::BinaryOp { left, op, right, span } => {
            &&& new matches Expr::BinaryOp { left: l2, op: o2, right: r2, span: s2 }
            &&& o2 == op && s2 == span
            &&& rewrites(*left, *l2, t)
            &&& rewrites(*right, *r2, t)
        },
        Expr::UnaryOp { op, operand, span } => {
            &&& new matches Expr::UnaryOp { op: o2, operand: x2, span: s2 }
            &&& o2 == op && s2 == span
            &&& rewrites(*operand, *x2, t)
        },
        Expr::Group { expr, span } => {
            &&& new matches Expr::Group { expr: x2, span: s2 }
            &&& s2 == span
            &&& rewrites(*expr, *x2, t)
        },
        Expr::ClosureExpr { params, return_type, body, span } => {
            &&& new matches Expr::ClosureExpr { params: p2, return_type: r2, body: b2, span: s2 }
            &&& p2 == params && r2 == return_type && s2 == span
            &&& rewrites(*body, *b2, t)
        },
        Expr::FieldAccess { object, field, span } => {
            &&& new matches Expr::FieldAccess { object: o2, field: f2, span: s2 }
            &&& f2 == field && s2 == span
            &&& rewrites(*object, *o2, t)
        },
        Expr::ForExpr { var, collection, body, span } => {
            &&& new matches Expr::ForExpr { var: v2, collection: c2, body: b2, span: s2 }
            &&& v2 == var && s2 == span
            &&& rewrites(*collection, *c2, t)
            &&& rewrites(*body, *b2, t)
        },
        Expr::IfExpr { condition, then_branch, else_branch, span } => {
            &&& new matches Expr::IfExpr { condition: c2, then_branch: t2, else_branch: e2, span: s2 }
            &&& s2 == span
            &&& rewrites(*condition, *c2, t)
            &&& rewrites(*then_branch, *t2, t)
            &&& match else_branch {
                Some(e) => e2 matches Some(x) && rewrites(*e, *x, t),
                None => e2 is None,
            }
        },
        Expr::MatchExpr { scrutinee, arms, span } => {
            &&& new matches Expr::MatchExpr { scrutinee: c2, arms: a2, span: s2 }
            &&& s2 == span
            &&& rewrites(*scrutinee, *c2, t)
            &&& rewrites_arms(arms@, a2@, t)
        },
        Expr::DictLiteral { entries, span } => {
            &&& new matches Expr::DictLiteral { entries: e2, span: s2 }
            &&& s2 == span
            &&& rewrites_entries(entries@, e2@, t)
        },
        Expr::DictAccess { dict, key, span } => {
            &&& new matches Expr::DictAccess { dict: d2, key: k2, span: s2 }
            &&& s2 == span
            &&& rewrites(*dict, *d2, t)
            &&& rewrites(*key, *k2, t)
        },
        Expr::LetExpr { mutable, pattern, ty, value, body, span } => {
            &&& new matches Expr::LetExpr { mutable: m2, pattern: p2, ty: t2, value: v2, body: b2, span: s2 }
            &&& m2 == mutable && p2 == pattern && t2 == ty && s2 == span
            &&& rewrites(*value, *v2, t)
            &&& rewrites(*body, *b2, t)
        },
        Expr::Block { statements, result, span } => {
            &&& new matches Expr::Block { statements: st2, result: r2, span: s2 }
            &&& s2 == span
            &&& rewrites_statements(statements@, st2@, t)
            &&& rewrites(*result, *r2, t)
        },
    }
}

pub open spec fn rewrites_list(old: Seq<Expr>, new: Seq<Expr>, t: TypeScope) -> bool
    decreases old, 0nat,
{
    &&& old.len() == new.len()
    &&& old.len() > 0 ==> {
        &&& rewrites_list(old.drop_last(), new.drop_last(), t)
        &&& rewrites(old.last(), new.last(), t)
    }
}

pub open spec fn rewrites_labeled(old: Seq<(Ident, Expr)>, new: Seq<(Ident, Expr)>, t: TypeScope) -> bool
    decreases old, 0nat,
{
    &&& old.len() == new.len()
    &&& old.len() > 0 ==> {
        &&& rewrites_labeled(old.drop_last(), new.drop_last(), t)
        &&& new.last().0 == old.last().0
        &&& rewrites(old.last().1, new.last().1, t)
    }
}

pub open spec fn rewrites_args(
    old: Seq<(Option<Ident>, Expr)>,
    new: Seq<(Option<Ident>, Expr)>,
    t: TypeScope,
) -> bool
    decreases old, 0nat,
{
    &&& old.len() == new.len()
    &&& old.len() > 0 ==> {
        &&& rewrites_args(old.drop_last(), new.drop_last(), t)
        &&& new.last().0 == old.last().0
        &&& rewrites(old.last().1, new.last().1, t)
    }
}

/// The payload of a converted instantiation becomes the labelled
/// arguments of the method call.
pub open spec fn rewrites_data_to_args(
    old: Seq<(Ident, Expr)>,
    new: Seq<(Option<Ident>, Expr)>,
    t: TypeScope,
) -> bool
    decreases old, 0nat,
{
    &&& old.len() == new.len()
    &&& old.len() > 0 ==> {
        &&& rewrites_data_to_args(old.drop_last(), new.drop_last(), t)
        &&& new.last().0 == Some(old.last().0)
        &&& rewrites(old.last().1, new.last().1, t)
    }
}

pub open spec fn rewrites_entries(old: Seq<(Expr, Expr)>, new: Seq<(Expr, Expr)>, t: TypeScope) -> bool
    decreases old, 0nat,
{
    &&& old.len() == new.len()
    &&& old.len() > 0 ==> {
        &&& rewrites_entries(old.drop_last(), new.drop_last(), t)
        &&& rewrites(old.last().0, new.last().0, t)
        &&& rewrites(old.last().1, new.last().1, t)
    }
}

pub open spec fn rewrites_arms(old: Seq<MatchArm>, new: Seq<MatchArm>, t: TypeScope) -> bool
    decreases old, 0nat,
{
    &&& old.len() == new.len()
    &&& old.len() > 0 ==> {
        &&& rewrites_arms(old.drop_last(), new.drop_last(), t)
        &&& new.last().pattern == old.last().pattern
        &&& new.last().span == old.last().span
        &&& rewrites(old.last().body, new.last().body, t)
    }
}

pub open spec fn rewrites_statement(old: BlockStatement, new: BlockStatement, t: TypeScope) -> bool
    decreases old, 0nat,
{
    match old {
        BlockStatement::Let { mutable, pattern, ty, value, span } => {
            &&& new matches BlockStatement::Let { mutable: m2, pattern: p2, ty: t2, value: v2, span: s2 }
            &&& m2 == mutable && p2 == pattern && t2 == ty && s2 == span
            &&& rewrites(value, v2, t)
        },
        BlockStatement::Assign { target, value, span } => {
            &&& new matches BlockStatement::Assign { target: g2, value: v2, span: s2 }
            &&& s2 == span
            &&& rewrites(target, g2, t)
            &&& rewrites(value, v2, t)
        },
        BlockStatement::Expr(e) => new matches BlockStatement::Expr(e2) && rewrites(e, e2, t),
    }
}

pub open spec fn rewrites_statements(
    old: Seq<BlockStatement>,
    new: Seq<BlockStatement>,
    t: TypeScope,
) -> bool
    decreases old, 0nat,
{
    &&& old.len() == new.len()
    &&& old.len() > 0 ==> {
        &&& rewrites_statements(old.drop_last(), new.drop_last(), t)
        &&& rewrites_statement(old.last(), new.last(), t)
    }
}

/// What a rewrite produces is its own rewrite.
pub proof fn lemma_rewrite_fixed(old: Expr, new: Expr, t: TypeScope)
    requires
        rewrites(old, new, t),
    ensures
        rewrites(new, new, t),
    decreases old, 1nat,
{
    match old {
        Expr::EnumInstantiation { enum_name, variant, data, span } => {
            if t.names_value(enum_name.name@) {
                if data@.len() == 0 {
                    assert(rewrites_children(new, new, t));
                } else {
                    match new {
                        Expr::MethodCall { receiver, method, args, span: s2 } => {
                            lemma_data_args_fixed(data@, args@, t);
                            assert(rewrites_children(*receiver, *receiver, t));
                            assert(rewrites(*receiver, *receiver, t));
                            assert(rewrites_children(new, new, t));
                        },
                        _ => {},
                    }
                }
            } else {
                lemma_children_fixed(old, new, t);
            }
        },
        _ => lemma_children_fixed(old, new, t),
    }
}

pub proof fn lemma_children_fixed(old: Expr, new: Expr, t: TypeScope)
    requires
        rewrites_children(old, new, t),
    ensures
        rewrites_children(new, new, t),
    decreases old, 0nat,
{
    match old {
        Expr::Literal { .. } | Expr::Reference { .. } => {},
        Expr::Invocation { path, type_args, args, span } => {
            if let Expr::Invocation { args: a2, .. } = new { lemma_args_fixed(args@, a2@, t); }
        },
        Expr::MethodCall { receiver, method, args, span } => {
            if let Expr::MethodCall { receiver: r2, args: a2, .. } = new {
                lemma_rewrite_fixed(*receiver, *r2, t);
                lemma_args_fixed(args@, a2@, t);
            }
        },
        Expr::EnumInstantiation { enum_name, variant, data, span } => {
            if let Expr::EnumInstantiation { data: d2, .. } = new { lemma_labeled_fixed(data@, d2@, t); }
        },
        Expr::InferredEnumInstantiation { variant, data, span } => {
            if let Expr::InferredEnumInstantiation { data: d2, .. } = new { lemma_labeled_fixed(data@, d2@, t); }
        },
        Expr::Tuple { fields, span } => {
            if let Expr::Tuple { fields: f2, .. } = new { lemma_labeled_fixed(fields@, f2@, t); }
        },
        Expr::Array { elements, span } => {
            if let Expr::Array { elements: e2, .. } = new { lemma_list_fixed(elements@, e2@, t); }
        },
        Expr::BinaryOp { left, op, right, span } => {
            if let Expr::BinaryOp { left: l2, right: r2, .. } = new {
                lemma_rewrite_fixed(*left, *l2, t);
                lemma_rewrite_fixed(*right, *r2, t);
            }
        },
        Expr::UnaryOp { op, operand, span } => {
            if let Expr::UnaryOp { operand: x2, .. } = new { lemma_rewrite_fixed(*operand, *x2, t); }
        },
        Expr::Group { expr, span } => {
            if let Expr::Group { expr: x2, .. } = new { lemma_rewrite_fixed(*expr, *x2, t); }
        },
        Expr::ClosureExpr { params, return_type, body, span } => {
            if let Expr::ClosureExpr { body: b2, .. } = new { lemma_rewrite_fixed(*body, *b2, t); }
        },
        Expr::FieldAccess { object, field, span } => {
            if let Expr::FieldAccess { object: o2, .. } = new { lemma_rewrite_fixed(*object, *o2, t); }
        },
        Expr::ForExpr { var, collection, body, span } => {
            if let Expr::ForExpr { collection: c2, body: b2, .. } = new {
                lemma_rewrite_fixed(*collection, *c2, t);
                lemma_rewrite_fixed(*body, *b2, t);
            }
        },
        Expr::IfExpr { condition, then_branch, else_branch, span } => {
            if let Expr::IfExpr { condition: c2, then_branch: t2, else_branch: e2, .. } = new {
                lemma_rewrite_fixed(*condition, *c2, t);
                lemma_rewrite_fixed(*then_branch, *t2, t);
                match else_branch {
                    Some(e) => {
                        if let Some(x) = e2 { lemma_rewrite_fixed(*e, *x, t); }
                    },
                    None => {},
                }
            }
        },
        Expr::MatchExpr { scrutinee, arms, span } => {
            if let Expr::MatchExpr { scrutinee: c2, arms: a2, .. } = new {
                lemma_rewrite_fixed(*scrutinee, *c2, t);
                lemma_arms_fixed(arms@, a2@, t);
            }
        },
        Expr::DictLiteral { entries, span } => {
            if let Expr::DictLiteral { entries: e2, .. } = new { lemma_entries_fixed(entries@, e2@, t); }
        },
        Expr::DictAccess { dict, key, span } => {
            if let Expr::DictAccess { dict: d2, key: k2, .. } = new {
                lemma_rewrite_fixed(*dict, *d2, t);
                lemma_rewrite_fixed(*key, *k2, t);
            }
        },
        Expr::LetExpr { mutable, pattern, ty, value, body, span } => {
            if let Expr::LetExpr { value: v2, body: b2, .. } = new {
                lemma_rewrite_fixed(*value, *v2, t);
                lemma_rewrite_fixed(*body, *b2, t);
            }
        },
        Expr::Block { statements, result, span } => {
            if let Expr::Block { statements: st2, result: r2, .. } = new {
                lemma_statements_fixed(statements@, st2@, t);
                lemma_rewrite_fixed(*result, *r2, t);
            }
        },
    }
}

pub proof fn lemma_list_fixed(old: Seq<Expr>, new: Seq<Expr>, t: TypeScope)
    requires
        rewrites_list(old, new, t),
    ensures
        rewrites_list(new, new, t),
    decreases old, 0nat,
{
    if old.len() > 0 {
        lemma_list_fixed(old.drop_last(), new.drop_last(), t);
        lemma_rewrite_fixed(old.last(), new.last(), t);
    }
}

pub proof fn lemma_labeled_fixed(old: Seq<(Ident, Expr)>, new: Seq<(Ident, Expr)>, t: TypeScope)
    requires
        rewrites_labeled(old, new, t),
    ensures
        rewrites_labeled(new, new, t),
    decreases old, 0nat,
{
    if old.len() > 0 {
        lemma_labeled_fixed(old.drop_last(), new.drop_last(), t);
        lemma_rewrite_fixed(old.last().1, new.last().1, t);
    }
}

pub proof fn lemma_args_fixed(old: Seq<(Option<Ident>, Expr)>, new: Seq<(Option<Ident>, Expr)>, t: TypeScope)
    requires
        rewrites_args(old, new, t),
    ensures
        rewrites_args(new, new, t),
    decreases old, 0nat,
{
    if old.len() > 0 {
        lemma_args_fixed(old.drop_last(), new.drop_last(), t);
        lemma_rewrite_fixed(old.last().1, new.last().1, t);
    }
}

pub proof fn lemma_data_args_fixed(old: Seq<(Ident, Expr)>, new: Seq<(Option<Ident>, Expr)>, t: TypeScope)
    requires
        rewrites_data_to_args(old, new, t),
    ensures
        rewrites_args(new, new, t),
    decreases old, 0nat,
{
    if old.len() > 0 {
        lemma_data_args_fixed(old.drop_last(), new.drop_last(), t);
        lemma_rewrite_fixed(old.last().1, new.last().1, t);
    }
}

pub proof fn lemma_entries_fixed(old: Seq<(Expr, Expr)>, new: Seq<(Expr, Expr)>, t: TypeScope)
    requires
        rewrites_entries(old, new, t),
    ensures
        rewrites_entries(new, new, t),
    decreases old, 0nat,
{
    if old.len() > 0 {
        lemma_entries_fixed(old.drop_last(), new.drop_last(), t);
        lemma_rewrite_fixed(old.last().0, new.last().0, t);
        lemma_rewrite_fixed(old.last().1, new.last().1, t);
    }
}

pub proof fn lemma_arms_fixed(old: Seq<MatchArm>, new: Seq<MatchArm>, t: TypeScope)
    requires
        rewrites_arms(old, new, t),
    ensures
        rewrites_arms(new, new, t),
    decreases old, 0nat,
{
    if old.len() > 0 {
        lemma_arms_fixed(old.drop_last(), new.drop_last(), t);
        lemma_rewrite_fixed(old.last().body, new.last().body, t);
    }
}

pub proof fn lemma_statement_fixed(old: BlockStatement, new: BlockStatement, t: TypeScope)
    requires
        rewrites_statement(old, new, t),
    ensures
        rewrites_statement(new, new, t),
    decreases old, 0nat,
{
    match old {
        BlockStatement::Let { value, .. } => {
            if let BlockStatement::Let { value: v2, .. } = new { lemma_rewrite_fixed(value, v2, t); }
        },
        BlockStatement::Assign { target, value, .. } => {
            if let BlockStatement::Assign { target: g2, value: v2, .. } = new {
                lemma_rewrite_fixed(target, g2, t);
                lemma_rewrite_fixed(value, v2, t);
            }
        },
        BlockStatement::Expr(e) => {
            if let BlockStatement::Expr(e2) = new { lemma_rewrite_fixed(e, e2, t); }
        },
    }
}

pub proof fn lemma_statements_fixed(old: Seq<BlockStatement>, new: Seq<BlockStatement>, t: TypeScope)
    requires
        rewrites_statements(old, new, t),
    ensures
        rewrites_statements(new, new, t),
    decreases old, 0nat,
{
    if old.len() > 0 {
        lemma_statements_fixed(old.drop_last(), new.drop_last(), t);
        lemma_statement_fixed(old.last(), new.last(), t);
    }
}

/// A default value, when there is one, rewritten.
pub open spec fn rewrites_opt(old: Option<Expr>, new: Option<Expr>, t: TypeScope) -> bool {
    match old {
        Some(e) => new matches Some(x) && rewrites(e, x, t),
        None => new is None,
    }
}

pub open spec fn rewrites_param(old: FnParam, new: FnParam, t: TypeScope) -> bool {
    &&& new.convention == old.convention
    &&& new.external_label == old.external_label
    &&& new.name == old.name
    &&& new.ty == old.ty
    &&& new.span == old.span
    &&& rewrites_opt(old.default, new.default, t)
}

pub open spec fn rewrites_params(old: Seq<FnParam>, new: Seq<FnParam>, t: TypeScope) -> bool {
    &&& old.len() == new.len()
    &&& forall|i: int| 0 <= i < old.len() ==> rewrites_param(#[trigger] old[i], new[i], t)
}

pub open spec fn rewrites_field(old: StructField, new: StructField, t: TypeScope) -> bool {
    &&& new.mutable == old.mutable
    &&& new.name == old.name
    &&& new.ty == old.ty
    &&& new.span == old.span
    &&& rewrites_opt(old.default, new.default, t)
}

pub open spec fn rewrites_fields(old: Seq<StructField>, new: Seq<StructField>, t: TypeScope) -> bool {
    &&& old.len() == new.len()
    &&& forall|i: int| 0 <= i < old.len() ==> rewrites_field(#[trigger] old[i], new[i], t)
}

pub open spec fn rewrites_signature(old: FnSignature, new: FnSignature, t: TypeScope) -> bool {
    &&& new.name == old.name
    &&& new.generics == old.generics
    &&& new.return_type == old.return_type
    &&& new.span == old.span
    &&& rewrites_params(old.params@, new.params@, t)
}

pub open spec fn rewrites_method(old: FnDef, new: FnDef, t: TypeScope) -> bool {
    &&& new.name == old.name
    &&& new.generics == old.generics
    &&& new.return_type == old.return_type
    &&& new.span == old.span
    &&& rewrites_params(old.params@, new.params@, t)
    &&& rewrites_opt(old.body, new.body, t)
}

/// `new` is the definition `old` with each default value and each body
/// rewritten, through nested modules.
pub open spec fn rewrites_definition(old: Definition, new: Definition, t: TypeScope) -> bool
    decreases old,
{
    match old {
        Definition::Trait(d) => {
            &&& new matches Definition::Trait(n)
            &&& n.visibility == d.visibility && n.name == d.name && n.generics == d.generics
            &&& n.fields == d.fields && n.span == d.span
            &&& n.methods@.len() == d.methods@.len()
            &&& forall|i: int| 0 <= i < d.methods@.len()
                ==> rewrites_signature(#[trigger] d.methods@[i], n.methods@[i], t)
        },
        Definition::Struct(d) => {
            &&& new matches Definition::Struct(n)
            &&& n.visibility == d.visibility && n.name == d.name && n.generics == d.generics
            &&& n.span == d.span
            &&& rewrites_fields(d.fields@, n.fields@, t)
        },
        Definition::Impl(d) => {
            &&& new matches Definition::Impl(n)
            &&& n.name == d.name && n.trait_name == d.trait_name && n.generics == d.generics
            &&& n.is_extern == d.is_extern && n.span == d.span
            &&& n.functions@.len() == d.functions@.len()
            &&& forall|i: int| 0 <= i < d.functions@.len()
                ==> rewrites_method(#[trigger] d.functions@[i], n.functions@[i], t)
        },
        Definition::Enum(_) => new == old,
        Definition::Module(d) => {
            &&& new matches Definition::Module(n)
            &&& n.visibility == d.visibility && n.name == d.name && n.span == d.span
            &&& rewrites_definitions(d.definitions@, n.definitions@, t)
        },
        Definition::Function(d) => {
            &&& new matches Definition::Function(n)
            &&& n.visibility == d.visibility && n.name == d.name && n.generics == d.generics
            &&& n.return_type == d.return_type && n.extern_abi == d.extern_abi && n.span == d.span
            &&& rewrites_params(d.params@, n.params@, t)
            &&& rewrites_opt(d.body, n.body, t)
        },
    }
}

pub open spec fn rewrites_definitions(old: Seq<Definition>, new: Seq<Definition>, t: TypeScope) -> bool
    decreases old,
{
    &&& old.len() == new.len()
    &&& old.len() > 0 ==> {
        &&& rewrites_definitions(old.drop_last(), new.drop_last(), t)
        &&& rewrites_definition(old.last(), new.last(), t)
    }
}

pub open spec fn rewrites_statement_of_file(old: Statement, new: Statement, t: TypeScope) -> bool {
    match old {
        Statement::Use(_) => new == old,
        Statement::Let(b) => {
            &&& new matches Statement::Let(n)
            &&& n.visibility == b.visibility && n.mutable == b.mutable && n.pattern == b.pattern
            &&& n.type_annotation == b.type_annotation && n.span == b.span
            &&& rewrites(b.value, n.value, t)
        },
        Statement::Definition(d) => new matches Statement::Definition(n) && rewrites_definition(*d, *n, t),
    }
}

/// The name of each struct, enum and trait in `defs`, and in each module
/// nested inside, in the order they are written.
pub open spec fn declared_types(defs: Seq<Definition>) -> Seq<Seq<char>>
    decreases defs,
{
    if defs.len() == 0 {
        seq![]
    } else {
        declared_types(defs.drop_last()) + match defs.last() {
            Definition::Struct(s) => seq![s.name.name@],
            Definition::Enum(e) => seq![e.name.name@],
            Definition::Trait(t) => seq![t.name.name@],
            Definition::Module(m) => declared_types(m.definitions@),
            Definition::Impl(_) | Definition::Function(_) => seq![],
        }
    }
}

/// The types that the top-level definitions of `statements` declare.
pub open spec fn file_types(statements: Seq<Statement>) -> Seq<Seq<char>>
    decreases statements.len(),
{
    if statements.len() == 0 {
        seq![]
    } else {
        file_types(statements.drop_last()) + match statements.last() {
            Statement::Definition(d) => declared_types(seq![*d]),
            _ => seq![],
        }
    }
}

pub proof fn lemma_opt_fixed(old: Option<Expr>, new: Option<Expr>, t: TypeScope)
    requires
        rewrites_opt(old, new, t),
    ensures
        rewrites_opt(new, new, t),
{
    if let Some(e) = old {
        if let Some(x) = new {
            lemma_rewrite_fixed(e, x, t);
        }
    }
}

pub proof fn lemma_params_fixed(old: Seq<FnParam>, new: Seq<FnParam>, t: TypeScope)
    requires
        rewrites_params(old, new, t),
    ensures
        rewrites_params(new, new, t),
{
    assert forall|i: int| 0 <= i < new.len() implies rewrites_param(#[trigger] new[i], new[i], t) by {
        assert(rewrites_param(old[i], new[i], t));
        lemma_opt_fixed(old[i].default, new[i].default, t);
    }
}

pub proof fn lemma_fields_fixed(old: Seq<StructField>, new: Seq<StructField>, t: TypeScope)
    requires
        rewrites_fields(old, new, t),
    ensures
        rewrites_fields(new, new, t),
{
    assert forall|i: int| 0 <= i < new.len() implies rewrites_field(#[trigger] new[i], new[i], t) by {
        assert(rewrites_field(old[i], new[i], t));
        lemma_opt_fixed(old[i].default, new[i].default, t);
    }
}

/// A rewritten definition is its own rewrite, and declares the types that
/// the definition declared.
pub proof fn lemma_definition_fixed(old: Definition, new: Definition, t: TypeScope)
    requires
        rewrites_definition(old, new, t),
    ensures
        rewrites_definition(new, new, t),
        declared_types(seq![new]) == declared_types(seq![old]),
    decreases old,
{
    assert(seq![new].drop_last() =~= Seq::<Definition>::empty());
    assert(seq![old].drop_last() =~= Seq::<Definition>::empty());
    match old {
        Definition::Trait(d) => {
            if let Definition::Trait(n) = new {
                assert forall|i: int| 0 <= i < n.methods@.len() implies rewrites_signature(#[trigger] n.methods@[i], n.methods@[i], t) by {
                    assert(rewrites_signature(d.methods@[i], n.methods@[i], t));
                    lemma_params_fixed(d.methods@[i].params@, n.methods@[i].params@, t);
                }
            }
        },
        Definition::Struct(d) => {
            if let Definition::Struct(n) = new {
                lemma_fields_fixed(d.fields@, n.fields@, t);
            }
        },
        Definition::Impl(d) => {
            if let Definition::Impl(n) = new {
                assert forall|i: int| 0 <= i < n.functions@.len() implies rewrites_method(#[trigger] n.functions@[i], n.functions@[i], t) by {
                    assert(rewrites_method(d.functions@[i], n.functions@[i], t));
                    lemma_params_fixed(d.functions@[i].params@, n.functions@[i].params@, t);
                    lemma_opt_fixed(d.functions@[i].body, n.functions@[i].body, t);
                }
            }
        },
        Definition::Enum(_) => {},
        Definition::Module(d) => {
            if let Definition::Module(n) = new {
                lemma_definitions_fixed(d.definitions@, n.definitions@, t);
            }
        },
        Definition::Function(d) => {
            if let Definition::Function(n) = new {
                lemma_params_fixed(d.params@, n.params@, t);
                lemma_opt_fixed(d.body, n.body, t);
            }
        },
    }
}

pub proof fn lemma_definitions_fixed(old: Seq<Definition>, new: Seq<Definition>, t: TypeScope)
    requires
        rewrites_definitions(old, new, t),
    ensures
        rewrites_definitions(new, new, t),
        declared_types(new) == declared_types(old),
    decreases old,
{
    if old.len() > 0 {
        lemma_definitions_fixed(old.drop_last(), new.drop_last(), t);
        lemma_definition_fixed(old.last(), new.last(), t);
        assert(seq![new.last()].drop_last() =~= Seq::<Definition>::empty());
        assert(seq![old.last()].drop_last() =~= Seq::<Definition>::empty());
        assert(seq![new.last()].last() == new.last());
        assert(seq![old.last()].last() == old.last());
        assert(declared_types(Seq::<Definition>::empty()) == Seq::<Seq<char>>::empty());
        assert(declared_types(new) =~= declared_types(new.drop_last()) + declared_types(seq![new.last()]));
        assert(declared_types(old) =~= declared_types(old.drop_last()) + declared_types(seq![old.last()]));
    }
}

/// A rewritten statement list declares the types that the original did.
pub proof fn lemma_file_types_kept(old: Seq<Statement>, new: Seq<Statement>, t: TypeScope)
    requires
        new.len() == old.len(),
        forall|i: int| 0 <= i < old.len() ==> rewrites_statement_of_file(#[trigger] old[i], new[i], t),
    ensures
        file_types(new) == file_types(old),
    decreases old.len(),
{
    if old.len() > 0 {
        lemma_file_types_kept(old.drop_last(), new.drop_last(), t);
        assert(rewrites_statement_of_file(old[old.len() - 1], new[old.len() - 1], t));
        if let Statement::Definition(d) = old.last() {
            if let Statement::Definition(n) = new.last() {
                lemma_definition_fixed(*d, *n, t);
            }
        }
    }
}

/// `a` and `b` are the same expression: the same constructor, equal plain
/// fields, and the same sub-expressions, list element by list element.
pub open spec fn same_expr(a: Expr, b: Expr) -> bool
    decreases a, 0nat,
{
    match a {
        Expr::Literal { .. } => b == a,
        Expr::Reference { path, span } => b matches Expr::Reference { path: p2, span: s2 } && s2 == span && p2@ == path@,
        Expr::Invocation { path, type_args, args, span } => {
            &&& b matches Expr::Invocation { path: p2, type_args: t2, args: a2, span: s2 }
            &&& p2 == path && t2 == type_args && s2 == span
            &&& same_args(args@, a2@)
        },
        Expr::MethodCall { receiver, method, args, span } => {
            &&& b matches Expr::MethodCall { receiver: r2, method: m2, args: a2, span: s2 }
            &&& m2 == method && s2 == span
            &&& same_expr(*receiver, *r2)
            &&& same_args(args@, a2@)
        },
        Expr::EnumInstantiation { enum_name, variant, data, span } => {
            &&& b matches Expr::EnumInstantiation { enum_name: n2, variant: v2, data: d2, span: s2 }
            &&& n2 == enum_name && v2 == variant && s2 == span
            &&& same_labeled(data@, d2@)
        },
        Expr::InferredEnumInstantiation { variant, data, span } => {
            &&& b matches Expr::InferredEnumInstantiation { variant: v2, data: d2, span: s2 }
            &&& v2 == variant && s2 == span
            &&& same_labeled(data@, d2@)
        },
        Expr::Tuple { fields, span } => {
            &&& b matches Expr::Tuple { fields: f2, span: s2 }
            &&& s2 == span
            &&& same_labeled(fields@, f2@)
        },
        Expr::Array { elements, span } => {
            &&& b matches Expr::Array { elements: e2, span: s2 }
            &&& s2 == span
            &&& same_list(elements@, e2@)
        },
        Expr::BinaryOp { left, op, right, span } => {
            &&& b matches Expr::BinaryOp { left: l2, op: o2, right: r2, span: s2 }
            &&& o2 == op && s2 == span
            &&& same_expr(*left, *l2)
            &&& same_expr(*right, *r2)
        },
        Expr::UnaryOp { op, operand, span } => {
            &&& b matches Expr::UnaryOp { op: o2, operand: x2, span: s2 }
            &&& o2 == op && s2 == span
            &&& same_expr(*operand, *x2)
        },
        Expr::Group { expr, span } => {
            &&& b matches Expr::Group { expr: x2, span: s2 }
            &&& s2 == span
            &&& same_expr(*expr, *x2)
        },
        Expr::ClosureExpr { params, return_type, body, span } => {
            &&& b matches Expr::ClosureExpr { params: p2, return_type: r2, body: b2, span: s2 }
            &&& p2 == params && r2 == return_type && s2 == span
            &&& same_expr(*body, *b2)
        },
        Expr::FieldAccess { object, field, span } => {
            &&& b matches Expr::FieldAccess { object: o2, field: f2, span: s2 }
            &&& f2 == field && s2 == span
            &&& same_expr(*object, *o2)
        },
        Expr::ForExpr { var, collection, body, span } => {
            &&& b matches Expr::ForExpr { var: v2, collection: c2, body: b2, span: s2 }
            &&& v2 == var && s2 == span
            &&& same_expr(*collection, *c2)
            &&& same_expr(*body, *b2)
        },
        Expr::IfExpr { condition, then_branch, else_branch, span } => {
            &&& b matches Expr::IfExpr { condition: c2, then_branch: t2, else_branch: e2, span: s2 }
            &&& s2 == span
            &&& same_expr(*condition, *c2)
            &&& same_expr(*then_branch, *t2)
            &&& match else_branch {
                Some(e) => e2 matches Some(x) && same_expr(*e, *x),
                None => e2 is None,
            }
        },
        Expr::MatchExpr { scrutinee, arms, span } => {
            &&& b matches Expr::MatchExpr { scrutinee: c2, arms: a2, span: s2 }
            &&& s2 == span
            &&& same_expr(*scrutinee, *c2)
            &&& same_arms(arms@, a2@)
        },
        Expr::DictLiteral { entries, span } => {
            &&& b matches Expr::DictLiteral { entries: e2, span: s2 }
            &&& s2 == span
            &&& same_entries(entries@, e2@)
        },
        Expr::DictAccess { dict, key, span } => {
            &&& b matches Expr::DictAccess { dict: d2, key: k2, span: s2 }
            &&& s2 == span
            &&& same_expr(*dict, *d2)
            &&& same_expr(*key, *k2)
        },
        Expr::LetExpr { mutable, pattern, ty, value, body, span } => {
            &&& b matches Expr::LetExpr { mutable: m2, pattern: p2, ty: t2, value: v2, body: b2, span: s2 }
            &&& m2 == mutable && p2 == pattern && t2 == ty && s2 == span
            &&& same_expr(*value, *v2)
            &&& same_expr(*body, *b2)
        },
        Expr::Block { statements, result, span } => {
            &&& b matches Expr::Block { statements: st2, result: r2, span: s2 }
            &&& s2 == span
            &&& same_statements(statements@, st2@)
            &&& same_expr(*result, *r2)
        },
    }
}

pub open spec fn same_list(a: Seq<Expr>, b: Seq<Expr>) -> bool
    decreases a, 0nat,
{
    &&& a.len() == b.len()
    &&& a.len() > 0 ==> same_list(a.drop_last(), b.drop_last()) && same_expr(a.last(), b.last())
}

pub open spec fn same_labeled(a: Seq<(Ident, Expr)>, b: Seq<(Ident, Expr)>) -> bool
    decreases a, 0nat,
{
    &&& a.len() == b.len()
    &&& a.len() > 0 ==> same_labeled(a.drop_last(), b.drop_last()) && b.last().0 == a.last().0 && same_expr(a.last().1, b.last().1)
}

pub open spec fn same_args(a: Seq<(Option<Ident>, Expr)>, b: Seq<(Option<Ident>, Expr)>) -> bool
    decreases a, 0nat,
{
    &&& a.len() == b.len()
    &&& a.len() > 0 ==> same_args(a.drop_last(), b.drop_last()) && b.last().0 == a.last().0 && same_expr(a.last().1, b.last().1)
}

pub open spec fn same_entries(a: Seq<(Expr, Expr)>, b: Seq<(Expr, Expr)>) -> bool
    decreases a, 0nat,
{
    &&& a.len() == b.len()
    &&& a.len() > 0 ==> same_entries(a.drop_last(), b.drop_last()) && same_expr(a.last().0, b.last().0) && same_expr(a.last().1, b.last().1)
}

pub open spec fn same_arms(a: Seq<MatchArm>, b: Seq<MatchArm>) -> bool
    decreases a, 0nat,
{
    &&& a.len() == b.len()
    &&& a.len() > 0 ==> same_arms(a.drop_last(), b.drop_last()) && b.last().pattern == a.last().pattern
        && b.last().span == a.last().span && same_expr(a.last().body, b.last().body)
}

pub open spec fn same_statement(a: BlockStatement, b: BlockStatement) -> bool
    decreases a, 0nat,
{
    match a {
        BlockStatement::Let { mutable, pattern, ty, value, span } => {
            &&& b matches BlockStatement::Let { mutable: m2, pattern: p2, ty: t2, value: v2, span: s2 }
            &&& m2 == mutable && p2 == pattern && t2 == ty && s2 == span
            &&& same_expr(value, v2)
        },
        BlockStatement::Assign { target, value, span } => {
            &&& b matches BlockStatement::Assign { target: g2, value: v2, span: s2 }
            &&& s2 == span
            &&& same_expr(target, g2)
            &&& same_expr(value, v2)
        },
        BlockStatement::Expr(e) => b matches BlockStatement::Expr(e2) && same_expr(e, e2),
    }
}

pub open spec fn same_statements(a: Seq<BlockStatement>, b: Seq<BlockStatement>) -> bool
    decreases a, 0nat,
{
    &&& a.len() == b.len()
    &&& a.len() > 0 ==> same_statements(a.drop_last(), b.drop_last()) && same_statement(a.last(), b.last())
}

pub open spec fn same_opt(a: Option<Expr>, b: Option<Expr>) -> bool {
    match a {
        Some(e) => b matches Some(x) && same_expr(e, x),
        None => b is None,
    }
}

pub open spec fn same_param(a: FnParam, b: FnParam) -> bool {
    &&& b.convention == a.convention && b.external_label == a.external_label && b.name == a.name
    &&& b.ty == a.ty && b.span == a.span
    &&& same_opt(a.default, b.default)
}

pub open spec fn same_params(a: Seq<FnParam>, b: Seq<FnParam>) -> bool {
    &&& a.len() == b.len()
    &&& forall|i: int| 0 <= i < a.len() ==> same_param(#[trigger] a[i], b[i])
}

pub open spec fn same_field(a: StructField, b: StructField) -> bool {
    &&& b.mutable == a.mutable && b.name == a.name && b.ty == a.ty && b.span == a.span
    &&& same_opt(a.default, b.default)
}

pub open spec fn same_fields(a: Seq<StructField>, b: Seq<StructField>) -> bool {
    &&& a.len() == b.len()
    &&& forall|i: int| 0 <= i < a.len() ==> same_field(#[trigger] a[i], b[i])
}

pub open spec fn same_signature(a: FnSignature, b: FnSignature) -> bool {
    &&& b.name == a.name && b.generics == a.generics && b.return_type == a.return_type && b.span == a.span
    &&& same_params(a.params@, b.params@)
}

pub open spec fn same_method(a: FnDef, b: FnDef) -> bool {
    &&& b.name == a.name && b.generics == a.generics && b.return_type == a.return_type && b.span == a.span
    &&& same_params(a.params@, b.params@)
    &&& same_opt(a.body, b.body)
}

/// `a` and `b` are the same definition, through nested modules.
pub open spec fn same_definition(a: Definition, b: Definition) -> bool
    decreases a,
{
    match a {
        Definition::Trait(d) => {
            &&& b matches Definition::Trait(n)
            &&& n.visibility == d.visibility && n.name == d.name && n.generics == d.generics
            &&& n.fields == d.fields && n.span == d.span
            &&& n.methods@.len() == d.methods@.len()
            &&& forall|i: int| 0 <= i < d.methods@.len() ==> same_signature(#[trigger] d.methods@[i], n.methods@[i])
        },
        Definition::Struct(d) => {
            &&& b matches Definition::Struct(n)
            &&& n.visibility == d.visibility && n.name == d.name && n.generics == d.generics && n.span == d.span
            &&& same_fields(d.fields@, n.fields@)
        },
        Definition::Impl(d) => {
            &&& b matches Definition::Impl(n)
            &&& n.name == d.name && n.trait_name == d.trait_name && n.generics == d.generics
            &&& n.is_extern == d.is_extern && n.span == d.span
            &&& n.functions@.len() == d.functions@.len()
            &&& forall|i: int| 0 <= i < d.functions@.len() ==> same_method(#[trigger] d.functions@[i], n.functions@[i])
        },
        Definition::Enum(_) => b == a,
        Definition::Module(d) => {
            &&& b matches Definition::Module(n)
            &&& n.visibility == d.visibility && n.name == d.name && n.span == d.span
            &&& same_definitions(d.definitions@, n.definitions@)
        },
        Definition::Function(d) => {
            &&& b matches Definition::Function(n)
            &&& n.visibility == d.visibility && n.name == d.name && n.generics == d.generics
            &&& n.return_type == d.return_type && n.extern_abi == d.extern_abi && n.span == d.span
            &&& same_params(d.params@, n.params@)
            &&& same_opt(d.body, n.body)
        },
    }
}

pub open spec fn same_definitions(a: Seq<Definition>, b: Seq<Definition>) -> bool
    decreases a,
{
    &&& a.len() == b.len()
    &&& a.len() > 0 ==> same_definitions(a.drop_last(), b.drop_last()) && same_definition(a.last(), b.last())
}

/// `a` and `b` are the same top-level statement.
pub open spec fn same_statement_of_file(a: Statement, b: Statement) -> bool {
    match a {
        Statement::Use(_) => b == a,
        Statement::Let(x) => {
            &&& b matches Statement::Let(y)
            &&& y.visibility == x.visibility && y.mutable == x.mutable && y.pattern == x.pattern
            &&& y.type_annotation == x.type_annotation && y.span == x.span
            &&& same_expr(x.value, y.value)
        },
        Statement::Definition(d) => b matches Statement::Definition(n) && same_definition(*d, *n),
    }
}

/// The rewrite gives one result: two rewrites of one expression are the
/// same expression.
pub proof fn lemma_rewrite_functional(old: Expr, n1: Expr, n2: Expr, t: TypeScope)
    requires
        rewrites(old, n1, t),
        rewrites(old, n2, t),
    ensures
        same_expr(n1, n2),
    decreases old, 1nat,
{
    match old {
        Expr::EnumInstantiation { enum_name, variant, data, span } => {
            if t.names_value(enum_name.name@) {
                if data@.len() > 0 {
                    if let Expr::MethodCall { receiver: r1, args: a1, .. } = n1 {
                        if let Expr::MethodCall { receiver: r2, args: a2, .. } = n2 {
                            lemma_data_args_functional(data@, a1@, a2@, t);
                            assert(same_expr(*r1, *r2));
                        }
                    }
                }
            } else {
                lemma_children_functional(old, n1, n2, t);
            }
        },
        _ => lemma_children_functional(old, n1, n2, t),
    }
}

pub proof fn lemma_children_functional(old: Expr, n1: Expr, n2: Expr, t: TypeScope)
    requires
        rewrites_children(old, n1, t),
        rewrites_children(old, n2, t),
    ensures
        same_expr(n1, n2),
    decreases old, 0nat,
{
    match old {
        Expr::Literal { .. } | Expr::Reference { .. } => {},
        Expr::Invocation { args, .. } => {
            if let (Expr::Invocation { args: a1, .. }, Expr::Invocation { args: a2, .. }) = (n1, n2) {
                lemma_args_functional(args@, a1@, a2@, t);
            }
        },
        Expr::MethodCall { receiver, args, .. } => {
            if let (Expr::MethodCall { receiver: r1, args: a1, .. }, Expr::MethodCall { receiver: r2, args: a2, .. }) = (n1, n2) {
                lemma_rewrite_functional(*receiver, *r1, *r2, t);
                lemma_args_functional(args@, a1@, a2@, t);
            }
        },
        Expr::EnumInstantiation { data, .. } => {
            if let (Expr::EnumInstantiation { data: d1, .. }, Expr::EnumInstantiation { data: d2, .. }) = (n1, n2) {
                lemma_labeled_functional(data@, d1@, d2@, t);
            }
        },
        Expr::InferredEnumInstantiation { data, .. } => {
            if let (Expr::InferredEnumInstantiation { data: d1, .. }, Expr::InferredEnumInstantiation { data: d2, .. }) = (n1, n2) {
                lemma_labeled_functional(data@, d1@, d2@, t);
            }
        },
        Expr::Tuple { fields, .. } => {
            if let (Expr::Tuple { fields: f1, .. }, Expr::Tuple { fields: f2, .. }) = (n1, n2) {
                lemma_labeled_functional(fields@, f1@, f2@, t);
            }
        },
        Expr::Array { elements, .. } => {
            if let (Expr::Array { elements: e1, .. }, Expr::Array { elements: e2, .. }) = (n1, n2) {
                lemma_list_functional(elements@, e1@, e2@, t);
            }
        },
        Expr::BinaryOp { left, right, .. } => {
            if let (Expr::BinaryOp { left: l1, right: r1, .. }, Expr::BinaryOp { left: l2, right: r2, .. }) = (n1, n2) {
                lemma_rewrite_functional(*left, *l1, *l2, t);
                lemma_rewrite_functional(*right, *r1, *r2, t);
            }
        },
        Expr::UnaryOp { operand, .. } => {
            if let (Expr::UnaryOp { operand: x1, .. }, Expr::UnaryOp { operand: x2, .. }) = (n1, n2) {
                lemma_rewrite_functional(*operand, *x1, *x2, t);
            }
        },
        Expr::Group { expr, .. } => {
            if let (Expr::Group { expr: x1, .. }, Expr::Group { expr: x2, .. }) = (n1, n2) {
                lemma_rewrite_functional(*expr, *x1, *x2, t);
            }
        },
        Expr::ClosureExpr { body, .. } => {
            if let (Expr::ClosureExpr { body: b1, .. }, Expr::ClosureExpr { body: b2, .. }) = (n1, n2) {
                lemma_rewrite_functional(*body, *b1, *b2, t);
            }
        },
        Expr::FieldAccess { object, .. } => {
            if let (Expr::FieldAccess { object: o1, .. }, Expr::FieldAccess { object: o2, .. }) = (n1, n2) {
                lemma_rewrite_functional(*object, *o1, *o2, t);
            }
        },
        Expr::ForExpr { collection, body, .. } => {
            if let (Expr::ForExpr { collection: c1, body: b1, .. }, Expr::ForExpr { collection: c2, body: b2, .. }) = (n1, n2) {
                lemma_rewrite_functional(*collection, *c1, *c2, t);
                lemma_rewrite_functional(*body, *b1, *b2, t);
            }
        },
        Expr::IfExpr { condition, then_branch, else_branch, .. } => {
            if let (Expr::IfExpr { condition: c1, then_branch: t1, else_branch: e1, .. },
                Expr::IfExpr { condition: c2, then_branch: t2, else_branch: e2, .. }) = (n1, n2) {
                lemma_rewrite_functional(*condition, *c1, *c2, t);
                lemma_rewrite_functional(*then_branch, *t1, *t2, t);
                if let Some(e) = else_branch {
                    if let (Some(x1), Some(x2)) = (e1, e2) {
                        lemma_rewrite_functional(*e, *x1, *x2, t);
                    }
                }
            }
        },
        Expr::MatchExpr { scrutinee, arms, .. } => {
            if let (Expr::MatchExpr { scrutinee: c1, arms: a1, .. }, Expr::MatchExpr { scrutinee: c2, arms: a2, .. }) = (n1, n2) {
                lemma_rewrite_functional(*scrutinee, *c1, *c2, t);
                lemma_arms_functional(arms@, a1@, a2@, t);
            }
        },
        Expr::DictLiteral { entries, .. } => {
            if let (Expr::DictLiteral { entries: e1, .. }, Expr::DictLiteral { entries: e2, .. }) = (n1, n2) {
                lemma_entries_functional(entries@, e1@, e2@, t);
            }
        },
        Expr::DictAccess { dict, key, .. } => {
            if let (Expr::DictAccess { dict: d1, key: k1, .. }, Expr::DictAccess { dict: d2, key: k2, .. }) = (n1, n2) {
                lemma_rewrite_functional(*dict, *d1, *d2, t);
                lemma_rewrite_functional(*key, *k1, *k2, t);
            }
        },
        Expr::LetExpr { value, body, .. } => {
            if let (Expr::LetExpr { value: v1, body: b1, .. }, Expr::LetExpr { value: v2, body: b2, .. }) = (n1, n2) {
                lemma_rewrite_functional(*value, *v1, *v2, t);
                lemma_rewrite_functional(*body, *b1, *b2, t);
            }
        },
        Expr::Block { statements, result, .. } => {
            if let (Expr::Block { statements: s1, result: r1, .. }, Expr::Block { statements: s2, result: r2, .. }) = (n1, n2) {
                lemma_statements_functional(statements@, s1@, s2@, t);
                lemma_rewrite_functional(*result, *r1, *r2, t);
            }
        },
    }
}

pub proof fn lemma_list_functional(old: Seq<Expr>, n1: Seq<Expr>, n2: Seq<Expr>, t: TypeScope)
    requires
        rewrites_list(old, n1, t),
        rewrites_list(old, n2, t),
    ensures
        same_list(n1, n2),
    decreases old, 0nat,
{
    if old.len() > 0 {
        lemma_list_functional(old.drop_last(), n1.drop_last(), n2.drop_last(), t);
        lemma_rewrite_functional(old.last(), n1.last(), n2.last(), t);
    }
}

pub proof fn lemma_labeled_functional(old: Seq<(Ident, Expr)>, n1: Seq<(Ident, Expr)>, n2: Seq<(Ident, Expr)>, t: TypeScope)
    requires
        rewrites_labeled(old, n1, t),
        rewrites_labeled(old, n2, t),
    ensures
        same_labeled(n1, n2),
    decreases old, 0nat,
{
    if old.len() > 0 {
        lemma_labeled_functional(old.drop_last(), n1.drop_last(), n2.drop_last(), t);
        lemma_rewrite_functional(old.last().1, n1.last().1, n2.last().1, t);
    }
}

pub proof fn lemma_args_functional(old: Seq<(Option<Ident>, Expr)>, n1: Seq<(Option<Ident>, Expr)>, n2: Seq<(Option<Ident>, Expr)>, t: TypeScope)
    requires
        rewrites_args(old, n1, t),
        rewrites_args(old, n2, t),
    ensures
        same_args(n1, n2),
    decreases old, 0nat,
{
    if old.len() > 0 {
        lemma_args_functional(old.drop_last(), n1.drop_last(), n2.drop_last(), t);
        lemma_rewrite_functional(old.last().1, n1.last().1, n2.last().1, t);
    }
}

pub proof fn lemma_data_args_functional(old: Seq<(Ident, Expr)>, n1: Seq<(Option<Ident>, Expr)>, n2: Seq<(Option<Ident>, Expr)>, t: TypeScope)
    requires
        rewrites_data_to_args(old, n1, t),
        rewrites_data_to_args(old, n2, t),
    ensures
        same_args(n1, n2),
    decreases old, 0nat,
{
    if old.len() > 0 {
        lemma_data_args_functional(old.drop_last(), n1.drop_last(), n2.drop_last(), t);
        lemma_rewrite_functional(old.last().1, n1.last().1, n2.last().1, t);
    }
}

pub proof fn lemma_entries_functional(old: Seq<(Expr, Expr)>, n1: Seq<(Expr, Expr)>, n2: Seq<(Expr, Expr)>, t: TypeScope)
    requires
        rewrites_entries(old, n1, t),
        rewrites_entries(old, n2, t),
    ensures
        same_entries(n1, n2),
    decreases old, 0nat,
{
    if old.len() > 0 {
        lemma_entries_functional(old.drop_last(), n1.drop_last(), n2.drop_last(), t);
        lemma_rewrite_functional(old.last().0, n1.last().0, n2.last().0, t);
        lemma_rewrite_functional(old.last().1, n1.last().1, n2.last().1, t);
    }
}

pub proof fn lemma_arms_functional(old: Seq<MatchArm>, n1: Seq<MatchArm>, n2: Seq<MatchArm>, t: TypeScope)
    requires
        rewrites_arms(old, n1, t),
        rewrites_arms(old, n2, t),
    ensures
        same_arms(n1, n2),
    decreases old, 0nat,
{
    if old.len() > 0 {
        lemma_arms_functional(old.drop_last(), n1.drop_last(), n2.drop_last(), t);
        lemma_rewrite_functional(old.last().body, n1.last().body, n2.last().body, t);
    }
}

pub proof fn lemma_statement_functional(old: BlockStatement, n1: BlockStatement, n2: BlockStatement, t: TypeScope)
    requires
        rewrites_statement(old, n1, t),
        rewrites_statement(old, n2, t),
    ensures
        same_statement(n1, n2),
    decreases old, 0nat,
{
    match old {
        BlockStatement::Let { value, .. } => {
            if let (BlockStatement::Let { value: v1, .. }, BlockStatement::Let { value: v2, .. }) = (n1, n2) {
                lemma_rewrite_functional(value, v1, v2, t);
            }
        },
        BlockStatement::Assign { target, value, .. } => {
            if let (BlockStatement::Assign { target: g1, value: v1, .. }, BlockStatement::Assign { target: g2, value: v2, .. }) = (n1, n2) {
                lemma_rewrite_functional(target, g1, g2, t);
                lemma_rewrite_functional(value, v1, v2, t);
            }
        },
        BlockStatement::Expr(e) => {
            if let (BlockStatement::Expr(e1), BlockStatement::Expr(e2)) = (n1, n2) {
                lemma_rewrite_functional(e, e1, e2, t);
            }
        },
    }
}

pub proof fn lemma_statements_functional(old: Seq<BlockStatement>, n1: Seq<BlockStatement>, n2: Seq<BlockStatement>, t: TypeScope)
    requires
        rewrites_statements(old, n1, t),
        rewrites_statements(old, n2, t),
    ensures
        same_statements(n1, n2),
    decreases old, 0nat,
{
    if old.len() > 0 {
        lemma_statements_functional(old.drop_last(), n1.drop_last(), n2.drop_last(), t);
        lemma_statement_functional(old.last(), n1.last(), n2.last(), t);
    }
}

pub proof fn lemma_opt_functional(old: Option<Expr>, n1: Option<Expr>, n2: Option<Expr>, t: TypeScope)
    requires
        rewrites_opt(old, n1, t),
        rewrites_opt(old, n2, t),
    ensures
        same_opt(n1, n2),
{
    if let Some(e) = old {
        if let (Some(x1), Some(x2)) = (n1, n2) {
            lemma_rewrite_functional(e, x1, x2, t);
        }
    }
}

pub proof fn lemma_params_functional(old: Seq<FnParam>, n1: Seq<FnParam>, n2: Seq<FnParam>, t: TypeScope)
    requires
        rewrites_params(old, n1, t),
        rewrites_params(old, n2, t),
    ensures
        same_params(n1, n2),
{
    assert forall|i: int| 0 <= i < n1.len() implies same_param(#[trigger] n1[i], n2[i]) by {
        assert(rewrites_param(old[i], n1[i], t));
        assert(rewrites_param(old[i], n2[i], t));
        lemma_opt_functional(old[i].default, n1[i].default, n2[i].default, t);
    }
}

pub proof fn lemma_fields_functional(old: Seq<StructField>, n1: Seq<StructField>, n2: Seq<StructField>, t: TypeScope)
    requires
        rewrites_fields(old, n1, t),
        rewrites_fields(old, n2, t),
    ensures
        same_fields(n1, n2),
{
    assert forall|i: int| 0 <= i < n1.len() implies same_field(#[trigger] n1[i], n2[i]) by {
        assert(rewrites_field(old[i], n1[i], t));
        assert(rewrites_field(old[i], n2[i], t));
        lemma_opt_functional(old[i].default, n1[i].default, n2[i].default, t);
    }
}

pub proof fn lemma_definition_functional(old: Definition, n1: Definition, n2: Definition, t: TypeScope)
    requires
        rewrites_definition(old, n1, t),
        rewrites_definition(old, n2, t),
    ensures
        same_definition(n1, n2),
    decreases old,
{
    match old {
        Definition::Trait(d) => {
            if let (Definition::Trait(a), Definition::Trait(b)) = (n1, n2) {
                assert forall|i: int| 0 <= i < a.methods@.len() implies same_signature(#[trigger] a.methods@[i], b.methods@[i]) by {
                    assert(rewrites_signature(d.methods@[i], a.methods@[i], t));
                    assert(rewrites_signature(d.methods@[i], b.methods@[i], t));
                    lemma_params_functional(d.methods@[i].params@, a.methods@[i].params@, b.methods@[i].params@, t);
                }
            }
        },
        Definition::Struct(d) => {
            if let (Definition::Struct(a), Definition::Struct(b)) = (n1, n2) {
                lemma_fields_functional(d.fields@, a.fields@, b.fields@, t);
            }
        },
        Definition::Impl(d) => {
            if let (Definition::Impl(a), Definition::Impl(b)) = (n1, n2) {
                assert forall|i: int| 0 <= i < a.functions@.len() implies same_method(#[trigger] a.functions@[i], b.functions@[i]) by {
                    assert(rewrites_method(d.functions@[i], a.functions@[i], t));
                    assert(rewrites_method(d.functions@[i], b.functions@[i], t));
                    lemma_params_functional(d.functions@[i].params@, a.functions@[i].params@, b.functions@[i].params@, t);
                    lemma_opt_functional(d.functions@[i].body, a.functions@[i].body, b.functions@[i].body, t);
                }
            }
        },
        Definition::Enum(_) => {},
        Definition::Module(d) => {
            if let (Definition::Module(a), Definition::Module(b)) = (n1, n2) {
                lemma_definitions_functional(d.definitions@, a.definitions@, b.definitions@, t);
            }
        },
        Definition::Function(d) => {
            if let (Definition::Function(a), Definition::Function(b)) = (n1, n2) {
                lemma_params_functional(d.params@, a.params@, b.params@, t);
                lemma_opt_functional(d.body, a.body, b.body, t);
            }
        },
    }
}

pub proof fn lemma_definitions_functional(old: Seq<Definition>, n1: Seq<Definition>, n2: Seq<Definition>, t: TypeScope)
    requires
        rewrites_definitions(old, n1, t),
        rewrites_definitions(old, n2, t),
    ensures
        same_definitions(n1, n2),
    decreases old,
{
    if old.len() > 0 {
        lemma_definitions_functional(old.drop_last(), n1.drop_last(), n2.drop_last(), t);
        lemma_definition_functional(old.last(), n1.last(), n2.last(), t);
    }
}

/// The rewrite of a top-level statement gives one result.
pub proof fn lemma_statement_of_file_functional(old: Statement, n1: Statement, n2: Statement, t: TypeScope)
    requires
        rewrites_statement_of_file(old, n1, t),
        rewrites_statement_of_file(old, n2, t),
    ensures
        same_statement_of_file(n1, n2),
{
    match old {
        Statement::Use(_) => {},
        Statement::Let(b) => {
            if let (Statement::Let(x), Statement::Let(y)) = (n1, n2) {
                lemma_rewrite_functional(b.value, x.value, y.value, t);
            }
        },
        Statement::Definition(d) => {
            if let (Statement::Definition(x), Statement::Definition(y)) = (n1, n2) {
                lemma_definition_functional(*d, *x, *y, t);
            }
        },
    }
}

/// Add the name of each struct, enum and trait in `definitions`, and in
/// each module nested inside, to `names`.
pub fn collect_types(definitions: &Vec<Definition>, names: &mut Vec<String>)
    ensures
        views(final(names)@) == views(old(names)@) + declared_types(definitions@),
    decreases definitions@, 1nat,
{
    let mut i: usize = 0;
    while i < definitions.len()
        invariant
            i <= definitions.len(),
            views(names@) == views(old(names)@) + declared_types(definitions@.take(i as int)),
        decreases definitions.len() - i,
    {
        let ghost before = names@;
        proof {
            assert(definitions@.take(i + 1).drop_last() =~= definitions@.take(i as int));
            assert(decreases_to!(definitions@ => definitions@[i as int]));
        }
        collect_definition_types(&definitions[i], names);
        proof {
            lemma_declared_types_single(definitions@[i as int]);
            assert(views(names@) =~= views(old(names)@) + declared_types(definitions@.take(i + 1)));
        }
        i += 1;
    }
    assert(definitions@.take(i as int) =~= definitions@);
}

/// The types that one definition declares.
pub proof fn lemma_declared_types_single(d: Definition)
    ensures
        declared_types(seq![d]) == match d {
            Definition::Struct(s) => seq![s.name.name@],
            Definition::Enum(e) => seq![e.name.name@],
            Definition::Trait(t) => seq![t.name.name@],
            Definition::Module(m) => declared_types(m.definitions@),
            Definition::Impl(_) | Definition::Function(_) => Seq::<Seq<char>>::empty(),
        },
{
    let one = seq![d];
    assert(one.drop_last() =~= Seq::<Definition>::empty());
    assert(one.last() == d);
    assert(declared_types(Seq::<Definition>::empty()) =~= Seq::<Seq<char>>::empty());
    let tail = declared_types(one) ;
    assert(tail == declared_types(one.drop_last()) + match one.last() {
        Definition::Struct(s) => seq![s.name.name@],
        Definition::Enum(e) => seq![e.name.name@],
        Definition::Trait(t) => seq![t.name.name@],
        Definition::Module(m) => declared_types(m.definitions@),
        Definition::Impl(_) | Definition::Function(_) => seq![],
    });
    assert(tail =~= match d {
        Definition::Struct(s) => seq![s.name.name@],
        Definition::Enum(e) => seq![e.name.name@],
        Definition::Trait(t) => seq![t.name.name@],
        Definition::Module(m) => declared_types(m.definitions@),
        Definition::Impl(_) | Definition::Function(_) => Seq::<Seq<char>>::empty(),
    });
}

/// Add the types that `def` declares, itself or in a module that it is.
pub fn collect_definition_types(def: &Definition, names: &mut Vec<String>)
    ensures
        views(final(names)@) == views(old(names)@) + declared_types(seq![*def]),
    decreases *def, 0nat,
{
    proof { lemma_declared_types_single(*def); }
    let ghost before = names@;
    match def {
        Definition::Struct(s) => {
            names.push(s.name.name.clone());
            assert(views(names@) =~= views(before) + seq![s.name.name@]);
        },
        Definition::Enum(e) => {
            names.push(e.name.name.clone());
            assert(views(names@) =~= views(before) + seq![e.name.name@]);
        },
        Definition::Trait(t) => {
            names.push(t.name.name.clone());
            assert(views(names@) =~= views(before) + seq![t.name.name@]);
        },
        Definition::Module(m) => {
            proof { assert(decreases_to!(*def => def->Module_0.definitions@)); }
            collect_types(&m.definitions, names);
        },
        Definition::Impl(_) | Definition::Function(_) => {
            assert(views(names@) =~= views(before) + Seq::<Seq<char>>::empty());
        },
    }
}

/// True when `name` can only be a value: it is one path segment, and no
/// type or trait has that name.
pub fn names_a_value(name: &str, types: &TypeNames) -> (r: bool)
    ensures
        r == types@.names_value(name@),
{
    !contains_path_separator(name) && !types.symbols.is_type(name) && !types.symbols.is_trait(name)
        && !list_contains(&types.in_file, name)
}


/// Rewrite `expr` itself when the parser read a value path as an enum
/// instantiation, then each expression inside it.
pub fn rewrite_expr(expr: &mut Expr, types: &TypeNames)
    ensures
        rewrites(*old(expr), *final(expr), types@),
    decreases *old(expr), 1nat,
{
    let ghost e0 = *expr;
    let convert = match expr {
        Expr::EnumInstantiation { enum_name, .. } => names_a_value(enum_name.name.as_str(), types),
        _ => false,
    };
    if !convert {
        rewrite_children(expr, types);
        return;
    }
    let mut taken = Expr::Reference { path: Vec::new(), span: Span { start: 0, end: 0 } };
    std::mem::swap(expr, &mut taken);
    assert(taken == e0);
    match taken {
        Expr::EnumInstantiation { enum_name, variant, mut data, span } => {
            if data.len() == 0 {
                let mut path = Vec::new();
                path.push(enum_name);
                path.push(variant);
                *expr = Expr::Reference { path, span };
                assert(path@ =~= seq![e0->enum_name, e0->EnumInstantiation_variant]);
            } else {
                let receiver_span = enum_name.span;
                let mut receiver_path = Vec::new();
                receiver_path.push(enum_name);
                let ghost d0 = data@;
                let mut args: Vec<(Option<Ident>, Expr)> = Vec::new();
                while data.len() > 0
                    invariant
                        d0 == e0->EnumInstantiation_data@,
                        d0.len() == args@.len() + data@.len(),
                        data@ == d0.skip(args@.len() as int),
                        rewrites_data_to_args(d0.take(args@.len() as int), args@, types@),
                    decreases data.len(),
                {
                    let ghost k = args@.len() as int;
                    let ghost before = args@;
                    let (label, mut value) = data.remove(0);
                    proof {
                        assert(d0.skip(k)[0] == d0[k]);
                        assert(decreases_to!(e0 => e0->EnumInstantiation_data@));
                        assert(decreases_to!(e0->EnumInstantiation_data@ => e0->EnumInstantiation_data@[k]));
                    }
                    rewrite_expr(&mut value, types);
                    args.push((Some(label), value));
                    proof {
                        assert(d0.take(k + 1).drop_last() =~= d0.take(k));
                        assert(args@.drop_last() =~= before);
                        assert(data@ =~= d0.skip(k + 1));
                    }
                }
                assert(d0.take(args@.len() as int) =~= d0);
                assert(receiver_path@ =~= seq![e0->enum_name]);
                *expr = Expr::MethodCall {
                    receiver: Box::new(Expr::Reference { path: receiver_path, span: receiver_span }),
                    method: variant,
                    args,
                    span,
                };
            }
        },
        _ => {},
    }
}

/// Rewrite each expression of a list.
pub fn rewrite_list(elements: &mut Vec<Expr>, types: &TypeNames)
    ensures
        rewrites_list(old(elements)@, final(elements)@, types@),
    decreases old(elements)@, 0nat,
{
    let ghost e0 = elements@;
    let mut i: usize = 0;
    while i < elements.len()
        invariant
            i <= elements.len(),
            elements@.len() == e0.len(),
            rewrites_list(e0.take(i as int), elements@.take(i as int), types@),
            elements@.skip(i as int) == e0.skip(i as int),
        decreases elements.len() - i,
    {
        proof {
            assert(elements@.skip(i as int)[0] == e0.skip(i as int)[0]);
            assert(decreases_to!(e0 => e0[i as int]));
        }
        let ghost before = elements@;
        rewrite_expr(&mut elements[i], types);
        proof {
            assert(e0.take(i + 1).drop_last() =~= e0.take(i as int));
            assert(elements@.take(i + 1).drop_last() =~= before.take(i as int));
            assert(elements@.skip(i + 1) =~= before.skip(i as int).skip(1));
            assert(e0.skip(i + 1) =~= e0.skip(i as int).skip(1));
        }
        i += 1;
    }
    assert(e0.take(i as int) =~= e0);
    assert(elements@.take(i as int) =~= elements@);
}

/// Rewrite the value of each labelled field.
pub fn rewrite_labeled(fields: &mut Vec<(Ident, Expr)>, types: &TypeNames)
    ensures
        rewrites_labeled(old(fields)@, final(fields)@, types@),
    decreases old(fields)@, 0nat,
{
    let ghost e0 = fields@;
    let mut i: usize = 0;
    while i < fields.len()
        invariant
            i <= fields.len(),
            fields@.len() == e0.len(),
            rewrites_labeled(e0.take(i as int), fields@.take(i as int), types@),
            fields@.skip(i as int) == e0.skip(i as int),
        decreases fields.len() - i,
    {
        proof {
            assert(fields@.skip(i as int)[0] == e0.skip(i as int)[0]);
            assert(decreases_to!(e0 => e0[i as int]));
        }
        let ghost before = fields@;
        rewrite_expr(&mut fields[i].1, types);
        proof {
            assert(e0.take(i + 1).drop_last() =~= e0.take(i as int));
            assert(fields@.take(i + 1).drop_last() =~= before.take(i as int));
            assert(fields@.skip(i + 1) =~= before.skip(i as int).skip(1));
            assert(e0.skip(i + 1) =~= e0.skip(i as int).skip(1));
        }
        i += 1;
    }
    assert(e0.take(i as int) =~= e0);
    assert(fields@.take(i as int) =~= fields@);
}

/// Rewrite the value of each argument of a call.
pub fn rewrite_args(args: &mut Vec<(Option<Ident>, Expr)>, types: &TypeNames)
    ensures
        rewrites_args(old(args)@, final(args)@, types@),
    decreases old(args)@, 0nat,
{
    let ghost e0 = args@;
    let mut i: usize = 0;
    while i < args.len()
        invariant
            i <= args.len(),
            args@.len() == e0.len(),
            rewrites_args(e0.take(i as int), args@.take(i as int), types@),
            args@.skip(i as int) == e0.skip(i as int),
        decreases args.len() - i,
    {
        proof {
            assert(args@.skip(i as int)[0] == e0.skip(i as int)[0]);
            assert(decreases_to!(e0 => e0[i as int]));
        }
        let ghost before = args@;
        rewrite_expr(&mut args[i].1, types);
        proof {
            assert(e0.take(i + 1).drop_last() =~= e0.take(i as int));
            assert(args@.take(i + 1).drop_last() =~= before.take(i as int));
            assert(args@.skip(i + 1) =~= before.skip(i as int).skip(1));
            assert(e0.skip(i + 1) =~= e0.skip(i as int).skip(1));
        }
        i += 1;
    }
    assert(e0.take(i as int) =~= e0);
    assert(args@.take(i as int) =~= args@);
}

/// Rewrite the key and the value of each dictionary entry.
pub fn rewrite_entries(entries: &mut Vec<(Expr, Expr)>, types: &TypeNames)
    ensures
        rewrites_entries(old(entries)@, final(entries)@, types@),
    decreases old(entries)@, 0nat,
{
    let ghost e0 = entries@;
    let mut i: usize = 0;
    while i < entries.len()
        invariant
            i <= entries.len(),
            entries@.len() == e0.len(),
            rewrites_entries(e0.take(i as int), entries@.take(i as int), types@),
            entries@.skip(i as int) == e0.skip(i as int),
        decreases entries.len() - i,
    {
        proof {
            assert(entries@.skip(i as int)[0] == e0.skip(i as int)[0]);
            assert(decreases_to!(e0 => e0[i as int]));
        }
        let ghost before = entries@;
        rewrite_expr(&mut entries[i].0, types);
        let ghost middle = entries@;
        rewrite_expr(&mut entries[i].1, types);
        proof {
            assert(middle[i as int].1 == e0[i as int].1);
            assert(e0.take(i + 1).drop_last() =~= e0.take(i as int));
            assert(entries@.take(i + 1).drop_last() =~= before.take(i as int));
            assert(entries@.skip(i + 1) =~= before.skip(i as int).skip(1));
            assert(e0.skip(i + 1) =~= e0.skip(i as int).skip(1));
        }
        i += 1;
    }
    assert(e0.take(i as int) =~= e0);
    assert(entries@.take(i as int) =~= entries@);
}

/// Rewrite the body of each arm of a `match`.
pub fn rewrite_arms(arms: &mut Vec<MatchArm>, types: &TypeNames)
    ensures
        rewrites_arms(old(arms)@, final(arms)@, types@),
    decreases old(arms)@, 0nat,
{
    let ghost e0 = arms@;
    let mut i: usize = 0;
    while i < arms.len()
        invariant
            i <= arms.len(),
            arms@.len() == e0.len(),
            rewrites_arms(e0.take(i as int), arms@.take(i as int), types@),
            arms@.skip(i as int) == e0.skip(i as int),
        decreases arms.len() - i,
    {
        proof {
            assert(arms@.skip(i as int)[0] == e0.skip(i as int)[0]);
            assert(decreases_to!(e0 => e0[i as int]));
        }
        let ghost before = arms@;
        rewrite_expr(&mut arms[i].body, types);
        proof {
            assert(e0.take(i + 1).drop_last() =~= e0.take(i as int));
            assert(arms@.take(i + 1).drop_last() =~= before.take(i as int));
            assert(arms@.skip(i + 1) =~= before.skip(i as int).skip(1));
            assert(e0.skip(i + 1) =~= e0.skip(i as int).skip(1));
        }
        i += 1;
    }
    assert(e0.take(i as int) =~= e0);
    assert(arms@.take(i as int) =~= arms@);
}

/// Rewrite the expressions of one statement of a block.
pub fn rewrite_statement(statement: &mut BlockStatement, types: &TypeNames)
    ensures
        rewrites_statement(*old(statement), *final(statement), types@),
    decreases *old(statement), 0nat,
{
    match statement {
        BlockStatement::Let { value, .. } => {
            rewrite_expr(value, types);
        },
        BlockStatement::Expr(value) => {
            rewrite_expr(value, types);
        },
        BlockStatement::Assign { target, value, .. } => {
            rewrite_expr(target, types);
            rewrite_expr(value, types);
        },
    }
}

/// Rewrite the expressions of each statement of a block.
pub fn rewrite_statements(statements: &mut Vec<BlockStatement>, types: &TypeNames)
    ensures
        rewrites_statements(old(statements)@, final(statements)@, types@),
    decreases old(statements)@, 0nat,
{
    let ghost e0 = statements@;
    let mut i: usize = 0;
    while i < statements.len()
        invariant
            i <= statements.len(),
            statements@.len() == e0.len(),
            rewrites_statements(e0.take(i as int), statements@.take(i as int), types@),
            statements@.skip(i as int) == e0.skip(i as int),
        decreases statements.len() - i,
    {
        proof {
            assert(statements@.skip(i as int)[0] == e0.skip(i as int)[0]);
            assert(decreases_to!(e0 => e0[i as int]));
        }
        let ghost before = statements@;
        rewrite_statement(&mut statements[i], types);
        proof {
            assert(e0.take(i + 1).drop_last() =~= e0.take(i as int));
            assert(statements@.take(i + 1).drop_last() =~= before.take(i as int));
            assert(statements@.skip(i + 1) =~= before.skip(i as int).skip(1));
            assert(e0.skip(i + 1) =~= e0.skip(i as int).skip(1));
        }
        i += 1;
    }
    assert(e0.take(i as int) =~= e0);
    assert(statements@.take(i as int) =~= statements@);
}

/// Rewrite each sub-expression of `expr`, leaving `expr`'s own
/// constructor as it is.
pub fn rewrite_children(expr: &mut Expr, types: &TypeNames)
    ensures
        rewrites_children(*old(expr), *final(expr), types@),
    decreases *old(expr), 0nat,
{
    let ghost e0 = *expr;
    match expr {
        Expr::Literal { .. } => {},
        Expr::Reference { .. } => {},
        Expr::Invocation { args, .. } => {
            proof { assert(decreases_to!(e0 => e0->Invocation_args@)); }
            rewrite_args(args, types);
        },
        Expr::MethodCall { receiver, args, .. } => {
            proof { assert(decreases_to!(e0 => e0->MethodCall_args@)); }
            rewrite_expr(receiver, types);
            rewrite_args(args, types);
        },
        Expr::EnumInstantiation { data, .. } => {
            proof { assert(decreases_to!(e0 => e0->EnumInstantiation_data@)); }
            rewrite_labeled(data, types);
        },
        Expr::InferredEnumInstantiation { data, .. } => {
            proof { assert(decreases_to!(e0 => e0->InferredEnumInstantiation_data@)); }
            rewrite_labeled(data, types);
        },
        Expr::Tuple { fields, .. } => {
            proof { assert(decreases_to!(e0 => e0->fields@)); }
            rewrite_labeled(fields, types);
        },
        Expr::Array { elements, .. } => {
            proof { assert(decreases_to!(e0 => e0->elements@)); }
            rewrite_list(elements, types);
        },
        Expr::BinaryOp { left, right, .. } => {
            rewrite_expr(left, types);
            rewrite_expr(right, types);
        },
        Expr::UnaryOp { operand, .. } => {
            rewrite_expr(operand, types);
        },
        Expr::Group { expr: inner, .. } => {
            rewrite_expr(inner, types);
        },
        Expr::ClosureExpr { body, .. } => {
            rewrite_expr(body, types);
        },
        Expr::FieldAccess { object, .. } => {
            rewrite_expr(object, types);
        },
        Expr::ForExpr { collection, body, .. } => {
            rewrite_expr(collection, types);
            rewrite_expr(body, types);
        },
        Expr::IfExpr { condition, then_branch, else_branch, .. } => {
            rewrite_expr(condition, types);
            rewrite_expr(then_branch, types);
            match else_branch {
                Some(e) => {
                    rewrite_expr(e, types);
                },
                None => {},
            }
        },
        Expr::MatchExpr { scrutinee, arms, .. } => {
            proof { assert(decreases_to!(e0 => e0->arms@)); }
            rewrite_expr(scrutinee, types);
            rewrite_arms(arms, types);
        },
        Expr::DictLiteral { entries, .. } => {
            proof { assert(decreases_to!(e0 => e0->entries@)); }
            rewrite_entries(entries, types);
        },
        Expr::DictAccess { dict, key, .. } => {
            rewrite_expr(dict, types);
            rewrite_expr(key, types);
        },
        Expr::LetExpr { value, body, .. } => {
            rewrite_expr(value, types);
            rewrite_expr(body, types);
        },
        Expr::Block { statements, result, .. } => {
            proof { assert(decreases_to!(e0 => e0->statements@)); }
            rewrite_statements(statements, types);
            rewrite_expr(result, types);
        },
    }
}


/// Rewrite a default value, when there is one.
pub fn rewrite_opt(value: &mut Option<Expr>, types: &TypeNames)
    ensures
        rewrites_opt(*old(value), *final(value), types@),
{
    match value {
        Some(e) => {
            rewrite_expr(e, types);
        },
        None => {},
    }
}

/// Rewrite the default value of each parameter.
pub fn rewrite_params(params: &mut Vec<FnParam>, types: &TypeNames)
    ensures
        rewrites_params(old(params)@, final(params)@, types@),
{
    let ghost e0 = params@;
    let mut i: usize = 0;
    while i < params.len()
        invariant
            i <= params.len(),
            params@.len() == e0.len(),
            forall|j: int| 0 <= j < i ==> rewrites_param(#[trigger] e0[j], params@[j], types@),
            forall|j: int| i <= j < e0.len() ==> params@[j] == #[trigger] e0[j],
        decreases params.len() - i,
    {
        rewrite_opt(&mut params[i].default, types);
        i += 1;
    }
}

/// Rewrite the default value of each struct field.
pub fn rewrite_fields(fields: &mut Vec<StructField>, types: &TypeNames)
    ensures
        rewrites_fields(old(fields)@, final(fields)@, types@),
{
    let ghost e0 = fields@;
    let mut i: usize = 0;
    while i < fields.len()
        invariant
            i <= fields.len(),
            fields@.len() == e0.len(),
            forall|j: int| 0 <= j < i ==> rewrites_field(#[trigger] e0[j], fields@[j], types@),
            forall|j: int| i <= j < e0.len() ==> fields@[j] == #[trigger] e0[j],
        decreases fields.len() - i,
    {
        rewrite_opt(&mut fields[i].default, types);
        i += 1;
    }
}

/// Rewrite the default values and the bodies of one definition, and of
/// each definition nested inside it.
pub fn rewrite_definition(def: &mut Definition, types: &TypeNames)
    ensures
        rewrites_definition(*old(def), *final(def), types@),
    decreases *old(def),
{
    let ghost d0 = *def;
    match def {
        Definition::Trait(t) => {
            let methods = &mut t.methods;
            let ghost m0 = methods@;
            let mut i: usize = 0;
            while i < methods.len()
                invariant
                    i <= methods.len(),
                    methods@.len() == m0.len(),
                    forall|j: int| 0 <= j < i ==> rewrites_signature(#[trigger] m0[j], methods@[j], types@),
                    forall|j: int| i <= j < m0.len() ==> methods@[j] == #[trigger] m0[j],
                decreases methods.len() - i,
            {
                rewrite_params(&mut methods[i].params, types);
                i += 1;
            }
        },
        Definition::Struct(s) => {
            rewrite_fields(&mut s.fields, types);
        },
        Definition::Impl(imp) => {
            let functions = &mut imp.functions;
            let ghost f0 = functions@;
            let mut i: usize = 0;
            while i < functions.len()
                invariant
                    i <= functions.len(),
                    functions@.len() == f0.len(),
                    forall|j: int| 0 <= j < i ==> rewrites_method(#[trigger] f0[j], functions@[j], types@),
                    forall|j: int| i <= j < f0.len() ==> functions@[j] == #[trigger] f0[j],
                decreases functions.len() - i,
            {
                rewrite_params(&mut functions[i].params, types);
                rewrite_opt(&mut functions[i].body, types);
                i += 1;
            }
        },
        Definition::Enum(_) => {},
        Definition::Module(m) => {
            let definitions = &mut m.definitions;
            let ghost e0 = definitions@;
            proof { assert(decreases_to!(d0 => d0->Module_0.definitions@)); }
            let mut i: usize = 0;
            while i < definitions.len()
                invariant
                    i <= definitions.len(),
                    definitions@.len() == e0.len(),
                    rewrites_definitions(e0.take(i as int), definitions@.take(i as int), types@),
                    definitions@.skip(i as int) == e0.skip(i as int),
                decreases definitions.len() - i,
            {
                proof {
                    assert(definitions@.skip(i as int)[0] == e0.skip(i as int)[0]);
                    assert(decreases_to!(e0 => e0[i as int]));
                }
                let ghost before = definitions@;
                rewrite_definition(&mut definitions[i], types);
                proof {
                    assert(e0.take(i + 1).drop_last() =~= e0.take(i as int));
                    assert(definitions@.take(i + 1).drop_last() =~= before.take(i as int));
                    assert(definitions@.skip(i + 1) =~= before.skip(i as int).skip(1));
                    assert(e0.skip(i + 1) =~= e0.skip(i as int).skip(1));
                }
                i += 1;
            }
            assert(e0.take(i as int) =~= e0);
            assert(definitions@.take(i as int) =~= definitions@);
        },
        Definition::Function(f) => {
            rewrite_params(&mut f.params, types);
            rewrite_opt(&mut f.body, types);
        },
    }
}

/// Rewrite each value path in `file` that the parser read as an enum
/// instantiation. A name is a type when `symbols` knows it, or when
/// the file declares it at the top level or in an inline module.
pub fn rewrite_value_paths(file: &mut File, symbols: &SymbolTable)
    ensures
        final(file).statements@.len() == old(file).statements@.len(),
        forall|i: int| 0 <= i < old(file).statements@.len() ==> rewrites_statement_of_file(
            #[trigger] old(file).statements@[i],
            final(file).statements@[i],
            TypeScope { symbols: *symbols, in_file: file_types(old(file).statements@) },
        ),
{
    let mut in_file: Vec<String> = Vec::new();
    let mut k: usize = 0;
    while k < file.statements.len()
        invariant
            k <= file.statements.len(),
            views(in_file@) == file_types(file.statements@.take(k as int)),
        decreases file.statements.len() - k,
    {
        proof {
            assert(file.statements@.take(k + 1).drop_last() =~= file.statements@.take(k as int));
        }
        match &file.statements[k] {
            Statement::Definition(def) => {
                collect_definition_types(&**def, &mut in_file);
            },
            _ => {},
        }
        k += 1;
    }
    assert(file.statements@.take(k as int) =~= file.statements@);
    let types = TypeNames { symbols, in_file };
    let ghost s0 = file.statements@;
    let mut i: usize = 0;
    while i < file.statements.len()
        invariant
            i <= file.statements.len(),
            file.statements@.len() == s0.len(),
            types@ == (TypeScope { symbols: *symbols, in_file: file_types(s0) }),
            forall|j: int| 0 <= j < i ==> rewrites_statement_of_file(#[trigger] s0[j], file.statements@[j], types@),
            forall|j: int| i <= j < s0.len() ==> file.statements@[j] == #[trigger] s0[j],
        decreases file.statements.len() - i,
    {
        match &mut file.statements[i] {
            Statement::Use(_) => {},
            Statement::Let(binding) => {
                rewrite_expr(&mut binding.value, &types);
            },
            Statement::Definition(def) => {
                rewrite_definition(&mut **def, &types);
            },
        }
        i += 1;
    }
}

} // verus!

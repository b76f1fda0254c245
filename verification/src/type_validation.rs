//! Type references: each type a definition mentions must exist, be a type
//! rather than a trait, and take as many type arguments as it declares.
//!
//! A type parameter in scope shadows every type of the same name. A trait
//! cannot be the type of a value: it stays a compile-time constraint. A
//! dictionary key type must have a total equality.

use vstd::prelude::*;
use vstd::string::StringExecFns;
use crate::analyzer::SemanticAnalyzer;
use crate::ast::{GenericParam, Ident, ParamConvention, Span, StructDef, TraitDef, TupleTypeField, Type};
use crate::error::{error_views, CompilerError, ErrorView};
use crate::key_types::key_type_ok;
use crate::modules::{nested_type_error, str_views, visibility_report};
use crate::outer_frames::names_in_scopes;
use crate::patterns::ident_names;
use crate::qualified_types::{first_separator, split_parts, split_qualified_type};
use crate::sem_type::{display_of, sem_of};
use crate::symbols::{enum_named, struct_named, SymbolTable};
use crate::text::{lemma_views_push, list_contains, str_equals, views};

verus! {

broadcast use vstd::std_specs::vec::group_vec_axioms;

/// The type parameters that the table `st` declares for the struct or
/// enum called `name`.
pub open spec fn generics_of(st: SymbolTable, name: Seq<char>) -> Option<Seq<Seq<char>>> {
    match struct_named(st.structs@, name) {
        Some(s) => Some(views(s.generics@)),
        None => match enum_named(st.enums@, name) {
            Some(e) => Some(views(e.generics@)),
            None => None,
        },
    }
}

/// A name of one upper-case ASCII letter, as type parameters are named.
pub open spec fn one_letter_upper(s: Seq<char>) -> bool {
    s.len() == 1 && 'A' <= s[0] && s[0] <= 'Z'
}

/// What a type named by `id` reports, with `params` the type parameters
/// in scope.
pub open spec fn ident_type_reports(st: SymbolTable, params: Set<Seq<char>>, id: Ident) -> Seq<ErrorView> {
    if first_separator(id.name@) is Some {
        let parts = split_parts(id.name@);
        if parts.len() >= 2 {
            match nested_type_error(st, parts) {
                Some(m) => seq![ErrorView::UndefinedType { name: m, span: id.span }],
                None => match visibility_report(st, parts) {
                    Some(n) => seq![ErrorView::VisibilityViolation { name: n, span: id.span }],
                    None => seq![],
                },
            }
        } else {
            seq![ErrorView::UndefinedType { name: "invalid module path: "@ + id.name@, span: id.span }]
        }
    } else if params.contains(id.name@) {
        seq![]
    } else if st.has_trait(id.name@) {
        seq![ErrorView::TraitUsedAsValueType { name: id.name@, span: id.span }]
    } else if st.names_type(id.name@) {
        seq![]
    } else if one_letter_upper(id.name@) {
        seq![ErrorView::OutOfScopeTypeParameter { param: id.name@, span: id.span }]
    } else {
        seq![ErrorView::UndefinedType { name: id.name@, span: id.span }]
    }
}

/// What a dictionary key type `key` reports.
pub open spec fn key_reports(st: SymbolTable, key: Type, span: Span) -> Seq<ErrorView> {
    if key_type_ok(st, sem_of(key)) {
        seq![]
    } else {
        seq![ErrorView::InvalidDictionaryKey { key_type: display_of(sem_of(key)), span }]
    }
}

/// The labels of tuple fields, in order.
pub open spec fn tuple_labels(fields: Seq<TupleTypeField>) -> Seq<Seq<char>>
    decreases fields.len(),
{
    if fields.len() == 0 {
        seq![]
    } else {
        tuple_labels(fields.drop_last()) + match fields.last().name {
            Some(l) => seq![l.name@],
            None => Seq::<Seq<char>>::empty(),
        }
    }
}

/// A report for each tuple label that an earlier field has.
pub open spec fn tuple_label_reports(fields: Seq<TupleTypeField>) -> Seq<ErrorView>
    decreases fields.len(),
{
    if fields.len() == 0 {
        seq![]
    } else {
        tuple_label_reports(fields.drop_last()) + match fields.last().name {
            Some(l) => if tuple_labels(fields.drop_last()).contains(l.name@) {
                seq![ErrorView::DuplicateDefinition { name: "tuple label '"@ + l.name@ + "'"@, span: fields.last().span }]
            } else {
                Seq::<ErrorView>::empty()
            },
            None => Seq::<ErrorView>::empty(),
        }
    }
}

/// What the type `t`, written in a declaration at `span`, reports.
pub open spec fn type_reports(st: SymbolTable, params: Set<Seq<char>>, t: Type, span: Span) -> Seq<ErrorView>
    decreases t,
{
    match t {
        Type::Primitive(_) => seq![],
        Type::Ident(id) => ident_type_reports(st, params, id),
        Type::Array(e) => type_reports(st, params, *e, span),
        Type::Optional(e) => type_reports(st, params, *e, span),
        Type::Tuple(fields) => tuple_label_reports(fields@) + type_reports_fields(st, params, fields@),
        Type::Generic { name, args, span: at } => if generic_head_reports(st, name, args@, at).1 {
            generic_head_reports(st, name, args@, at).0 + type_reports_args(st, params, args@, at)
        } else {
            generic_head_reports(st, name, args@, at).0
        },
        Type::Dictionary { key, value } => key_reports(st, *key, span) + type_reports(st, params, *key, span)
            + type_reports(st, params, *value, span),
        Type::Closure { params: ps, ret } => type_reports_params(st, params, ps@, span) + type_reports(st, params, *ret, span),
    }
}

/// What the name of `Name<args>` and the number of its arguments report,
/// and whether the arguments are checked after it.
pub open spec fn generic_head_reports(st: SymbolTable, name: Ident, args: Seq<Type>, span: Span) -> (Seq<ErrorView>, bool) {
    if st.has_trait(name.name@) {
        (seq![ErrorView::TraitUsedAsValueType { name: name.name@, span: name.span }], false)
    } else if !st.names_type(name.name@) {
        (seq![ErrorView::UndefinedType { name: name.name@, span: name.span }], false)
    } else {
        ((match generics_of(st, name.name@) {
            Some(g) => if g.len() != args.len() {
                seq![ErrorView::GenericArityMismatch { name: name.name@, expected: g.len() as usize, actual: args.len() as usize, span }]
            } else {
                Seq::<ErrorView>::empty()
            },
            None => Seq::<ErrorView>::empty(),
        }) + (if name.name@ == "Dictionary"@ && args.len() > 0 {
            key_reports(st, args[0], span)
        } else {
            Seq::<ErrorView>::empty()
        }), true)
    }
}

/// What `Name<args>` reports.
pub open spec fn generic_reports(st: SymbolTable, params: Set<Seq<char>>, name: Ident, args: Seq<Type>, span: Span) -> Seq<ErrorView> {
    if generic_head_reports(st, name, args, span).1 {
        generic_head_reports(st, name, args, span).0 + type_reports_args(st, params, args, span)
    } else {
        generic_head_reports(st, name, args, span).0
    }
}

pub open spec fn type_reports_args(st: SymbolTable, params: Set<Seq<char>>, s: Seq<Type>, span: Span) -> Seq<ErrorView>
    decreases s,
{
    if s.len() == 0 { seq![] } else { type_reports_args(st, params, s.drop_last(), span) + type_reports(st, params, s.last(), span) }
}

pub open spec fn type_reports_fields(st: SymbolTable, params: Set<Seq<char>>, s: Seq<TupleTypeField>) -> Seq<ErrorView>
    decreases s,
{
    if s.len() == 0 {
        seq![]
    } else {
        type_reports_fields(st, params, s.drop_last()) + type_reports(st, params, s.last().ty, s.last().span)
    }
}

pub open spec fn type_reports_params(st: SymbolTable, params: Set<Seq<char>>, s: Seq<(ParamConvention, Type)>, span: Span) -> Seq<ErrorView>
    decreases s,
{
    if s.len() == 0 {
        seq![]
    } else {
        type_reports_params(st, params, s.drop_last(), span) + type_reports(st, params, s.last().1, span)
    }
}

/// The type parameters in scope for `a`.
pub open spec fn type_params_in_scope(a: SemanticAnalyzer) -> Set<Seq<char>> {
    names_in_scopes(a.generic_scopes@)
}

/// The names of generic parameters.
pub open spec fn generic_names(gs: Seq<GenericParam>) -> Seq<Seq<char>> {
    gs.map_values(|g: GenericParam| g.name.name@)
}

/// What the declared types `fields` report, each at its own span.
pub open spec fn field_type_reports(st: SymbolTable, params: Set<Seq<char>>, fields: Seq<crate::ast::FieldDef>) -> Seq<ErrorView>
    decreases fields.len(),
{
    if fields.len() == 0 {
        seq![]
    } else {
        field_type_reports(st, params, fields.drop_last()) + type_reports(st, params, fields.last().ty, fields.last().span)
    }
}

/// What the declared types of struct fields report.
pub open spec fn struct_field_type_reports(st: SymbolTable, params: Set<Seq<char>>, fields: Seq<crate::ast::StructField>) -> Seq<ErrorView>
    decreases fields.len(),
{
    if fields.len() == 0 {
        seq![]
    } else {
        struct_field_type_reports(st, params, fields.drop_last()) + type_reports(st, params, fields.last().ty, fields.last().span)
    }
}

/// What the traits a trait requires report: each must be a trait.
pub open spec fn supertrait_reports(st: SymbolTable, traits: Seq<Ident>) -> Seq<ErrorView>
    decreases traits.len(),
{
    if traits.len() == 0 {
        seq![]
    } else {
        let t = traits.last();
        supertrait_reports(st, traits.drop_last()) + if st.has_trait(t.name@) {
            Seq::<ErrorView>::empty()
        } else if st.has_struct(t.name@) {
            seq![ErrorView::NotATrait { name: t.name@, actual_kind: "struct"@, span: t.span }]
        } else if st.has_enum(t.name@) {
            seq![ErrorView::NotATrait { name: t.name@, actual_kind: "enum"@, span: t.span }]
        } else {
            seq![ErrorView::UndefinedTrait { name: t.name@, span: t.span }]
        }
    }
}

/// Every dependency edge that a type adds, from `from`.
pub open spec fn type_dependencies(from: Seq<char>, t: Type) -> Seq<(Seq<char>, Seq<char>)>
    decreases t,
{
    match t {
        Type::Ident(id) => seq![(from, id.name@)],
        Type::Primitive(_) => seq![],
        Type::Array(_) => seq![],
        Type::Dictionary { .. } => seq![],
        Type::Optional(e) => type_dependencies(from, *e),
        Type::Tuple(fields) => type_dependencies_fields(from, fields@),
        Type::Generic { name, args, .. } => seq![(from, name.name@)] + type_dependencies_args(from, args@),
        Type::Closure { params, ret } => type_dependencies_params(from, params@) + type_dependencies(from, *ret),
    }
}

pub open spec fn type_dependencies_args(from: Seq<char>, s: Seq<Type>) -> Seq<(Seq<char>, Seq<char>)>
    decreases s,
{
    if s.len() == 0 { seq![] } else { type_dependencies_args(from, s.drop_last()) + type_dependencies(from, s.last()) }
}

pub open spec fn type_dependencies_fields(from: Seq<char>, s: Seq<TupleTypeField>) -> Seq<(Seq<char>, Seq<char>)>
    decreases s,
{
    if s.len() == 0 { seq![] } else { type_dependencies_fields(from, s.drop_last()) + type_dependencies(from, s.last().ty) }
}

pub open spec fn type_dependencies_params(from: Seq<char>, s: Seq<(ParamConvention, Type)>) -> Seq<(Seq<char>, Seq<char>)>
    decreases s,
{
    if s.len() == 0 { seq![] } else { type_dependencies_params(from, s.drop_last()) + type_dependencies(from, s.last().1) }
}

/// The views of the edges of a dependency graph.
pub open spec fn edge_views(g: Seq<(String, String)>) -> Seq<(Seq<char>, Seq<char>)> {
    g.map_values(|e: (String, String)| (e.0@, e.1@))
}

/// The parts of a qualified name, split at each `::`.
fn path_parts<'a>(name: &'a str) -> (r: Vec<&'a str>)
    requires
        first_separator(name@) is Some,
    ensures
        str_views(r@) == split_parts(name@),
{
    match split_qualified_type(name) {
        Some((segments, bare)) => {
            let ghost parts = split_parts(name@);
            let mut out = segments;
            out.push(bare);
            assert(str_views(out@) =~= parts);
            out
        },
        None => {
            assert(false);
            Vec::new()
        },
    }
}

/// `a` holds an edge for each of `extra` after its own.
proof fn lemma_edges_push(g: Seq<(String, String)>, e: (String, String))
    ensures
        edge_views(g.push(e)) == edge_views(g).push((e.0@, e.1@)),
{
    assert(edge_views(g.push(e)) =~= edge_views(g).push((e.0@, e.1@)));
}

impl SemanticAnalyzer {
    /// True when `name` is a type parameter in scope.
    pub fn is_type_parameter(&self, name: &str) -> (r: bool)
        ensures
            r == type_params_in_scope(*self).contains(name@),
    {
        let scopes = &self.generic_scopes;
        let mut i: usize = 0;
        while i < scopes.len()
            invariant
                i <= scopes@.len(),
                forall|j: int| 0 <= j < i ==> !views(#[trigger] scopes@[j]@).contains(name@),
            decreases scopes.len() - i,
        {
            if list_contains(&scopes[i], name) {
                return true;
            }
            i += 1;
        }
        false
    }

    /// Bring the type parameters `generics` into scope.
    pub fn push_generic_scope(&mut self, generics: &Vec<GenericParam>)
        ensures
            type_params_in_scope(*final(self)) == type_params_in_scope(*old(self)).union(generic_names(generics@).to_set()),
            final(self).generic_scopes@.drop_last() == old(self).generic_scopes@,
            final(self).generic_scopes@.len() == old(self).generic_scopes@.len() + 1,
            final(self).errors == old(self).errors,
            final(self).symbols == old(self).symbols,
    {
        let mut names: Vec<String> = Vec::new();
        let mut i: usize = 0;
        while i < generics.len()
            invariant
                i <= generics@.len(),
                views(names@) == generic_names(generics@.take(i as int)),
            decreases generics.len() - i,
        {
            let ghost nb = names@;
            let copy = generics[i].name.name.clone();
            names.push(copy);
            proof {
                lemma_views_push(nb, copy);
                assert(generic_names(generics@.take(i + 1)) =~= generic_names(generics@.take(i as int)).push(generics@[i as int].name.name@));
            }
            i += 1;
        }
        assert(generics@.take(i as int) =~= generics@);
        let ghost before = self.generic_scopes@;
        self.generic_scopes.push(names);
        proof {
            assert(self.generic_scopes@.drop_last() =~= before);
            assert(names_in_scopes(self.generic_scopes@) =~= names_in_scopes(before).union(generic_names(generics@).to_set())) by {
                assert forall|n: Seq<char>| names_in_scopes(self.generic_scopes@).contains(n)
                    <==> names_in_scopes(before).contains(n) || generic_names(generics@).to_set().contains(n) by {
                    if names_in_scopes(self.generic_scopes@).contains(n) {
                        let q = choose|q: int| 0 <= q < self.generic_scopes@.len() && views(#[trigger] self.generic_scopes@[q]@).contains(n);
                        if q < before.len() {
                            assert(before[q] == self.generic_scopes@[q]);
                        }
                    }
                    if names_in_scopes(before).contains(n) {
                        let q = choose|q: int| 0 <= q < before.len() && views(#[trigger] before[q]@).contains(n);
                        assert(self.generic_scopes@[q] == before[q]);
                    }
                    if generic_names(generics@).to_set().contains(n) {
                        assert(self.generic_scopes@[before.len() as int] == names);
                    }
                }
            }
        }
    }

    /// Drop the innermost scope of type parameters.
    pub fn pop_generic_scope(&mut self)
        ensures
            final(self).generic_scopes@ == if old(self).generic_scopes@.len() > 0 {
                old(self).generic_scopes@.drop_last()
            } else {
                old(self).generic_scopes@
            },
            final(self).errors == old(self).errors,
            final(self).symbols == old(self).symbols,
    {
        let _ = self.generic_scopes.pop();
    }

    /// Check a type that a declaration at `span` mentions, and every type
    /// nested inside it.
    pub fn validate_type(&mut self, ty: &Type, span: Span)
        ensures
            final(self).same_state(*old(self)),
            error_views(final(self).errors@) == error_views(old(self).errors@)
                + type_reports(old(self).symbols, type_params_in_scope(*old(self)), *ty, span),
        decreases *ty, 1nat,
    {
        let ghost t0 = *ty;
        let ghost st = self.symbols;
        let ghost ps = type_params_in_scope(*self);
        let ghost e0 = error_views(self.errors@);
        let ghost s0 = *self;
        match ty {
            Type::Primitive(_) => {
                assert(error_views(self.errors@) =~= e0 + Seq::<ErrorView>::empty());
            },
            Type::Ident(ident) => self.validate_ident_type(ident),
            Type::Array(inner) => self.validate_type(inner, span),
            Type::Optional(inner) => self.validate_type(inner, span),
            Type::Tuple(fields) => {
                let mut seen: Vec<String> = Vec::new();
                let mut k: usize = 0;
                while k < fields.len()
                    invariant
                        k <= fields@.len(),
                        self.same_state(s0),
                        views(seen@) == tuple_labels(fields@.take(k as int)),
                        error_views(self.errors@) == e0 + tuple_label_reports(fields@.take(k as int)),
                    decreases fields.len() - k,
                {
                    proof {
                        assert(fields@.take(k + 1).drop_last() =~= fields@.take(k as int));
                        assert(fields@.take(k + 1).last() == fields@[k as int]);
                    }
                    match &fields[k].name {
                        Some(label) => {
                            if list_contains(&seen, label.name.as_str()) {
                                let mut message = String::from_str("tuple label '");
                                message.append(label.name.as_str());
                                message.append("'");
                                self.report(CompilerError::DuplicateDefinition { name: message, span: fields[k].span });
                            } else {
                                assert(error_views(self.errors@) =~= error_views(self.errors@) + Seq::<ErrorView>::empty());
                            }
                            let ghost sb = seen@;
                            let copy = label.name.clone();
                            seen.push(copy);
                            proof { lemma_views_push(sb, copy); }
                        },
                        None => {
                            assert(error_views(self.errors@) =~= error_views(self.errors@) + Seq::<ErrorView>::empty());
                            assert(views(seen@) =~= tuple_labels(fields@.take(k + 1)));
                        },
                    }
                    k += 1;
                }
                assert(fields@.take(k as int) =~= fields@);
                let ghost e1 = error_views(self.errors@);
                let mut k: usize = 0;
                while k < fields.len()
                    invariant
                        k <= fields@.len(),
                        self.same_state(s0),
                        error_views(self.errors@) == e1 + type_reports_fields(st, ps, fields@.take(k as int)),
                    decreases fields.len() - k,
                {
                    proof {
                        assert(decreases_to!(t0 => t0->Tuple_0@));
                        assert(decreases_to!(t0->Tuple_0@ => t0->Tuple_0@[k as int]));
                        assert(fields@.take(k + 1).drop_last() =~= fields@.take(k as int));
                    }
                    self.validate_type(&fields[k].ty, fields[k].span);
                    k += 1;
                }
                assert(fields@.take(k as int) =~= fields@);
            },
            Type::Generic { name, args, span: generic_span } => {
                proof {
                    assert(decreases_to!(t0 => t0->args));
                }
                self.validate_generic_type(name, args, *generic_span);
            },
            Type::Dictionary { key, value } => {
                self.validate_dictionary_key(key, span);
                self.validate_type(key, span);
                self.validate_type(value, span);
            },
            Type::Closure { params, ret } => {
                let mut k: usize = 0;
                while k < params.len()
                    invariant
                        k <= params@.len(),
                        self.same_state(s0),
                        error_views(self.errors@) == e0 + type_reports_params(st, ps, params@.take(k as int), span),
                    decreases params.len() - k,
                {
                    proof {
                        assert(decreases_to!(t0 => t0->params@));
                        assert(decreases_to!(t0->params@ => t0->params@[k as int]));
                        assert(params@.take(k + 1).drop_last() =~= params@.take(k as int));
                    }
                    self.validate_type(&params[k].1, span);
                    k += 1;
                }
                assert(params@.take(k as int) =~= params@);
                self.validate_type(ret, span);
            },
        }
    }

    /// Check a named type: a path through modules must reach a type that
    /// is visible here; a plain name must be a type parameter in scope, a
    /// struct or an enum, and not a trait.
    pub fn validate_ident_type(&mut self, ident: &Ident)
        ensures
            final(self).same_state(*old(self)),
            error_views(final(self).errors@) == error_views(old(self).errors@)
                + ident_type_reports(old(self).symbols, type_params_in_scope(*old(self)), *ident),
    {
        let name = ident.name.as_str();
        if split_qualified_type(name).is_some() {
            let parts = path_parts(name);
            if parts.len() >= 2 {
                match self.resolve_nested_module_type(&parts) {
                    Some(message) => {
                        self.report(CompilerError::UndefinedType { name: message, span: ident.span });
                    },
                    None => {
                        let mut path: Vec<Ident> = Vec::new();
                        let mut i: usize = 0;
                        while i < parts.len()
                            invariant
                                i <= parts@.len(),
                                ident_names(path@) == str_views(parts@).take(i as int),
                            decreases parts.len() - i,
                        {
                            let ghost pb = path@;
                            path.push(Ident { name: String::from_str(parts[i]), span: ident.span });
                            assert(ident_names(path@) =~= str_views(parts@).take(i + 1));
                            i += 1;
                        }
                        assert(str_views(parts@).take(i as int) =~= str_views(parts@));
                        self.check_module_visibility(&path, ident.span);
                    },
                }
            } else {
                let mut message = String::from_str("invalid module path: ");
                message.append(name);
                self.report(CompilerError::UndefinedType { name: message, span: ident.span });
            }
        } else if self.is_type_parameter(name) {
            assert(error_views(self.errors@) =~= error_views(self.errors@) + Seq::<ErrorView>::empty());
        } else if self.symbols.is_trait(name) {
            self.report(CompilerError::TraitUsedAsValueType { name: ident.name.clone(), span: ident.span });
        } else if self.symbols.is_type(name) {
            assert(error_views(self.errors@) =~= error_views(self.errors@) + Seq::<ErrorView>::empty());
        } else if name.unicode_len() == 1 && 'A' <= name.get_char(0) && name.get_char(0) <= 'Z' {
            self.report(CompilerError::OutOfScopeTypeParameter { param: ident.name.clone(), span: ident.span });
        } else {
            self.report(CompilerError::UndefinedType { name: ident.name.clone(), span: ident.span });
        }
    }

    /// Check a generic type application such as `Container<T, U>`: the
    /// name is a type and not a trait, it takes as many type arguments as
    /// it declares, a `Dictionary` key can be a key, and each argument is
    /// itself a valid type.
    pub fn validate_generic_type(&mut self, name: &Ident, args: &Vec<Type>, span: Span)
        ensures
            final(self).same_state(*old(self)),
            error_views(final(self).errors@) == error_views(old(self).errors@)
                + generic_reports(old(self).symbols, type_params_in_scope(*old(self)), *name, args@, span),
        decreases *args, 0nat,
    {
        let ghost st = self.symbols;
        let ghost ps = type_params_in_scope(*self);
        let ghost s0 = *self;
        if self.symbols.is_trait(name.name.as_str()) {
            self.report(CompilerError::TraitUsedAsValueType { name: name.name.clone(), span: name.span });
            return;
        }
        if !self.symbols.is_type(name.name.as_str()) {
            self.report(CompilerError::UndefinedType { name: name.name.clone(), span: name.span });
            return;
        }
        let declared: Option<usize> = match self.symbols.get_struct(name.name.as_str()) {
            Some(s) => Some(s.generics.len()),
            None => match self.symbols.get_enum(name.name.as_str()) {
                Some(e) => Some(e.generics.len()),
                None => None,
            },
        };
        match declared {
            Some(expected) => {
                if expected != args.len() {
                    self.report(CompilerError::GenericArityMismatch {
                        name: name.name.clone(),
                        expected,
                        actual: args.len(),
                        span,
                    });
                } else {
                    assert(error_views(self.errors@) =~= error_views(self.errors@) + Seq::<ErrorView>::empty());
                }
            },
            None => {
                assert(error_views(self.errors@) =~= error_views(self.errors@) + Seq::<ErrorView>::empty());
            },
        }
        if str_equals(name.name.as_str(), "Dictionary") && args.len() > 0 {
            self.validate_dictionary_key(&args[0], span);
        } else {
            assert(error_views(self.errors@) =~= error_views(self.errors@) + Seq::<ErrorView>::empty());
        }
        let ghost e1 = error_views(self.errors@);
        let mut k: usize = 0;
        while k < args.len()
            invariant
                k <= args@.len(),
                self.same_state(s0),
                error_views(self.errors@) == e1 + type_reports_args(st, ps, args@.take(k as int), span),
            decreases args.len() - k,
        {
            proof {
                assert(decreases_to!(*args => args@));
                assert(decreases_to!(args@ => args@[k as int]));
                assert(args@.take(k + 1).drop_last() =~= args@.take(k as int));
            }
            self.validate_type(&args[k], span);
            k += 1;
        }
        assert(args@.take(k as int) =~= args@);
    }

    /// Check the field types of a struct, with its type parameters in
    /// scope.
    pub fn resolve_struct_types(&mut self, struct_def: &StructDef)
        ensures
            error_views(final(self).errors@) == error_views(old(self).errors@) + struct_field_type_reports(
                old(self).symbols,
                type_params_in_scope(*old(self)).union(generic_names(struct_def.generics@).to_set()),
                struct_def.fields@,
            ),
            final(self).symbols == old(self).symbols,
            final(self).generic_scopes@ == old(self).generic_scopes@,
    {
        let ghost g0 = self.generic_scopes;
        self.push_generic_scope(&struct_def.generics);
        let ghost st = self.symbols;
        let ghost ps = type_params_in_scope(*self);
        let ghost e0 = error_views(self.errors@);
        let ghost s1 = *self;
        let fields = &struct_def.fields;
        let mut k: usize = 0;
        while k < fields.len()
            invariant
                k <= fields@.len(),
                self.same_state(s1),
                error_views(self.errors@) == e0 + struct_field_type_reports(st, ps, fields@.take(k as int)),
            decreases fields.len() - k,
        {
            proof {
                assert(fields@.take(k + 1).drop_last() =~= fields@.take(k as int));
                assert(fields@.take(k + 1).last() == fields@[k as int]);
            }
            self.validate_type(&fields[k].ty, fields[k].span);
            k += 1;
        }
        assert(fields@.take(k as int) =~= fields@);
        self.pop_generic_scope();
        assert(self.generic_scopes@ =~= g0@);
    }

    /// Check the traits a trait requires, and its field types, with its
    /// type parameters in scope.
    pub fn resolve_trait_types(&mut self, trait_def: &TraitDef)
        ensures
            error_views(final(self).errors@) == error_views(old(self).errors@)
                + supertrait_reports(old(self).symbols, trait_def.traits@)
                + field_type_reports(
                    old(self).symbols,
                    type_params_in_scope(*old(self)).union(generic_names(trait_def.generics@).to_set()),
                    trait_def.fields@,
                ),
            final(self).symbols == old(self).symbols,
            final(self).generic_scopes@ == old(self).generic_scopes@,
    {
        let ghost g0 = self.generic_scopes;
        self.push_generic_scope(&trait_def.generics);
        let ghost st = self.symbols;
        let ghost e0 = error_views(self.errors@);
        let ghost s1 = *self;
        let traits = &trait_def.traits;
        let mut k: usize = 0;
        while k < traits.len()
            invariant
                k <= traits@.len(),
                self.same_state(s1),
                error_views(self.errors@) == e0 + supertrait_reports(st, traits@.take(k as int)),
            decreases traits.len() - k,
        {
            proof {
                assert(traits@.take(k + 1).drop_last() =~= traits@.take(k as int));
                assert(traits@.take(k + 1).last() == traits@[k as int]);
            }
            let t = &traits[k];
            if self.symbols.is_trait(t.name.as_str()) {
                assert(error_views(self.errors@) =~= error_views(self.errors@) + Seq::<ErrorView>::empty());
            } else if self.symbols.struct_index(t.name.as_str()).is_some() {
                self.report(CompilerError::NotATrait { name: t.name.clone(), actual_kind: String::from_str("struct"), span: t.span });
            } else if self.symbols.enum_index(t.name.as_str()).is_some() {
                self.report(CompilerError::NotATrait { name: t.name.clone(), actual_kind: String::from_str("enum"), span: t.span });
            } else {
                self.report(CompilerError::UndefinedTrait { name: t.name.clone(), span: t.span });
            }
            k += 1;
        }
        assert(traits@.take(k as int) =~= traits@);
        let ghost ps = type_params_in_scope(*self);
        let ghost e1 = error_views(self.errors@);
        let fields = &trait_def.fields;
        let mut k: usize = 0;
        while k < fields.len()
            invariant
                k <= fields@.len(),
                self.same_state(s1),
                error_views(self.errors@) == e1 + field_type_reports(st, ps, fields@.take(k as int)),
            decreases fields.len() - k,
        {
            proof {
                assert(fields@.take(k + 1).drop_last() =~= fields@.take(k as int));
                assert(fields@.take(k + 1).last() == fields@[k as int]);
            }
            self.validate_type(&fields[k].ty, fields[k].span);
            k += 1;
        }
        assert(fields@.take(k as int) =~= fields@);
        self.pop_generic_scope();
        assert(self.generic_scopes@ =~= g0@);
    }

    /// Add to `graph` an edge from `from` to each type that a value of
    /// `ty` holds inline: an array and a dictionary hold their elements out
    /// of line, so they break a cycle; an optional holds its value inline.
    pub fn add_type_dependencies(graph: &mut Vec<(String, String)>, from: &str, ty: &Type)
        ensures
            edge_views(final(graph)@) == edge_views(old(graph)@) + type_dependencies(from@, *ty),
        decreases *ty,
    {
        let ghost t0 = *ty;
        let ghost g0 = edge_views(graph@);
        match ty {
            Type::Ident(ident) => {
                let ghost gb = graph@;
                let edge = (String::from_str(from), ident.name.clone());
                graph.push(edge);
                proof { lemma_edges_push(gb, edge); }
                assert(edge_views(graph@) =~= g0 + type_dependencies(from@, t0));
            },
            Type::Primitive(_) | Type::Array(_) | Type::Dictionary { .. } => {
                assert(edge_views(graph@) =~= g0 + type_dependencies(from@, t0));
            },
            Type::Optional(inner) => Self::add_type_dependencies(graph, from, inner),
            Type::Tuple(fields) => {
                let mut k: usize = 0;
                while k < fields.len()
                    invariant
                        k <= fields@.len(),
                        edge_views(graph@) == g0 + type_dependencies_fields(from@, fields@.take(k as int)),
                    decreases fields.len() - k,
                {
                    proof {
                        assert(decreases_to!(t0 => t0->Tuple_0@));
                        assert(decreases_to!(t0->Tuple_0@ => t0->Tuple_0@[k as int]));
                        assert(fields@.take(k + 1).drop_last() =~= fields@.take(k as int));
                    }
                    Self::add_type_dependencies(graph, from, &fields[k].ty);
                    assert(edge_views(graph@) =~= g0 + type_dependencies_fields(from@, fields@.take(k + 1)));
                    k += 1;
                }
                assert(fields@.take(k as int) =~= fields@);
            },
            Type::Generic { name, args, .. } => {
                let ghost gb = graph@;
                let edge = (String::from_str(from), name.name.clone());
                graph.push(edge);
                proof { lemma_edges_push(gb, edge); }
                let ghost g1 = edge_views(graph@);
                assert(g1 =~= g0 + seq![(from@, name.name@)]);
                let mut k: usize = 0;
                while k < args.len()
                    invariant
                        k <= args@.len(),
                        edge_views(graph@) == g1 + type_dependencies_args(from@, args@.take(k as int)),
                    decreases args.len() - k,
                {
                    proof {
                        assert(decreases_to!(t0 => t0->args@));
                        assert(decreases_to!(t0->args@ => t0->args@[k as int]));
                        assert(args@.take(k + 1).drop_last() =~= args@.take(k as int));
                    }
                    Self::add_type_dependencies(graph, from, &args[k]);
                    assert(edge_views(graph@) =~= g1 + type_dependencies_args(from@, args@.take(k + 1)));
                    k += 1;
                }
                assert(args@.take(k as int) =~= args@);
                assert(edge_views(graph@) =~= g0 + type_dependencies(from@, t0));
            },
            Type::Closure { params, ret } => {
                let mut k: usize = 0;
                while k < params.len()
                    invariant
                        k <= params@.len(),
                        edge_views(graph@) == g0 + type_dependencies_params(from@, params@.take(k as int)),
                    decreases params.len() - k,
                {
                    proof {
                        assert(decreases_to!(t0 => t0->params@));
                        assert(decreases_to!(t0->params@ => t0->params@[k as int]));
                        assert(params@.take(k + 1).drop_last() =~= params@.take(k as int));
                    }
                    Self::add_type_dependencies(graph, from, &params[k].1);
                    assert(edge_views(graph@) =~= g0 + type_dependencies_params(from@, params@.take(k + 1)));
                    k += 1;
                }
                assert(params@.take(k as int) =~= params@);
                Self::add_type_dependencies(graph, from, ret);
                assert(edge_views(graph@) =~= g0 + type_dependencies(from@, t0));
            },
        }
    }
}

/// `name` names a struct or an enum: plainly, or through modules as
/// `m::Item`.
pub open spec fn qualified_type_name(st: SymbolTable, name: Seq<char>) -> bool {
    if first_separator(name) is Some {
        let parts = split_parts(name);
        match crate::modules::walk_modules(st, parts.drop_last()) {
            Ok(t) => t.names_type(parts.last()),
            Err(_) => false,
        }
    } else {
        st.names_type(name)
    }
}

/// `name` names a type here: a struct, an enum or a trait, a struct or an
/// enum through modules, or a type parameter in scope.
pub open spec fn names_type_here(a: SemanticAnalyzer, name: Seq<char>) -> bool {
    a.symbols.names_type(name) || a.symbols.has_trait(name) || qualified_type_name(a.symbols, name)
        || type_params_in_scope(a).contains(name)
}

impl SemanticAnalyzer {
    /// Whether `name` names a type in scope: a struct, an enum, a trait,
    /// or a type parameter of the enclosing definition.
    pub fn names_a_type(&self, name: &str) -> (r: bool)
        ensures
            r == names_type_here(*self, name@),
    {
        if self.symbols.is_type(name) || self.symbols.is_trait(name) {
            return true;
        }
        let qualified = if split_qualified_type(name).is_some() {
            let parts = path_parts(name);
            let ghost ps = str_views(parts@);
            let last = parts.len() - 1;
            let ghost modules = ps.drop_last();
            let mut current: &SymbolTable = &self.symbols;
            let mut k: usize = 0;
            let mut found = true;
            proof { crate::modules::lemma_walk_modules_error(self.symbols, modules); }
            assert(modules.skip(0) =~= modules);
            while k < last
                invariant
                    k <= last,
                    last == ps.len() - 1,
                    ps == str_views(parts@),
                    modules == ps.drop_last(),
                    found,
                    crate::modules::walk_modules(self.symbols, modules) is Ok ==> crate::modules::walk_modules(*current, modules.skip(k as int))
                        == crate::modules::walk_modules(self.symbols, modules),
                    crate::modules::walk_modules(self.symbols, modules) is Err ==> crate::modules::walk_modules(*current, modules.skip(k as int)) is Err,
                decreases last - k,
            {
                proof {
                    assert(modules.skip(k as int)[0] == ps[k as int]);
                    assert(modules.skip(k as int).drop_first() =~= modules.skip(k + 1));
                }
                match crate::modules::get_module(current, parts[k]) {
                    Some(m) => {
                        current = &m.symbols;
                    },
                    None => {
                        found = false;
                        break;
                    },
                }
                k += 1;
            }
            if found {
                assert(modules.skip(k as int) =~= Seq::<Seq<char>>::empty());
                current.is_type(parts[last])
            } else {
                false
            }
        } else {
            false
        };
        qualified || self.is_type_parameter(name)
    }
}

} // verus!

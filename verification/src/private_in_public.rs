//! Reject a private type named in a public signature.
//!
//! A `pub` definition is what another module sees. Naming a private type
//! in one hands the reader a value whose type they cannot write down. The
//! positions checked: the parameters, the return type and the trait
//! bounds of a public function, the fields of a public struct, the payload
//! fields of a public enum, the fields and the method signatures of a
//! public trait, and the written type of a public `let`. The check goes
//! into inline modules, where the module's own names come first, and
//! through containers: `[Hidden]` and `Hidden?` name `Hidden` too. A name
//! that resolves to nothing is left alone: it may be an import.

use vstd::prelude::*;
use vstd::string::StringExecFns;
use crate::analyzer::SemanticAnalyzer;
use crate::ast::{
    Definition, EnumDef, EnumVariant, FieldDef, File, FnParam, FnSignature, FunctionDef, GenericConstraint, GenericParam,
    LetBinding, Span, Statement, StructDef, StructField, TraitDef, Type, Visibility,
};
use crate::error::{error_views, CompilerError, ErrorView};
use crate::modules::{get_module, module_named, trait_named};
use crate::symbols::{enum_named, struct_named, EnumInfo, StructInfo, SymbolTable, TraitInfo};
use crate::text::{list_contains, str_equals, views};
use crate::type_names::{for_each_named_type, named_types};
use crate::type_validation::generic_names;

verus! {

broadcast use vstd::std_specs::vec::group_vec_axioms;

/// The tables of a chain of scopes, innermost first.
pub open spec fn tables(scopes: Seq<&SymbolTable>) -> Seq<SymbolTable> {
    scopes.map_values(|t: &SymbolTable| *t)
}

/// The first struct called `n` in the innermost scope that has one.
pub open spec fn chain_struct(scopes: Seq<SymbolTable>, n: Seq<char>) -> Option<StructInfo>
    decreases scopes.len(),
{
    if scopes.len() == 0 {
        None
    } else {
        match struct_named(scopes[0].structs@, n) {
            Some(s) => Some(s),
            None => chain_struct(scopes.drop_first(), n),
        }
    }
}

pub open spec fn chain_enum(scopes: Seq<SymbolTable>, n: Seq<char>) -> Option<EnumInfo>
    decreases scopes.len(),
{
    if scopes.len() == 0 {
        None
    } else {
        match enum_named(scopes[0].enums@, n) {
            Some(e) => Some(e),
            None => chain_enum(scopes.drop_first(), n),
        }
    }
}

pub open spec fn chain_trait(scopes: Seq<SymbolTable>, n: Seq<char>) -> Option<TraitInfo>
    decreases scopes.len(),
{
    if scopes.len() == 0 {
        None
    } else {
        match trait_named(scopes[0].traits@, n) {
            Some(t) => Some(t),
            None => chain_trait(scopes.drop_first(), n),
        }
    }
}

/// `n` names a definition that is not `pub`: a struct, else an enum,
/// else a trait, as the chain of scopes resolves it.
pub open spec fn private_name(scopes: Seq<SymbolTable>, n: Seq<char>) -> bool {
    match chain_struct(scopes, n) {
        Some(s) => s.visibility == Visibility::Private,
        None => match chain_enum(scopes, n) {
            Some(e) => e.visibility == Visibility::Private,
            None => match chain_trait(scopes, n) {
                Some(t) => t.visibility == Visibility::Private,
                None => false,
            },
        },
    }
}

/// A report for each name of `names` that is private and not one of the
/// type parameters `params`.
pub open spec fn private_reports(scopes: Seq<SymbolTable>, names: Seq<Seq<char>>, params: Seq<Seq<char>>, position: Seq<char>, span: Span) -> Seq<ErrorView>
    decreases names.len(),
{
    if names.len() == 0 {
        seq![]
    } else {
        private_reports(scopes, names.drop_last(), params, position, span) + if !params.contains(names.last())
            && private_name(scopes, names.last()) {
            seq![ErrorView::PrivateTypeInPublic { named_type: names.last(), position, span }]
        } else {
            Seq::<ErrorView>::empty()
        }
    }
}

/// What a type reports at a position.
pub open spec fn type_private_reports(scopes: Seq<SymbolTable>, t: Type, position: Seq<char>, span: Span, params: Seq<Seq<char>>) -> Seq<ErrorView> {
    private_reports(scopes, named_types(t), params, position, span)
}

pub open spec fn struct_private_reports(scopes: Seq<SymbolTable>, fields: Seq<StructField>, owner: Seq<char>, params: Seq<Seq<char>>) -> Seq<ErrorView>
    decreases fields.len(),
{
    if fields.len() == 0 {
        seq![]
    } else {
        let f = fields.last();
        struct_private_reports(scopes, fields.drop_last(), owner, params)
            + type_private_reports(scopes, f.ty, "field '"@ + f.name.name@ + "' of struct "@ + owner, f.span, params)
    }
}

/// `prefix` is the text after the field's name: `' of trait T` or
/// `' of variant E.v`.
pub open spec fn field_private_reports(scopes: Seq<SymbolTable>, fields: Seq<FieldDef>, prefix: Seq<char>, params: Seq<Seq<char>>) -> Seq<ErrorView>
    decreases fields.len(),
{
    if fields.len() == 0 {
        seq![]
    } else {
        let f = fields.last();
        field_private_reports(scopes, fields.drop_last(), prefix, params)
            + type_private_reports(scopes, f.ty, "field '"@ + f.name.name@ + prefix, f.span, params)
    }
}

pub open spec fn variant_private_reports(scopes: Seq<SymbolTable>, variants: Seq<EnumVariant>, enum_name: Seq<char>, params: Seq<Seq<char>>) -> Seq<ErrorView>
    decreases variants.len(),
{
    if variants.len() == 0 {
        seq![]
    } else {
        let v = variants.last();
        variant_private_reports(scopes, variants.drop_last(), enum_name, params)
            + field_private_reports(scopes, v.fields@, "' of variant "@ + enum_name + "."@ + v.name.name@, params)
    }
}

/// `owner` is what follows `of ` in the position: `f`, or `T.m`.
pub open spec fn param_private_reports(scopes: Seq<SymbolTable>, ps: Seq<FnParam>, owner: Seq<char>, params: Seq<Seq<char>>) -> Seq<ErrorView>
    decreases ps.len(),
{
    if ps.len() == 0 {
        seq![]
    } else {
        let p = ps.last();
        param_private_reports(scopes, ps.drop_last(), owner, params) + match p.ty {
            Some(t) => type_private_reports(scopes, t, "parameter '"@ + p.name.name@ + "' of "@ + owner, p.span, params),
            None => Seq::<ErrorView>::empty(),
        }
    }
}

pub open spec fn method_private_reports(scopes: Seq<SymbolTable>, methods: Seq<FnSignature>, trait_name: Seq<char>, params: Seq<Seq<char>>) -> Seq<ErrorView>
    decreases methods.len(),
{
    if methods.len() == 0 {
        seq![]
    } else {
        let m = methods.last();
        let owner = trait_name + "."@ + m.name.name@;
        method_private_reports(scopes, methods.drop_last(), trait_name, params)
            + param_private_reports(scopes, m.params@, owner, params) + match m.return_type {
                Some(t) => type_private_reports(scopes, t, "the return type of "@ + owner, m.span, params),
                None => Seq::<ErrorView>::empty(),
            }
    }
}

/// A report for each bound of a generic parameter that names a private
/// trait.
pub open spec fn bound_private_reports(scopes: Seq<SymbolTable>, constraints: Seq<GenericConstraint>, function: Seq<char>) -> Seq<ErrorView>
    decreases constraints.len(),
{
    if constraints.len() == 0 {
        seq![]
    } else {
        bound_private_reports(scopes, constraints.drop_last(), function) + match constraints.last() {
            GenericConstraint::Trait { name, .. } => if private_name(scopes, name.name@) {
                seq![ErrorView::PrivateTypeInPublic { named_type: name.name@, position: "a bound of "@ + function, span: name.span }]
            } else {
                Seq::<ErrorView>::empty()
            },
        }
    }
}

pub open spec fn generics_private_reports(scopes: Seq<SymbolTable>, generics: Seq<GenericParam>, function: Seq<char>) -> Seq<ErrorView>
    decreases generics.len(),
{
    if generics.len() == 0 {
        seq![]
    } else {
        generics_private_reports(scopes, generics.drop_last(), function)
            + bound_private_reports(scopes, generics.last().constraints@, function)
    }
}

/// What one definition reports, with `scopes` the tables in scope.
pub open spec fn definition_private_reports(scopes: Seq<SymbolTable>, d: Definition) -> Seq<ErrorView>
    decreases d,
{
    match d {
        Definition::Struct(s) => if s.visibility == Visibility::Public {
            struct_private_reports(scopes, s.fields@, s.name.name@, generic_names(s.generics@))
        } else {
            seq![]
        },
        Definition::Enum(e) => if e.visibility == Visibility::Public {
            variant_private_reports(scopes, e.variants@, e.name.name@, generic_names(e.generics@))
        } else {
            seq![]
        },
        Definition::Function(f) => if f.visibility == Visibility::Public {
            generics_private_reports(scopes, f.generics@, f.name.name@)
                + param_private_reports(scopes, f.params@, f.name.name@, generic_names(f.generics@))
                + match f.return_type {
                    Some(t) => type_private_reports(scopes, t, "the return type of "@ + f.name.name@, f.span, generic_names(f.generics@)),
                    None => Seq::<ErrorView>::empty(),
                }
        } else {
            seq![]
        },
        Definition::Trait(t) => if t.visibility == Visibility::Public {
            field_private_reports(scopes, t.fields@, "' of trait "@ + t.name.name@, generic_names(t.generics@))
                + method_private_reports(scopes, t.methods@, t.name.name@, generic_names(t.generics@))
        } else {
            seq![]
        },
        Definition::Module(m) => {
            let inner = match module_named(scopes[0].modules@, m.name.name@) {
                Some(info) => seq![info.symbols] + scopes,
                None => scopes,
            };
            definitions_private_reports(inner, m.definitions@)
        },
        Definition::Impl(_) => seq![],
    }
}

pub open spec fn definitions_private_reports(scopes: Seq<SymbolTable>, defs: Seq<Definition>) -> Seq<ErrorView>
    decreases defs,
{
    if defs.len() == 0 {
        seq![]
    } else {
        definitions_private_reports(scopes, defs.drop_last()) + definition_private_reports(scopes, defs.last())
    }
}

/// What the statements of a file report.
pub open spec fn file_private_reports(st: SymbolTable, statements: Seq<Statement>) -> Seq<ErrorView>
    decreases statements.len(),
{
    if statements.len() == 0 {
        seq![]
    } else {
        file_private_reports(st, statements.drop_last()) + match statements.last() {
            Statement::Definition(d) => definition_private_reports(seq![st], *d),
            Statement::Let(b) => if b.visibility == Visibility::Public {
                match b.type_annotation {
                    Some(t) => type_private_reports(seq![st], t, "a public let"@, b.span, seq![]),
                    None => Seq::<ErrorView>::empty(),
                }
            } else {
                Seq::<ErrorView>::empty()
            },
            Statement::Use(_) => Seq::<ErrorView>::empty(),
        }
    }
}

/// Whether `name` belongs to a definition that is not `pub`, as the
/// chain of scopes `scopes` resolves it.
pub fn type_is_private(scopes: &Vec<&SymbolTable>, name: &str) -> (r: bool)
    ensures
        r == private_name(tables(scopes@), name@),
{
    let ghost ts = tables(scopes@);
    let mut i: usize = 0;
    assert(ts.skip(0) =~= ts);
    while i < scopes.len()
        invariant
            i <= scopes@.len(),
            ts == tables(scopes@),
            chain_struct(ts, name@) == chain_struct(ts.skip(i as int), name@),
        decreases scopes.len() - i,
    {
        assert(ts.skip(i as int)[0] == *scopes@[i as int]);
        assert(ts.skip(i as int).drop_first() =~= ts.skip(i + 1));
        if let Some(s) = scopes[i].get_struct(name) {
            return match s.visibility {
                Visibility::Private => true,
                Visibility::Public => false,
            };
        }
        i += 1;
    }
    let mut i: usize = 0;
    while i < scopes.len()
        invariant
            i <= scopes@.len(),
            ts == tables(scopes@),
            chain_struct(ts, name@) is None,
            chain_enum(ts, name@) == chain_enum(ts.skip(i as int), name@),
        decreases scopes.len() - i,
    {
        assert(ts.skip(i as int)[0] == *scopes@[i as int]);
        assert(ts.skip(i as int).drop_first() =~= ts.skip(i + 1));
        if let Some(e) = scopes[i].get_enum(name) {
            return match e.visibility {
                Visibility::Private => true,
                Visibility::Public => false,
            };
        }
        i += 1;
    }
    let mut i: usize = 0;
    while i < scopes.len()
        invariant
            i <= scopes@.len(),
            ts == tables(scopes@),
            chain_struct(ts, name@) is None,
            chain_enum(ts, name@) is None,
            chain_trait(ts, name@) == chain_trait(ts.skip(i as int), name@),
        decreases scopes.len() - i,
    {
        assert(ts.skip(i as int)[0] == *scopes@[i as int]);
        assert(ts.skip(i as int).drop_first() =~= ts.skip(i + 1));
        let traits = &scopes[i].traits;
        let mut j: usize = 0;
        assert(traits@.skip(0) =~= traits@);
        while j < traits.len()
            invariant
                j <= traits@.len(),
                trait_named(traits@, name@) == trait_named(traits@.skip(j as int), name@),
            decreases traits.len() - j,
        {
            assert(traits@.skip(j as int)[0] == traits@[j as int]);
            if str_equals(traits[j].name.as_str(), name) {
                return match traits[j].visibility {
                    Visibility::Private => true,
                    Visibility::Public => false,
                };
            }
            assert(traits@.skip(j as int).drop_first() =~= traits@.skip(j + 1));
            j += 1;
        }
        i += 1;
    }
    false
}

/// Append a report for each private type named inside `ty`, unless it is
/// one of the type parameters `params`.
pub fn report_private_types_in(scopes: &Vec<&SymbolTable>, ty: &Type, position: &str, span: Span, params: &Vec<String>, out: &mut Vec<CompilerError>)
    ensures
        error_views(final(out)@) == error_views(old(out)@) + type_private_reports(tables(scopes@), *ty, position@, span, views(params@)),
{
    let mut names: Vec<String> = Vec::new();
    for_each_named_type(ty, &mut names);
    assert(views(names@) =~= named_types(*ty));
    let ghost o0 = error_views(out@);
    let mut k: usize = 0;
    while k < names.len()
        invariant
            k <= names@.len(),
            views(names@) == named_types(*ty),
            error_views(out@) == o0 + private_reports(tables(scopes@), views(names@).take(k as int), views(params@), position@, span),
        decreases names.len() - k,
    {
        proof {
            assert(views(names@).take(k + 1).drop_last() =~= views(names@).take(k as int));
            assert(views(names@).take(k + 1).last() == names@[k as int]@);
        }
        let name = &names[k];
        let ghost ob = error_views(out@);
        if !list_contains(params, name.as_str()) && type_is_private(scopes, name.as_str()) {
            out.push(CompilerError::PrivateTypeInPublic { named_type: name.clone(), position: String::from_str(position), span });
            assert(error_views(out@) =~= ob + seq![out@.last()@]);
        } else {
            assert(error_views(out@) =~= ob + Seq::<ErrorView>::empty());
        }
        k += 1;
    }
    assert(views(names@).take(k as int) =~= views(names@));
}

/// The names of generic parameters, as strings.
fn names_of_generics(generics: &Vec<GenericParam>) -> (r: Vec<String>)
    ensures
        views(r@) == generic_names(generics@),
{
    let mut names: Vec<String> = Vec::new();
    let mut i: usize = 0;
    while i < generics.len()
        invariant
            i <= generics@.len(),
            views(names@) == generic_names(generics@.take(i as int)),
        decreases generics.len() - i,
    {
        let ghost nb = names@;
        let copy = generics[i].name.name.clone();
        names.push(copy);
        proof {
            crate::text::lemma_views_push(nb, copy);
            assert(generic_names(generics@.take(i + 1)) =~= generic_names(generics@.take(i as int)).push(generics@[i as int].name.name@));
        }
        i += 1;
    }
    assert(generics@.take(i as int) =~= generics@);
    names
}

/// Append the reports of one definition, with `scopes` the tables in
/// scope, innermost first.
pub fn check_definition_for_private_types(scopes: &Vec<&SymbolTable>, def: &Definition, out: &mut Vec<CompilerError>)
    requires
        scopes@.len() > 0,
    ensures
        error_views(final(out)@) == error_views(old(out)@) + definition_private_reports(tables(scopes@), *def),
    decreases *def,
{
    let ghost ts = tables(scopes@);
    let ghost o0 = error_views(out@);
    match def {
        Definition::Struct(s) => check_public_struct_fields(scopes, s, out),
        Definition::Enum(e) => check_public_enum_fields(scopes, e, out),
        Definition::Function(f) => check_public_function(scopes, f, out),
        Definition::Trait(t) => check_public_trait(scopes, t, out),
        Definition::Module(module_def) => {
            let mut inner: Vec<&SymbolTable> = Vec::new();
            match get_module(scopes[0], module_def.name.name.as_str()) {
                Some(info) => {
                    inner.push(&info.symbols);
                },
                None => {},
            }
            let mut i: usize = 0;
            let ghost head = inner@;
            while i < scopes.len()
                invariant
                    i <= scopes@.len(),
                    inner@ == head + scopes@.take(i as int),
                decreases scopes.len() - i,
            {
                inner.push(scopes[i]);
                assert(scopes@.take(i + 1) =~= scopes@.take(i as int).push(scopes@[i as int]));
                i += 1;
            }
            assert(scopes@.take(i as int) =~= scopes@);
            assert(tables(inner@) =~= match module_named(ts[0].modules@, module_def.name.name@) {
                Some(info) => seq![info.symbols] + ts,
                None => ts,
            });
            let defs = &module_def.definitions;
            let mut k: usize = 0;
            while k < defs.len()
                invariant
                    k <= defs@.len(),
                    inner@.len() > 0,
                    error_views(out@) == o0 + definitions_private_reports(tables(inner@), defs@.take(k as int)),
                decreases defs.len() - k,
            {
                proof {
                    assert(defs@.take(k + 1).drop_last() =~= defs@.take(k as int));
                    assert(decreases_to!(*def => def->Module_0.definitions@));
                    assert(decreases_to!(def->Module_0.definitions@ => def->Module_0.definitions@[k as int]));
                }
                check_definition_for_private_types(&inner, &defs[k], out);
                k += 1;
            }
            assert(defs@.take(k as int) =~= defs@);
        },
        Definition::Impl(_) => {
            assert(error_views(out@) =~= o0 + Seq::<ErrorView>::empty());
        },
    }
}

/// Append the reports of a struct.
fn check_public_struct_fields(scopes: &Vec<&SymbolTable>, s: &StructDef, out: &mut Vec<CompilerError>)
    ensures
        error_views(final(out)@) == error_views(old(out)@) + definition_private_reports(tables(scopes@), Definition::Struct(*s)),
{
    let ghost ts = tables(scopes@);
    let ghost o0 = error_views(out@);
        if let Visibility::Private = s.visibility {
            assert(error_views(out@) =~= o0 + Seq::<ErrorView>::empty());
            return;
        }
        let params = names_of_generics(&s.generics);
        let fields = &s.fields;
        let mut k: usize = 0;
        while k < fields.len()
            invariant
                k <= fields@.len(),
                error_views(out@) == o0 + struct_private_reports(ts, fields@.take(k as int), s.name.name@, views(params@)),
            decreases fields.len() - k,
        {
            proof {
                assert(fields@.take(k + 1).drop_last() =~= fields@.take(k as int));
                assert(fields@.take(k + 1).last() == fields@[k as int]);
            }
            let mut position = String::from_str("field '");
            position.append(fields[k].name.name.as_str());
            position.append("' of struct ");
            position.append(s.name.name.as_str());
            report_private_types_in(scopes, &fields[k].ty, position.as_str(), fields[k].span, &params, out);
            k += 1;
        }
        assert(fields@.take(k as int) =~= fields@);
}

/// Append the reports of an enum.
fn check_public_enum_fields(scopes: &Vec<&SymbolTable>, e: &EnumDef, out: &mut Vec<CompilerError>)
    ensures
        error_views(final(out)@) == error_views(old(out)@) + definition_private_reports(tables(scopes@), Definition::Enum(*e)),
{
    let ghost ts = tables(scopes@);
    let ghost o0 = error_views(out@);
        if let Visibility::Private = e.visibility {
            assert(error_views(out@) =~= o0 + Seq::<ErrorView>::empty());
            return;
        }
        let params = names_of_generics(&e.generics);
        let variants = &e.variants;
        let mut v: usize = 0;
        while v < variants.len()
            invariant
                v <= variants@.len(),
                error_views(out@) == o0 + variant_private_reports(ts, variants@.take(v as int), e.name.name@, views(params@)),
            decreases variants.len() - v,
        {
            proof {
                assert(variants@.take(v + 1).drop_last() =~= variants@.take(v as int));
                assert(variants@.take(v + 1).last() == variants@[v as int]);
            }
            let mut prefix = String::from_str("' of variant ");
            prefix.append(e.name.name.as_str());
            prefix.append(".");
            prefix.append(variants[v].name.name.as_str());
            check_fields_for_private_types(scopes, &variants[v].fields, prefix.as_str(), &params, out);
            v += 1;
        }
        assert(variants@.take(v as int) =~= variants@);
}

/// Append the reports of a function.
fn check_public_function(scopes: &Vec<&SymbolTable>, f: &FunctionDef, out: &mut Vec<CompilerError>)
    ensures
        error_views(final(out)@) == error_views(old(out)@) + definition_private_reports(tables(scopes@), Definition::Function(*f)),
{
    let ghost ts = tables(scopes@);
    let ghost o0 = error_views(out@);
        if let Visibility::Private = f.visibility {
            assert(error_views(out@) =~= o0 + Seq::<ErrorView>::empty());
            return;
        }
        let generics = &f.generics;
        let mut g: usize = 0;
        while g < generics.len()
            invariant
                g <= generics@.len(),
                error_views(out@) == o0 + generics_private_reports(ts, generics@.take(g as int), f.name.name@),
            decreases generics.len() - g,
        {
            proof {
                assert(generics@.take(g + 1).drop_last() =~= generics@.take(g as int));
                assert(generics@.take(g + 1).last() == generics@[g as int]);
            }
            let constraints = &generics[g].constraints;
            let ghost o1 = error_views(out@);
            let mut c: usize = 0;
            while c < constraints.len()
                invariant
                    c <= constraints@.len(),
                    error_views(out@) == o1 + bound_private_reports(ts, constraints@.take(c as int), f.name.name@),
                decreases constraints.len() - c,
            {
                proof {
                    assert(constraints@.take(c + 1).drop_last() =~= constraints@.take(c as int));
                    assert(constraints@.take(c + 1).last() == constraints@[c as int]);
                }
                let GenericConstraint::Trait { name, .. } = &constraints[c];
                let ghost ob = error_views(out@);
                if type_is_private(scopes, name.name.as_str()) {
                    let mut position = String::from_str("a bound of ");
                    position.append(f.name.name.as_str());
                    out.push(CompilerError::PrivateTypeInPublic { named_type: name.name.clone(), position, span: name.span });
                    assert(error_views(out@) =~= ob + seq![out@.last()@]);
                } else {
                    assert(error_views(out@) =~= ob + Seq::<ErrorView>::empty());
                }
                c += 1;
            }
            assert(constraints@.take(c as int) =~= constraints@);
            g += 1;
        }
        assert(generics@.take(g as int) =~= generics@);
        let params = names_of_generics(&f.generics);
        check_params_for_private_types(scopes, &f.params, f.name.name.as_str(), &params, out);
        match &f.return_type {
            Some(ret) => {
                let mut position = String::from_str("the return type of ");
                position.append(f.name.name.as_str());
                report_private_types_in(scopes, ret, position.as_str(), f.span, &params, out);
            },
            None => {
                assert(error_views(out@) =~= error_views(out@) + Seq::<ErrorView>::empty());
            },
        }
}

/// Append the reports of a trait.
fn check_public_trait(scopes: &Vec<&SymbolTable>, t: &TraitDef, out: &mut Vec<CompilerError>)
    ensures
        error_views(final(out)@) == error_views(old(out)@) + definition_private_reports(tables(scopes@), Definition::Trait(*t)),
{
    let ghost ts = tables(scopes@);
    let ghost o0 = error_views(out@);
        if let Visibility::Private = t.visibility {
            assert(error_views(out@) =~= o0 + Seq::<ErrorView>::empty());
            return;
        }
        let params = names_of_generics(&t.generics);
        let mut prefix = String::from_str("' of trait ");
        prefix.append(t.name.name.as_str());
        check_fields_for_private_types(scopes, &t.fields, prefix.as_str(), &params, out);
        let ghost o1 = error_views(out@);
        let methods = &t.methods;
        let mut m: usize = 0;
        while m < methods.len()
            invariant
                m <= methods@.len(),
                error_views(out@) == o1 + method_private_reports(ts, methods@.take(m as int), t.name.name@, views(params@)),
            decreases methods.len() - m,
        {
            proof {
                assert(methods@.take(m + 1).drop_last() =~= methods@.take(m as int));
                assert(methods@.take(m + 1).last() == methods@[m as int]);
            }
            let method = &methods[m];
            let mut owner = t.name.name.clone();
            owner.append(".");
            owner.append(method.name.name.as_str());
            check_params_for_private_types(scopes, &method.params, owner.as_str(), &params, out);
            match &method.return_type {
                Some(ret) => {
                    let mut position = String::from_str("the return type of ");
                    position.append(owner.as_str());
                    report_private_types_in(scopes, ret, position.as_str(), method.span, &params, out);
                },
                None => {
                    assert(error_views(out@) =~= error_views(out@) + Seq::<ErrorView>::empty());
                },
            }
            m += 1;
        }
        assert(methods@.take(m as int) =~= methods@);
}

/// Append the reports of payload or trait fields; `prefix` follows the
/// field's name in the position.
fn check_fields_for_private_types(scopes: &Vec<&SymbolTable>, fields: &Vec<FieldDef>, prefix: &str, params: &Vec<String>, out: &mut Vec<CompilerError>)
    ensures
        error_views(final(out)@) == error_views(old(out)@) + field_private_reports(tables(scopes@), fields@, prefix@, views(params@)),
{
    let ghost o0 = error_views(out@);
    let mut k: usize = 0;
    while k < fields.len()
        invariant
            k <= fields@.len(),
            error_views(out@) == o0 + field_private_reports(tables(scopes@), fields@.take(k as int), prefix@, views(params@)),
        decreases fields.len() - k,
    {
        proof {
            assert(fields@.take(k + 1).drop_last() =~= fields@.take(k as int));
            assert(fields@.take(k + 1).last() == fields@[k as int]);
        }
        let mut position = String::from_str("field '");
        position.append(fields[k].name.name.as_str());
        position.append(prefix);
        report_private_types_in(scopes, &fields[k].ty, position.as_str(), fields[k].span, params, out);
        k += 1;
    }
    assert(fields@.take(k as int) =~= fields@);
}

/// Append the reports of the parameters of `owner`.
fn check_params_for_private_types(scopes: &Vec<&SymbolTable>, ps: &Vec<FnParam>, owner: &str, params: &Vec<String>, out: &mut Vec<CompilerError>)
    ensures
        error_views(final(out)@) == error_views(old(out)@) + param_private_reports(tables(scopes@), ps@, owner@, views(params@)),
{
    let ghost o0 = error_views(out@);
    let mut k: usize = 0;
    while k < ps.len()
        invariant
            k <= ps@.len(),
            error_views(out@) == o0 + param_private_reports(tables(scopes@), ps@.take(k as int), owner@, views(params@)),
        decreases ps.len() - k,
    {
        proof {
            assert(ps@.take(k + 1).drop_last() =~= ps@.take(k as int));
            assert(ps@.take(k + 1).last() == ps@[k as int]);
        }
        match &ps[k].ty {
            Some(ty) => {
                let mut position = String::from_str("parameter '");
                position.append(ps[k].name.name.as_str());
                position.append("' of ");
                position.append(owner);
                report_private_types_in(scopes, ty, position.as_str(), ps[k].span, params, out);
            },
            None => {
                assert(error_views(out@) =~= error_views(out@) + Seq::<ErrorView>::empty());
            },
        }
        k += 1;
    }
    assert(ps@.take(k as int) =~= ps@);
}

impl SemanticAnalyzer {
    /// Report each private type named in a public signature of `file`.
    pub fn validate_private_in_public(&mut self, file: &File)
        ensures
            final(self).same_state(*old(self)),
            error_views(final(self).errors@) == error_views(old(self).errors@) + file_private_reports(old(self).symbols, file.statements@),
    {
        let mut out: Vec<CompilerError> = Vec::new();
        let mut scopes: Vec<&SymbolTable> = Vec::new();
        scopes.push(&self.symbols);
        assert(tables(scopes@) =~= seq![self.symbols]);
        let mut k: usize = 0;
        while k < file.statements.len()
            invariant
                k <= file.statements@.len(),
                tables(scopes@) == seq![self.symbols],
                scopes@.len() == 1,
                error_views(out@) == file_private_reports(self.symbols, file.statements@.take(k as int)),
            decreases file.statements.len() - k,
        {
            proof {
                assert(file.statements@.take(k + 1).drop_last() =~= file.statements@.take(k as int));
                assert(file.statements@.take(k + 1).last() == file.statements@[k as int]);
            }
            match &file.statements[k] {
                Statement::Definition(def) => check_definition_for_private_types(&scopes, def, &mut out),
                Statement::Let(binding) => {
                    match (&binding.visibility, &binding.type_annotation) {
                        (Visibility::Public, Some(ty)) => {
                            let params: Vec<String> = Vec::new();
                            assert(views(params@) =~= Seq::<Seq<char>>::empty());
                            report_private_types_in(&scopes, ty, "a public let", binding.span, &params, &mut out);
                        },
                        _ => {
                            assert(error_views(out@) =~= error_views(out@) + Seq::<ErrorView>::empty());
                        },
                    }
                },
                Statement::Use(_) => {
                    assert(error_views(out@) =~= error_views(out@) + Seq::<ErrorView>::empty());
                },
            }
            k += 1;
        }
        assert(file.statements@.take(k as int) =~= file.statements@);
        self.report_all(out);
    }
}

} // verus!

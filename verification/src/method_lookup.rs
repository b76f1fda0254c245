//! Whether a type has a method of a given name.
//!
//! A method is found in an `impl` block of the type in the file under
//! check, in a trait the type implements, in the traits a trait is
//! composed of, in the bounds of a type parameter, in an imported
//! module, or, for a qualified name `m::Foo`, in the nested module that
//! the path names. `Foo<T>?` is looked up as `Foo`.

use vstd::prelude::*;
use vstd::string::{StrSliceExecFns, StringExecFns};
use crate::analyzer::{find_names, lookup_names, SemanticAnalyzer};
use crate::ast::{Definition, File, FnDef, GenericConstraint, GenericParam, PrimitiveType, Statement, Type};
use crate::modules::trait_named;
use crate::qualified_types::{
    find_nested_module_definitions, first_separator, impl_has_method, impl_method_in_definitions, module_path_defs,
    split_parts, split_qualified_type, first_module_statement,
};
use crate::sem_type::primitive_name;
use crate::symbols::{extends, lemma_unseen_extends, lemma_unseen_push, table_names, unseen, SymbolTable, TraitInfo};
use crate::text::{list_contains, str_equals, views};

verus! {

broadcast use vstd::std_specs::vec::group_vec_axioms;

/// `s` without the `?` marks at its end.
pub open spec fn without_optional_marks(s: Seq<char>) -> Seq<char>
    decreases s.len(),
{
    if s.len() > 0 && s.last() == '?' { without_optional_marks(s.drop_last()) } else { s }
}

/// The position of the first `c` in `s`.
pub open spec fn first_char(s: Seq<char>, c: char) -> Option<int>
    decreases s.len(),
{
    if s.len() == 0 {
        None
    } else if s[0] == c {
        Some(0)
    } else {
        match first_char(s.drop_first(), c) {
            Some(i) => Some(i + 1),
            None => None,
        }
    }
}

/// The name under which the methods of the type written `t` are
/// declared: without trailing `?` marks and without type arguments.
pub open spec fn lookup_name_of(t: Seq<char>) -> Seq<char> {
    let base = without_optional_marks(t);
    match first_char(base, '<') {
        Some(i) => base.take(i),
        None => base,
    }
}

/// `n` is the name of a primitive type.
pub open spec fn primitive_named(n: Seq<char>) -> bool {
    exists|p: PrimitiveType| primitive_name(p) == n
}

/// The first method of `fs` called `m`.
pub open spec fn first_fn_named(fs: Seq<FnDef>, m: Seq<char>) -> Option<FnDef>
    decreases fs.len(),
{
    if fs.len() == 0 {
        None
    } else if fs[0].name.name@ == m {
        Some(fs[0])
    } else {
        first_fn_named(fs.drop_first(), m)
    }
}

/// The first method called `m` of an `impl` block of `ty` among the
/// statements, in source order.
pub open spec fn first_method_def(stmts: Seq<Statement>, ty: Seq<char>, m: Seq<char>) -> Option<FnDef>
    decreases stmts.len(),
{
    if stmts.len() == 0 {
        None
    } else {
        let here = match stmts[0] {
            Statement::Definition(d) => match *d {
                Definition::Impl(i) => if i.name.name@ == ty { first_fn_named(i.functions@, m) } else { None },
                _ => None,
            },
            _ => None,
        };
        match here {
            Some(f) => Some(f),
            None => first_method_def(stmts.drop_first(), ty, m),
        }
    }
}

/// Some `impl` block of `ty` among the statements has a method `m`.
pub open spec fn has_impl_method(stmts: Seq<Statement>, ty: Seq<char>, m: Seq<char>) -> bool {
    first_method_def(stmts, ty, m) is Some
}

/// The search of the trait `name` and the traits it is composed of for a
/// method `m`, with `v` the traits already visited: a visited trait is
/// skipped, and each trait the search reaches is visited once, whether
/// it is found or not. The result is whether `m` was found, with the
/// visited traits after the search.
pub open spec fn chain_search(st: SymbolTable, name: Seq<char>, m: Seq<char>, v: Seq<Seq<char>>) -> (bool, Seq<Seq<char>>)
    decreases unseen(st, v), 0nat, 0nat,
{
    if v.contains(name) {
        (false, v)
    } else {
        match trait_named(st.traits@, name) {
            None => (false, v.push(name)),
            Some(t) => if views(t.methods@).contains(m) {
                (true, v.push(name))
            } else {
                proof {
                    lemma_trait_named_in_table(st, name);
                    lemma_unseen_push(st, v, name);
                }
                parents_search(st, views(t.composed_traits@), m, v.push(name))
            },
        }
    }
}

/// The search of the traits `ps`, in order, until one finds `m`.
pub open spec fn parents_search(st: SymbolTable, ps: Seq<Seq<char>>, m: Seq<char>, v: Seq<Seq<char>>) -> (bool, Seq<Seq<char>>)
    decreases unseen(st, v), 1nat, ps.len(),
{
    if ps.len() == 0 {
        (false, v)
    } else {
        let r = chain_search(st, ps[0], m, v);
        if r.0 {
            r
        } else if extends(r.1, v) {
            proof { lemma_unseen_extends(st, v, r.1); }
            parents_search(st, ps.drop_first(), m, r.1)
        } else {
            r
        }
    }
}

/// A search visits what was visited before it, and the trait it starts
/// at; one that does not find `m` visits no trait that declares `m`.
pub proof fn lemma_chain_search(st: SymbolTable, name: Seq<char>, m: Seq<char>, v: Seq<Seq<char>>)
    ensures
        extends(chain_search(st, name, m, v).1, v),
        chain_search(st, name, m, v).1.contains(name),
        !chain_search(st, name, m, v).0 ==> forall|x: Seq<char>| #[trigger] chain_search(st, name, m, v).1.contains(x) && !v.contains(x)
            ==> !trait_declares(st, x, m),
    decreases unseen(st, v), 0nat, 0nat,
{
    if v.contains(name) {
        assert(v.take(v.len() as int) =~= v);
    } else {
        let v1 = v.push(name);
        assert(v1.take(v.len() as int) =~= v);
        assert(v1[v.len() as int] == name);
        match trait_named(st.traits@, name) {
            None => {
                assert forall|x: Seq<char>| #[trigger] v1.contains(x) && !v.contains(x) implies !trait_declares(st, x, m) by {
                    let i = choose|i: int| 0 <= i < v1.len() && v1[i] == x;
                    if i < v.len() { assert(v[i] == x); }
                }
            },
            Some(t) => {
                if !views(t.methods@).contains(m) {
                    lemma_trait_named_in_table(st, name);
                    lemma_unseen_push(st, v, name);
                    lemma_parents_search(st, views(t.composed_traits@), m, v1);
                    let r = parents_search(st, views(t.composed_traits@), m, v1);
                    lemma_extends_trans(r.1, v1, v);
                    assert(r.1.take(v1.len() as int)[v.len() as int] == name);
                    if !r.0 {
                        assert forall|x: Seq<char>| #[trigger] r.1.contains(x) && !v.contains(x) implies !trait_declares(st, x, m) by {
                            if x == name {
                            } else if v1.contains(x) {
                                let i = choose|i: int| 0 <= i < v1.len() && v1[i] == x;
                                if i < v.len() { assert(v[i] == x); }
                            }
                        }
                    }
                }
            },
        }
    }
}

pub proof fn lemma_parents_search(st: SymbolTable, ps: Seq<Seq<char>>, m: Seq<char>, v: Seq<Seq<char>>)
    ensures
        extends(parents_search(st, ps, m, v).1, v),
        !parents_search(st, ps, m, v).0 ==> forall|x: Seq<char>| #[trigger] parents_search(st, ps, m, v).1.contains(x) && !v.contains(x)
            ==> !trait_declares(st, x, m),
    decreases unseen(st, v), 1nat, ps.len(),
{
    if ps.len() == 0 {
        assert(v.take(v.len() as int) =~= v);
    } else {
        lemma_chain_search(st, ps[0], m, v);
        let r = chain_search(st, ps[0], m, v);
        if !r.0 {
            lemma_unseen_extends(st, v, r.1);
            lemma_parents_search(st, ps.drop_first(), m, r.1);
            let r2 = parents_search(st, ps.drop_first(), m, r.1);
            lemma_extends_trans(r2.1, r.1, v);
            if !r2.0 {
                assert forall|x: Seq<char>| #[trigger] r2.1.contains(x) && !v.contains(x) implies !trait_declares(st, x, m) by {
                    if !r.1.contains(x) {
                    } else {
                        assert(r.1.contains(x) && !v.contains(x));
                    }
                }
            }
        }
    }
}

/// Beginning with a list that begins with another.
pub proof fn lemma_extends_trans(a: Seq<Seq<char>>, b: Seq<Seq<char>>, c: Seq<Seq<char>>)
    requires
        extends(a, b),
        extends(b, c),
    ensures
        extends(a, c),
{
    assert(a.take(c.len() as int) =~= b.take(c.len() as int));
}

/// A trait found by name is one of the table's names.
pub proof fn lemma_trait_named_in_table(st: SymbolTable, name: Seq<char>)
    requires
        trait_named(st.traits@, name) is Some,
    ensures
        table_names(st).contains(name),
{
    let names = st.traits@.map_values(|t: TraitInfo| t.name@);
    let i = lemma_trait_named_index(st.traits@, name);
    assert(names[i] == name);
}

proof fn lemma_trait_named_index(ts: Seq<TraitInfo>, name: Seq<char>) -> (i: int)
    requires
        trait_named(ts, name) is Some,
    ensures
        0 <= i < ts.len(),
        ts[i].name@ == name,
        trait_named(ts, name) == Some(ts[i]),
    decreases ts.len(),
{
    if ts[0].name@ == name {
        0
    } else {
        let j = lemma_trait_named_index(ts.drop_first(), name);
        j + 1
    }
}

/// The trait `t` of the table declares `m` itself.
pub open spec fn trait_declares(st: SymbolTable, t: Seq<char>, m: Seq<char>) -> bool {
    trait_named(st.traits@, t) matches Some(info) && views(info.methods@).contains(m)
}

/// Some trait of `traits` declares `m` itself.
pub open spec fn some_trait_declares(st: SymbolTable, traits: Seq<Seq<char>>, m: Seq<char>) -> bool {
    exists|k: int| 0 <= k < traits.len() && trait_declares(st, #[trigger] traits[k], m)
}

/// The traits of the pairs `(type, trait)` whose type is `ty`.
pub open spec fn traits_of_pairs(pairs: Seq<(String, String)>, ty: Seq<char>) -> Seq<Seq<char>>
    decreases pairs.len(),
{
    if pairs.len() == 0 {
        seq![]
    } else {
        traits_of_pairs(pairs.drop_last(), ty) + if pairs.last().0@ == ty {
            seq![pairs.last().1@]
        } else {
            Seq::<Seq<char>>::empty()
        }
    }
}

/// A bound names a trait of the table that declares `m`.
pub open spec fn bound_declares(st: SymbolTable, c: GenericConstraint, m: Seq<char>) -> bool {
    match c {
        GenericConstraint::Trait { name, .. } => trait_declares(st, name.name@, m),
    }
}

/// A generic parameter called `name` among `gs` has a bound that
/// declares `m`.
pub open spec fn generics_provide(st: SymbolTable, gs: Seq<GenericParam>, name: Seq<char>, m: Seq<char>) -> bool {
    exists|i: int| 0 <= i < gs.len() && #[trigger] param_provides(st, gs[i], name, m)
}

pub open spec fn param_provides(st: SymbolTable, g: GenericParam, name: Seq<char>, m: Seq<char>) -> bool {
    g.name.name@ == name && exists|j: int| 0 <= j < g.constraints@.len() && bound_declares(st, #[trigger] g.constraints@[j], m)
}

/// The generic parameters of a struct, an impl, an enum or a trait.
pub open spec fn declared_generics(d: Definition) -> Option<Seq<GenericParam>> {
    match d {
        Definition::Struct(s) => Some(s.generics@),
        Definition::Impl(i) => Some(i.generics@),
        Definition::Enum(e) => Some(e.generics@),
        Definition::Trait(t) => Some(t.generics@),
        _ => None,
    }
}

/// A top-level statement declares a type parameter `name` bounded by a
/// trait that declares `m`.
pub open spec fn statement_provides(st: SymbolTable, s: Statement, name: Seq<char>, m: Seq<char>) -> bool {
    s matches Statement::Definition(d) && declared_generics(*d) matches Some(gs) && generics_provide(st, gs, name, m)
}

pub open spec fn type_param_method(st: SymbolTable, stmts: Seq<Statement>, name: Seq<char>, m: Seq<char>) -> bool {
    exists|k: int| 0 <= k < stmts.len() && #[trigger] statement_provides(st, stmts[k], name, m)
}

/// Some file of `files` has an `impl` block of `ty` with a method `m`.
pub open spec fn files_have_impl_method(files: Seq<File>, ty: Seq<char>, m: Seq<char>) -> bool {
    exists|k: int| 0 <= k < files.len() && has_impl_method((#[trigger] files[k]).statements@, ty, m)
}

/// The definitions of the nested module that the path `segs` names in
/// the statements of a file.
pub open spec fn nested_defs(stmts: Seq<Statement>, segs: Seq<Seq<char>>) -> Option<Seq<Definition>> {
    if segs.len() == 0 {
        None
    } else {
        match first_module_statement(stmts, segs[0]) {
            Some(i) => match stmts[i] {
                Statement::Definition(d) => match *d {
                    Definition::Module(m) => if segs.len() == 1 {
                        Some(m.definitions@)
                    } else {
                        module_path_defs(m.definitions@, segs.drop_first())
                    },
                    _ => None,
                },
                _ => None,
            },
            None => None,
        }
    }
}

/// The definitions `defs` hold an `impl` block of `bare` with a method `m`.
pub open spec fn defs_have_impl_method(defs: Seq<Definition>, bare: Seq<char>, m: Seq<char>) -> bool {
    exists|i: int| 0 <= i < defs.len() && impl_has_method(#[trigger] defs[i], bare, m)
}

/// What a qualified name `segs::bare` finds in the statements of one
/// file, when the file is an imported module (`imported`): the nested
/// module's impls, and for a single segment also the file's own.
pub open spec fn qualified_in(stmts: Seq<Statement>, segs: Seq<Seq<char>>, bare: Seq<char>, m: Seq<char>, imported: bool) -> bool {
    (nested_defs(stmts, segs) matches Some(defs) && defs_have_impl_method(defs, bare, m))
        || (imported && segs.len() == 1 && has_impl_method(stmts, bare, m))
}

/// What a qualified type name finds, in the file and in the imports.
pub open spec fn qualified_method(file: File, imports: Seq<File>, name: Seq<char>, m: Seq<char>) -> bool {
    first_separator(name) is Some && {
        let parts = split_parts(name);
        let segs = parts.drop_last();
        let bare = parts.last();
        qualified_in(file.statements@, segs, bare, m, false)
            || exists|k: int| 0 <= k < imports.len() && qualified_in((#[trigger] imports[k]).statements@, segs, bare, m, true)
    }
}

/// The type written `written` has a method `m`.
pub open spec fn method_exists(a: SemanticAnalyzer, file: File, written: Seq<char>, m: Seq<char>) -> bool {
    let st = a.symbols;
    let n = lookup_name_of(written);
    ||| (st.has_trait(n) && chain_search(st, n, m, seq![]).0)
    ||| (st.has_struct(n) && (has_impl_method(file.statements@, n, m) || some_trait_declares(st, traits_of_pairs(st.trait_impls@, n), m)))
    ||| (primitive_named(n) && has_impl_method(file.statements@, n, m))
    ||| (st.has_enum(n) && has_impl_method(file.statements@, n, m))
    ||| (lookup_names(a.type_param_bounds@, n) matches Some(bounds) && some_trait_declares(st, bounds, m))
    ||| type_param_method(st, file.statements@, n, m)
    ||| files_have_impl_method(a.module_files@, n, m)
    ||| qualified_method(file, a.module_files@, n, m)
}

/// The definition is `struct owner` with a closure-typed field `field`.
pub open spec fn struct_closure_field(d: Definition, owner: Seq<char>, field: Seq<char>) -> bool {
    d matches Definition::Struct(s) && s.name.name@ == owner && exists|j: int| 0 <= j < s.fields@.len()
        && (#[trigger] s.fields@[j]).name.name@ == field && s.fields@[j].ty is Closure
}

pub open spec fn statement_closure_field(st: Statement, owner: Seq<char>, field: Seq<char>) -> bool {
    st matches Statement::Definition(d) && struct_closure_field(*d, owner, field)
}

/// A top-level struct called `owner` among `stmts` has a closure-typed
/// field `field`.
pub open spec fn statements_closure_field(stmts: Seq<Statement>, owner: Seq<char>, field: Seq<char>) -> bool {
    exists|k: int| 0 <= k < stmts.len() && #[trigger] statement_closure_field(stmts[k], owner, field)
}

/// The struct that the type written `written` names, in the file or in an
/// imported module, has a closure-typed field `field`.
pub open spec fn field_is_closure(a: SemanticAnalyzer, file: File, written: Seq<char>, field: Seq<char>) -> bool {
    let n = lookup_name_of(written);
    statements_closure_field(file.statements@, n, field)
        || exists|k: int| 0 <= k < a.module_files@.len() && statements_closure_field((#[trigger] a.module_files@[k]).statements@, n, field)
}

pub proof fn lemma_some_trait_push(st: SymbolTable, a: Seq<Seq<char>>, x: Seq<char>, m: Seq<char>)
    ensures
        some_trait_declares(st, a.push(x), m) <==> (some_trait_declares(st, a, m) || trait_declares(st, x, m)),
{
    if some_trait_declares(st, a, m) {
        let k = choose|k: int| 0 <= k < a.len() && trait_declares(st, #[trigger] a[k], m);
        assert(a.push(x)[k] == a[k]);
    }
    if trait_declares(st, x, m) {
        assert(a.push(x)[a.len() as int] == x);
    }
    if some_trait_declares(st, a.push(x), m) {
        let k = choose|k: int| 0 <= k < a.push(x).len() && trait_declares(st, #[trigger] a.push(x)[k], m);
        if k < a.len() {
            assert(a[k] == a.push(x)[k]);
        }
    }
}

/// The methods of `fs` called `m`, in order.
pub open spec fn fns_named(fs: Seq<FnDef>, m: Seq<char>) -> Seq<FnDef>
    decreases fs.len(),
{
    if fs.len() == 0 {
        seq![]
    } else {
        fns_named(fs.drop_last(), m) + if fs.last().name.name@ == m { seq![fs.last()] } else { Seq::<FnDef>::empty() }
    }
}

/// Each method called `m` of an `impl` block of `owner` in `d` and in the
/// modules nested inside it, with the impl's generic parameters.
pub open spec fn overloads_in_def(d: Definition, owner: Seq<char>, m: Seq<char>) -> Seq<(FnDef, Seq<GenericParam>)>
    decreases d,
{
    match d {
        Definition::Impl(i) => if i.name.name@ == owner {
            fns_named(i.functions@, m).map_values(|f: FnDef| (f, i.generics@))
        } else {
            seq![]
        },
        Definition::Module(md) => overloads_in_defs(md.definitions@, owner, m),
        _ => seq![],
    }
}

pub open spec fn overloads_in_defs(defs: Seq<Definition>, owner: Seq<char>, m: Seq<char>) -> Seq<(FnDef, Seq<GenericParam>)>
    decreases defs,
{
    if defs.len() == 0 {
        seq![]
    } else {
        overloads_in_defs(defs.drop_last(), owner, m) + overloads_in_def(defs.last(), owner, m)
    }
}

/// Each method called `m` of an `impl` block of `owner` in the
/// statements, at any depth of modules, in source order.
pub open spec fn method_overloads(stmts: Seq<Statement>, owner: Seq<char>, m: Seq<char>) -> Seq<(FnDef, Seq<GenericParam>)>
    decreases stmts.len(),
{
    if stmts.len() == 0 {
        seq![]
    } else {
        method_overloads(stmts.drop_last(), owner, m) + match stmts.last() {
            Statement::Definition(d) => overloads_in_def(*d, owner, m),
            _ => Seq::<(FnDef, Seq<GenericParam>)>::empty(),
        }
    }
}

/// The owned values a list of found overloads points at.
pub open spec fn overload_views(s: Seq<(&FnDef, &Vec<GenericParam>)>) -> Seq<(FnDef, Seq<GenericParam>)> {
    s.map_values(|p: (&FnDef, &Vec<GenericParam>)| (*p.0, p.1@))
}

/// `s[..i]` holds no `c` and `s[i]` is `c`, or `i` is the end.
proof fn lemma_first_char(s: Seq<char>, c: char, i: int)
    requires
        0 <= i <= s.len(),
        forall|j: int| 0 <= j < i ==> s[j] != c,
        i == s.len() || s[i] == c,
    ensures
        first_char(s, c) == if i < s.len() { Some(i) } else { None::<int> },
    decreases s.len(),
{
    if s.len() > 0 && i > 0 {
        assert forall|j: int| 0 <= j < i - 1 implies s.drop_first()[j] != c by {
            assert(s.drop_first()[j] == s[j + 1]);
        }
        lemma_first_char(s.drop_first(), c, i - 1);
    }
}

/// The name under which the methods of `written` are declared.
pub fn method_lookup_name(written: &str) -> (r: &str)
    ensures
        r@ == lookup_name_of(written@),
{
    let n = written.unicode_len();
    let mut end: usize = n;
    assert(written@.take(n as int) =~= written@);
    while end > 0 && written.get_char(end - 1) == '?'
        invariant
            end <= n,
            n == written@.len(),
            without_optional_marks(written@) == without_optional_marks(written@.take(end as int)),
        decreases end,
    {
        proof {
            let t = written@.take(end as int);
            assert(t.drop_last() =~= written@.take(end - 1));
        }
        end -= 1;
    }
    let ghost base = written@.take(end as int);
    assert(without_optional_marks(base) == base);
    let mut i: usize = 0;
    while i < end && written.get_char(i) != '<'
        invariant
            i <= end <= n,
            n == written@.len(),
            base == written@.take(end as int),
            forall|j: int| 0 <= j < i ==> base[j] != '<',
        decreases end - i,
    {
        i += 1;
    }
    proof {
        lemma_first_char(base, '<', i as int);
    }
    let r = written.substring_char(0, i);
    assert(r@ =~= if (i as int) < base.len() { base.take(i as int) } else { base });
    r
}

/// Whether `n` names a primitive type.
pub fn is_primitive_name(n: &str) -> (r: bool)
    ensures
        r == primitive_named(n@),
{
    let r = str_equals(n, "String") || str_equals(n, "I32") || str_equals(n, "I64") || str_equals(n, "F32")
        || str_equals(n, "F64") || str_equals(n, "Boolean") || str_equals(n, "Never");
    proof {
        if r {
            if n@ == "String"@ {
                assert(primitive_name(PrimitiveType::String) == n@);
            } else if n@ == "I32"@ {
                assert(primitive_name(PrimitiveType::I32) == n@);
            } else if n@ == "I64"@ {
                assert(primitive_name(PrimitiveType::I64) == n@);
            } else if n@ == "F32"@ {
                assert(primitive_name(PrimitiveType::F32) == n@);
            } else if n@ == "F64"@ {
                assert(primitive_name(PrimitiveType::F64) == n@);
            } else if n@ == "Boolean"@ {
                assert(primitive_name(PrimitiveType::Boolean) == n@);
            } else {
                assert(primitive_name(PrimitiveType::Never) == n@);
            }
        } else {
            assert forall|p: PrimitiveType| primitive_name(p) != n@ by {
                match p {
                    PrimitiveType::String => {},
                    PrimitiveType::I32 => {},
                    PrimitiveType::I64 => {},
                    PrimitiveType::F32 => {},
                    PrimitiveType::F64 => {},
                    PrimitiveType::Boolean => {},
                    PrimitiveType::Never => {},
                }
            }
        }
    }
    r
}

/// The first method of `fs` called `m`.
fn first_fn<'a>(fs: &'a Vec<FnDef>, m: &str) -> (r: Option<&'a FnDef>)
    ensures
        r is Some <==> first_fn_named(fs@, m@) is Some,
        r matches Some(f) ==> first_fn_named(fs@, m@) == Some(*f),
{
    let mut j: usize = 0;
    assert(fs@.skip(0) =~= fs@);
    while j < fs.len()
        invariant
            j <= fs@.len(),
            first_fn_named(fs@, m@) == first_fn_named(fs@.skip(j as int), m@),
        decreases fs.len() - j,
    {
        assert(fs@.skip(j as int)[0] == fs@[j as int]);
        if str_equals(fs[j].name.name.as_str(), m) {
            return Some(&fs[j]);
        }
        assert(fs@.skip(j as int).drop_first() =~= fs@.skip(j + 1));
        j += 1;
    }
    None
}

/// The first method called `m` of an `impl` block of `owner` among
/// `stmts`.
fn first_method_in<'a>(stmts: &'a Vec<Statement>, owner: &str, m: &str) -> (r: Option<&'a FnDef>)
    ensures
        r is Some <==> first_method_def(stmts@, owner@, m@) is Some,
        r matches Some(f) ==> first_method_def(stmts@, owner@, m@) == Some(*f),
{
    let mut k: usize = 0;
    assert(stmts@.skip(0) =~= stmts@);
    while k < stmts.len()
        invariant
            k <= stmts@.len(),
            first_method_def(stmts@, owner@, m@) == first_method_def(stmts@.skip(k as int), owner@, m@),
        decreases stmts.len() - k,
    {
        assert(stmts@.skip(k as int)[0] == stmts@[k as int]);
        assert(stmts@.skip(k as int).drop_first() =~= stmts@.skip(k + 1));
        if let Statement::Definition(def) = &stmts[k] {
            if let Definition::Impl(impl_def) = &**def {
                if str_equals(impl_def.name.name.as_str(), owner) {
                    let found = first_fn(&impl_def.functions, m);
                    if found.is_some() {
                        return found;
                    }
                }
            }
        }
        k += 1;
    }
    None
}

/// Whether some `impl` block of `owner` among `stmts` has a method `m`.
fn impl_method_in_statements(stmts: &Vec<Statement>, owner: &str, m: &str) -> (r: bool)
    ensures
        r == has_impl_method(stmts@, owner@, m@),
{
    first_method_in(stmts, owner, m).is_some()
}

impl SemanticAnalyzer {
    /// The first method called `method` of an `impl` block of `owner` in
    /// `file`, in source order.
    pub fn find_method_fn_def<'f>(owner: &str, method: &str, file: &'f File) -> (r: Option<&'f FnDef>)
        ensures
            r is Some <==> first_method_def(file.statements@, owner@, method@) is Some,
            r matches Some(f) ==> first_method_def(file.statements@, owner@, method@) == Some(*f),
    {
        first_method_in(&file.statements, owner, method)
    }

    /// Whether the trait `trait_name`, or a trait it is composed of,
    /// declares `method`. `visited` holds the traits visited already,
    /// which are skipped; each trait the search reaches is added to it,
    /// once, and stays there, so cyclic composition ends.
    pub fn trait_chain_has_method(&self, trait_name: &str, method: &str, visited: &mut Vec<String>) -> (r: bool)
        ensures
            r == chain_search(self.symbols, trait_name@, method@, views(old(visited)@)).0,
            views(final(visited)@) == chain_search(self.symbols, trait_name@, method@, views(old(visited)@)).1,
            extends(views(final(visited)@), views(old(visited)@)),
            views(final(visited)@).contains(trait_name@),
        decreases unseen(self.symbols, views(old(visited)@)),
    {
        let ghost seen = views(visited@);
        proof { lemma_chain_search(self.symbols, trait_name@, method@, seen); }
        if list_contains(visited, trait_name) {
            return false;
        }
        let owned = String::from_str(trait_name);
        let ghost entry = owned;
        let ghost v0 = visited@;
        visited.push(owned);
        proof { crate::text::lemma_views_push(v0, entry); }
        let ghost pushed = views(visited@);
        assert(pushed == seen.push(trait_name@));
        let info = match self.symbols.trait_index(trait_name) {
            Some(i) => {
                proof { lemma_trait_index_named(self.symbols.traits@, trait_name@, i as int); }
                &self.symbols.traits[i]
            },
            None => {
                proof { lemma_trait_named_absent(self.symbols.traits@, trait_name@); }
                return false;
            },
        };
        if list_contains(&info.methods, method) {
            return true;
        }
        proof {
            lemma_trait_named_in_table(self.symbols, trait_name@);
            lemma_unseen_push(self.symbols, seen, trait_name@);
        }
        let parents = &info.composed_traits;
        let ghost ps = views(parents@);
        let mut k: usize = 0;
        assert(ps.skip(0) =~= ps);
        assert(pushed.take(pushed.len() as int) =~= pushed);
        assert(pushed.take(seen.len() as int) =~= seen);
        while k < parents.len()
            invariant
                k <= parents@.len(),
                ps == views(parents@),
                pushed == seen.push(trait_name@),
                unseen(self.symbols, pushed) < unseen(self.symbols, seen),
                extends(views(visited@), pushed),
                parents_search(self.symbols, ps, method@, pushed) == parents_search(self.symbols, ps.skip(k as int), method@, views(visited@)),
            decreases parents.len() - k,
        {
            let ghost before = views(visited@);
            proof {
                lemma_unseen_extends(self.symbols, pushed, before);
                assert(ps.skip(k as int)[0] == parents@[k as int]@);
                assert(ps.skip(k as int).drop_first() =~= ps.skip(k + 1));
            }
            if self.trait_chain_has_method(parents[k].as_str(), method, visited) {
                proof { lemma_extends_trans(views(visited@), before, pushed); }
                return true;
            }
            proof { lemma_extends_trans(views(visited@), before, pushed); }
            k += 1;
        }
        proof {
            assert(ps.skip(k as int).len() == 0);
            lemma_extends_trans(views(visited@), pushed, seen);
            assert(views(visited@).take(pushed.len() as int)[seen.len() as int] == trait_name@);
        }
        false
    }
}

impl SemanticAnalyzer {
    /// Whether the trait `t` of the table declares `method` itself.
    fn trait_declares_method(&self, t: &str, method: &str) -> (r: bool)
        ensures
            r == trait_declares(self.symbols, t@, method@),
    {
        match self.symbols.trait_index(t) {
            Some(i) => {
                proof { lemma_trait_index_named(self.symbols.traits@, t@, i as int); }
                list_contains(&self.symbols.traits[i].methods, method)
            },
            None => {
                proof { lemma_trait_named_absent(self.symbols.traits@, t@); }
                false
            },
        }
    }

    /// Whether a parameter called `name` among `generics` has a bound
    /// that declares `method`.
    fn generics_provide_method(&self, generics: &Vec<GenericParam>, name: &str, method: &str) -> (r: bool)
        ensures
            r == generics_provide(self.symbols, generics@, name@, method@),
    {
        let mut i: usize = 0;
        while i < generics.len()
            invariant
                i <= generics@.len(),
                forall|j: int| 0 <= j < i ==> !param_provides(self.symbols, #[trigger] generics@[j], name@, method@),
            decreases generics.len() - i,
        {
            let g = &generics[i];
            if str_equals(g.name.name.as_str(), name) {
                let mut c: usize = 0;
                while c < g.constraints.len()
                    invariant
                        c <= g.constraints@.len(),
                        g == generics@[i as int],
                        g.name.name@ == name@,
                        forall|j: int| 0 <= j < c ==> !bound_declares(self.symbols, #[trigger] g.constraints@[j], method@),
                    decreases g.constraints.len() - c,
                {
                    match &g.constraints[c] {
                        GenericConstraint::Trait { name: bound, .. } => {
                            if self.trait_declares_method(bound.name.as_str(), method) {
                                assert(bound_declares(self.symbols, g.constraints@[c as int], method@));
                                assert(param_provides(self.symbols, generics@[i as int], name@, method@));
                                return true;
                            }
                        },
                    }
                    c += 1;
                }
            }
            i += 1;
        }
        false
    }

    /// Whether `name` is a type parameter of a struct, an impl, an enum or
    /// a trait of `file` with a bound that declares `method`.
    pub fn type_param_has_method(&self, name: &str, method: &str, file: &File) -> (r: bool)
        ensures
            r == type_param_method(self.symbols, file.statements@, name@, method@),
    {
        let stmts = &file.statements;
        let mut k: usize = 0;
        while k < stmts.len()
            invariant
                k <= stmts@.len(),
                forall|j: int| 0 <= j < k ==> !statement_provides(self.symbols, #[trigger] stmts@[j], name@, method@),
            decreases stmts.len() - k,
        {
            if let Statement::Definition(def) = &stmts[k] {
                let provides = match &**def {
                    Definition::Struct(d) => self.generics_provide_method(&d.generics, name, method),
                    Definition::Impl(d) => self.generics_provide_method(&d.generics, name, method),
                    Definition::Enum(d) => self.generics_provide_method(&d.generics, name, method),
                    Definition::Trait(d) => self.generics_provide_method(&d.generics, name, method),
                    _ => false,
                };
                if provides {
                    assert(statement_provides(self.symbols, stmts@[k as int], name@, method@));
                    return true;
                }
            }
            k += 1;
        }
        false
    }

    /// Whether the struct that `written` names, in `file` or in an
    /// imported module, has a closure-typed field `field`: a call of
    /// `field` on such a value calls the closure it holds.
    pub fn struct_field_is_closure(&self, written: &str, field: &str, file: &File) -> (r: bool)
        ensures
            r == field_is_closure(*self, *file, written@, field@),
    {
        let owner = method_lookup_name(written);
        if closure_field_in(&file.statements, owner, field) {
            return true;
        }
        let files = &self.module_files;
        let mut k: usize = 0;
        while k < files.len()
            invariant
                k <= files@.len(),
                owner@ == lookup_name_of(written@),
                !statements_closure_field(file.statements@, owner@, field@),
                forall|j: int| 0 <= j < k ==> !statements_closure_field((#[trigger] files@[j]).statements@, owner@, field@),
            decreases files.len() - k,
        {
            if closure_field_in(&files[k].statements, owner, field) {
                return true;
            }
            k += 1;
        }
        false
    }

    /// Whether the type written `written` has a method `method`: in an
    /// `impl` block of the file, in a trait it implements or is, in the
    /// bounds of a type parameter, in an imported module, or in the
    /// nested module that a qualified name names.
    pub fn method_exists_on_type(&self, written: &str, method: &str, file: &File) -> (r: bool)
        ensures
            r == method_exists(*self, *file, written@, method@),
    {
        let lookup = method_lookup_name(written);
        let ghost n = lookup@;
        let ghost st = self.symbols;
        if self.symbols.is_trait(lookup) {
            let mut visited: Vec<String> = Vec::new();
            assert(views(visited@) =~= Seq::<Seq<char>>::empty());
            if self.trait_chain_has_method(lookup, method, &mut visited) {
                return true;
            }
        }
        if self.symbols.struct_index(lookup).is_some() {
            if impl_method_in_statements(&file.statements, lookup, method) {
                return true;
            }
            let pairs = &self.symbols.trait_impls;
            let mut i: usize = 0;
            while i < pairs.len()
                invariant
                    i <= pairs@.len(),
                    pairs@ == st.trait_impls@,
                    !some_trait_declares(st, traits_of_pairs(pairs@.take(i as int), n), method@),
                decreases pairs.len() - i,
            {
                proof {
                    assert(pairs@.take(i + 1).drop_last() =~= pairs@.take(i as int));
                    lemma_some_trait_push(st, traits_of_pairs(pairs@.take(i as int), n), pairs@[i as int].1@, method@);
                    assert(traits_of_pairs(pairs@.take(i as int), n) + Seq::<Seq<char>>::empty() =~= traits_of_pairs(pairs@.take(i as int), n));
                }
                if str_equals(pairs[i].0.as_str(), lookup) && self.trait_declares_method(pairs[i].1.as_str(), method) {
                    proof {
                        assert(pairs@.take(i + 1).last() == pairs@[i as int]);
                        lemma_some_trait_prefix(st, pairs@, n, method@, i + 1);
                    }
                    return true;
                }
                i += 1;
            }
            assert(pairs@.take(i as int) =~= pairs@);
        }
        if is_primitive_name(lookup) && impl_method_in_statements(&file.statements, lookup, method) {
            return true;
        }
        if self.symbols.enum_index(lookup).is_some() && impl_method_in_statements(&file.statements, lookup, method) {
            return true;
        }
        if let Some(bounds) = find_names(&self.type_param_bounds, lookup) {
            let mut i: usize = 0;
            while i < bounds.len()
                invariant
                    i <= bounds@.len(),
                    forall|j: int| 0 <= j < i ==> !trait_declares(st, #[trigger] views(bounds@)[j], method@),
                decreases bounds.len() - i,
            {
                if self.trait_declares_method(bounds[i].as_str(), method) {
                    assert(trait_declares(st, views(bounds@)[i as int], method@));
                    return true;
                }
                i += 1;
            }
        }
        if self.type_param_has_method(lookup, method, file) {
            return true;
        }
        let files = &self.module_files;
        let mut k: usize = 0;
        while k < files.len()
            invariant
                k <= files@.len(),
                forall|j: int| 0 <= j < k ==> !has_impl_method((#[trigger] files@[j]).statements@, n, method@),
            decreases files.len() - k,
        {
            if impl_method_in_statements(&files[k].statements, lookup, method) {
                return true;
            }
            k += 1;
        }
        match split_qualified_type(lookup) {
            Some((segments, bare)) => {
                let ghost segs = split_parts(n).drop_last();
                assert(crate::qualified_types::str_views(segments@) =~= segs);
                if let Some(defs) = find_nested_module_definitions(&file.statements, &segments) {
                    if impl_method_in_definitions(defs, bare, method) {
                        return true;
                    }
                }
                let mut k: usize = 0;
                while k < files.len()
                    invariant
                        k <= files@.len(),
                        crate::qualified_types::str_views(segments@) == segs,
                        segments@.len() == segs.len(),
                        bare@ == split_parts(n).last(),
                        forall|j: int| 0 <= j < k ==> !qualified_in((#[trigger] files@[j]).statements@, segs, bare@, method@, true),
                    decreases files.len() - k,
                {
                    if let Some(defs) = find_nested_module_definitions(&files[k].statements, &segments) {
                        if impl_method_in_definitions(defs, bare, method) {
                            assert(qualified_in(files@[k as int].statements@, segs, bare@, method@, true));
                            return true;
                        }
                    }
                    if segments.len() == 1 && impl_method_in_statements(&files[k].statements, bare, method) {
                        assert(qualified_in(files@[k as int].statements@, segs, bare@, method@, true));
                        return true;
                    }
                    k += 1;
                }
                false
            },
            None => false,
        }
    }
}

/// A prefix of the pairs whose traits declare the method makes all of
/// them do.
proof fn lemma_some_trait_prefix(st: SymbolTable, pairs: Seq<(String, String)>, n: Seq<char>, m: Seq<char>, k: int)
    requires
        0 <= k <= pairs.len(),
        some_trait_declares(st, traits_of_pairs(pairs.take(k), n), m),
    ensures
        some_trait_declares(st, traits_of_pairs(pairs, n), m),
    decreases pairs.len() - k,
{
    if k < pairs.len() {
        assert(pairs.take(k + 1).drop_last() =~= pairs.take(k));
        let before = traits_of_pairs(pairs.take(k), n);
        if pairs[k].0@ == n {
            lemma_some_trait_push(st, before, pairs[k].1@, m);
            assert(pairs.take(k + 1).last() == pairs[k]);
            assert(traits_of_pairs(pairs.take(k + 1), n) =~= before.push(pairs[k].1@));
        } else {
            assert(pairs.take(k + 1).last() == pairs[k]);
            assert(traits_of_pairs(pairs.take(k + 1), n) =~= before);
        }
        lemma_some_trait_prefix(st, pairs, n, m, k + 1);
    } else {
        assert(pairs.take(k) =~= pairs);
    }
}

/// Whether a top-level struct called `owner` among `stmts` has a
/// closure-typed field `field`.
fn closure_field_in(stmts: &Vec<Statement>, owner: &str, field: &str) -> (r: bool)
    ensures
        r == statements_closure_field(stmts@, owner@, field@),
{
    let mut k: usize = 0;
    while k < stmts.len()
        invariant
            k <= stmts@.len(),
            forall|j: int| 0 <= j < k ==> !statement_closure_field(#[trigger] stmts@[j], owner@, field@),
        decreases stmts.len() - k,
    {
        if let Statement::Definition(def) = &stmts[k] {
            if let Definition::Struct(s) = &**def {
                if str_equals(s.name.name.as_str(), owner) {
                    let mut f: usize = 0;
                    while f < s.fields.len()
                        invariant
                            f <= s.fields@.len(),
                            forall|j: int| 0 <= j < f ==> !((#[trigger] s.fields@[j]).name.name@ == field@ && s.fields@[j].ty is Closure),
                        decreases s.fields.len() - f,
                    {
                        let is_closure = match &s.fields[f].ty {
                            Type::Closure { .. } => true,
                            _ => false,
                        };
                        if is_closure && str_equals(s.fields[f].name.name.as_str(), field) {
                            assert(statement_closure_field(stmts@[k as int], owner@, field@));
                            return true;
                        }
                        f += 1;
                    }
                }
            }
        }
        k += 1;
    }
    false
}

/// Append each method called `m` of an `impl` block of `owner` in `def`,
/// and in the modules nested inside it, to `out`.
fn collect_overloads<'f>(def: &'f Definition, owner: &str, m: &str, out: &mut Vec<(&'f FnDef, &'f Vec<GenericParam>)>)
    ensures
        overload_views(final(out)@) == overload_views(old(out)@) + overloads_in_def(*def, owner@, m@),
    decreases *def,
{
    let ghost o0 = overload_views(out@);
    match def {
        Definition::Impl(impl_def) => {
            if str_equals(impl_def.name.name.as_str(), owner) {
                let fs = &impl_def.functions;
                let mut k: usize = 0;
                while k < fs.len()
                    invariant
                        k <= fs@.len(),
                        overload_views(out@) == o0 + fns_named(fs@.take(k as int), m@).map_values(|f: FnDef| (f, impl_def.generics@)),
                    decreases fs.len() - k,
                {
                    proof { assert(fs@.take(k + 1).drop_last() =~= fs@.take(k as int)); }
                    let ghost before = out@;
                    if str_equals(fs[k].name.name.as_str(), m) {
                        out.push((&fs[k], &impl_def.generics));
                        assert(overload_views(out@) =~= overload_views(before).push((fs@[k as int], impl_def.generics@)));
                    }
                    assert(fns_named(fs@.take(k + 1), m@).map_values(|f: FnDef| (f, impl_def.generics@)) =~=
                        fns_named(fs@.take(k as int), m@).map_values(|f: FnDef| (f, impl_def.generics@)) + if fs@[k as int].name.name@ == m@ {
                            seq![(fs@[k as int], impl_def.generics@)]
                        } else {
                            Seq::<(FnDef, Seq<GenericParam>)>::empty()
                        });
                    k += 1;
                }
                assert(fs@.take(k as int) =~= fs@);
            } else {
                assert(overload_views(out@) =~= o0 + Seq::<(FnDef, Seq<GenericParam>)>::empty());
            }
        },
        Definition::Module(md) => {
            let mut k: usize = 0;
            while k < md.definitions.len()
                invariant
                    k <= md.definitions@.len(),
                    overload_views(out@) == o0 + overloads_in_defs(md.definitions@.take(k as int), owner@, m@),
                decreases md.definitions.len() - k,
            {
                proof {
                    assert(md.definitions@.take(k + 1).drop_last() =~= md.definitions@.take(k as int));
                    assert(decreases_to!(*def => def->Module_0.definitions@));
                    assert(decreases_to!(def->Module_0.definitions@ => def->Module_0.definitions@[k as int]));
                }
                collect_overloads(&md.definitions[k], owner, m, out);
                k += 1;
            }
            assert(md.definitions@.take(k as int) =~= md.definitions@);
        },
        _ => {
            assert(overload_views(out@) =~= o0 + Seq::<(FnDef, Seq<GenericParam>)>::empty());
        },
    }
}

impl SemanticAnalyzer {
    /// Every method called `method` of an `impl` block of `owner` in
    /// `file`, at any depth of inline modules, in source order, each with
    /// the generic parameters of its impl. A type may declare two methods
    /// of one name that take different arguments.
    pub fn find_method_overloads<'f>(owner: &str, method: &str, file: &'f File) -> (r: Vec<(&'f FnDef, &'f Vec<GenericParam>)>)
        ensures
            overload_views(r@) == method_overloads(file.statements@, owner@, method@),
    {
        let mut out: Vec<(&'f FnDef, &'f Vec<GenericParam>)> = Vec::new();
        let stmts = &file.statements;
        let mut k: usize = 0;
        assert(overload_views(out@) =~= Seq::<(FnDef, Seq<GenericParam>)>::empty());
        while k < stmts.len()
            invariant
                k <= stmts@.len(),
                overload_views(out@) == method_overloads(stmts@.take(k as int), owner@, method@),
            decreases stmts.len() - k,
        {
            proof { assert(stmts@.take(k + 1).drop_last() =~= stmts@.take(k as int)); }
            match &stmts[k] {
                Statement::Definition(def) => collect_overloads(&**def, owner, method, &mut out),
                _ => {
                    assert(overload_views(out@) =~= overload_views(out@) + Seq::<(FnDef, Seq<GenericParam>)>::empty());
                },
            }
            k += 1;
        }
        assert(stmts@.take(k as int) =~= stmts@);
        out
    }
}

/// A prefix that has the method makes the whole list have it.
/// The first index of a trait name is where `trait_named` finds it.
proof fn lemma_trait_index_named(ts: Seq<TraitInfo>, name: Seq<char>, i: int)
    requires
        0 <= i < ts.len(),
        ts[i].name@ == name,
        forall|j: int| 0 <= j < i ==> ts[j].name@ != name,
    ensures
        trait_named(ts, name) == Some(ts[i]),
    decreases i,
{
    if i > 0 {
        lemma_trait_index_named(ts.drop_first(), name, i - 1);
    }
}

/// No trait of that name: `trait_named` finds none.
proof fn lemma_trait_named_absent(ts: Seq<TraitInfo>, name: Seq<char>)
    requires
        forall|j: int| 0 <= j < ts.len() ==> ts[j].name@ != name,
    ensures
        trait_named(ts, name) is None,
    decreases ts.len(),
{
    if ts.len() > 0 {
        lemma_trait_named_absent(ts.drop_first(), name);
    }
}

} // verus!

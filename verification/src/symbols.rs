//! The module-level names that the passes look up: structs, enums and
//! traits, each with its visibility and what the checks read of it.

use vstd::prelude::*;
use crate::ast::{Expr, FieldDef, GenericParam, Ident, ParamConvention, Span, Type, Visibility};
use crate::text::str_equals;
use crate::sem_type::SemType;
use vstd::string::StringExecFns;

verus! {

pub struct StructInfo {
    pub name: String,
    pub visibility: Visibility,
    /// The names of the struct's type parameters.
    pub generics: Vec<String>,
    pub fields: Vec<FieldDef>,
}

/// A variant of an enum: its name, how many payload fields it has, and
/// where it is declared.
pub struct VariantInfo {
    pub name: String,
    pub arity: usize,
    pub span: Span,
}

pub struct EnumInfo {
    pub name: String,
    pub visibility: Visibility,
    pub generics: Vec<String>,
    /// The variants, in declaration order.
    pub variants: Vec<VariantInfo>,
    /// The payload fields of every variant, variant after variant.
    pub variant_fields: Vec<FieldDef>,
}

pub struct TraitInfo {
    pub name: String,
    pub visibility: Visibility,
    /// The names of the methods the trait declares.
    pub methods: Vec<String>,
    /// The traits this trait is composed of, whose methods it offers too.
    pub composed_traits: Vec<String>,
}

/// A parameter of a function of the table.
pub struct ParamInfo {
    pub convention: ParamConvention,
    pub name: Ident,
    /// The label a call uses for this parameter, when it differs from
    /// the name.
    pub external_label: Option<Ident>,
    pub ty: Option<Type>,
    pub default: Option<Expr>,
}

/// One overload of a function of the table.
pub struct FunctionInfo {
    pub name: String,
    pub visibility: Visibility,
    pub generics: Vec<GenericParam>,
    pub params: Vec<ParamInfo>,
    pub return_type: Option<Type>,
}

/// A module-level `let` binding.
pub struct LetInfo {
    pub name: String,
    pub visibility: Visibility,
    /// The type of the binding.
    pub ty: SemType,
}

/// An inline module, with the names it declares.
pub struct ModuleInfo {
    pub name: String,
    pub visibility: Visibility,
    pub symbols: SymbolTable,
}

pub struct SymbolTable {
    pub structs: Vec<StructInfo>,
    pub enums: Vec<EnumInfo>,
    pub traits: Vec<TraitInfo>,
    /// Every overload of every function, in declaration order; the
    /// overloads of a name are the entries with that name.
    pub functions: Vec<FunctionInfo>,
    /// The module-level `let` bindings.
    pub lets: Vec<LetInfo>,
    /// The inline modules, each with its own table.
    pub modules: Vec<ModuleInfo>,
    /// Each `impl Trait for Type`: the type's name, then the trait's.
    pub trait_impls: Vec<(String, String)>,
    /// The overload that each call among several overloads resolved to:
    /// the call's span, the function's name and the overload's index.
    pub overload_choices: Vec<(Span, String, usize)>,
}

impl SymbolTable {
    /// Everything but the recorded overload choices is the same in the two
    /// tables.
    pub open spec fn same_tables(self, other: SymbolTable) -> bool {
        &&& self.structs == other.structs
        &&& self.enums == other.enums
        &&& self.traits == other.traits
        &&& self.functions == other.functions
        &&& self.lets == other.lets
        &&& self.modules == other.modules
        &&& self.trait_impls == other.trait_impls
    }

    /// The recorded overload choices, with their names as text.
    pub open spec fn choice_views(self) -> Seq<(Span, Seq<char>, usize)> {
        self.overload_choices@.map_values(|c: (Span, String, usize)| (c.0, c.1@, c.2))
    }

    /// Record that the call at `span` of the function `name` resolved to
    /// its overload at `index`.
    pub fn record_overload_choice(&mut self, span: Span, name: &str, index: usize)
        ensures
            final(self).same_tables(*old(self)),
            final(self).choice_views() == old(self).choice_views().push((span, name@, index)),
    {
        let ghost before = self.choice_views();
        self.overload_choices.push((span, String::from_str(name), index));
        assert(self.choice_views() =~= before.push((span, name@, index)));
    }

    /// An empty table.
    pub fn new() -> (r: SymbolTable)
        ensures
            r.structs@.len() == 0,
            r.enums@.len() == 0,
            r.traits@.len() == 0,
            r.functions@.len() == 0,
            r.lets@.len() == 0,
            r.modules@.len() == 0,
            r.trait_impls@.len() == 0,
            r.overload_choices@.len() == 0,
    {
        SymbolTable {
            structs: Vec::new(),
            enums: Vec::new(),
            traits: Vec::new(),
            functions: Vec::new(),
            lets: Vec::new(),
            modules: Vec::new(),
            trait_impls: Vec::new(),
            overload_choices: Vec::new(),
        }
    }

    pub open spec fn has_function(self, name: Seq<char>) -> bool {
        exists|i: int| 0 <= i < self.functions@.len() && #[trigger] self.functions@[i].name@ == name
    }

    pub open spec fn has_let(self, name: Seq<char>) -> bool {
        exists|i: int| 0 <= i < self.lets@.len() && #[trigger] self.lets@[i].name@ == name
    }

    /// True when some overload is called `name`.
    pub fn is_function(&self, name: &str) -> (r: bool)
        ensures
            r == self.has_function(name@),
    {
        let mut i: usize = 0;
        while i < self.functions.len()
            invariant
                i <= self.functions@.len(),
                forall|j: int| 0 <= j < i ==> self.functions@[j].name@ != name@,
            decreases self.functions.len() - i,
        {
            if str_equals(self.functions[i].name.as_str(), name) {
                return true;
            }
            i += 1;
        }
        false
    }

    /// True when `name` is a module-level `let` binding.
    pub fn is_let(&self, name: &str) -> (r: bool)
        ensures
            r == self.has_let(name@),
    {
        let mut i: usize = 0;
        while i < self.lets.len()
            invariant
                i <= self.lets@.len(),
                forall|j: int| 0 <= j < i ==> self.lets@[j].name@ != name@,
            decreases self.lets.len() - i,
        {
            if str_equals(self.lets[i].name.as_str(), name) {
                return true;
            }
            i += 1;
        }
        false
    }

    pub open spec fn has_struct(self, name: Seq<char>) -> bool {
        exists|i: int| 0 <= i < self.structs@.len() && #[trigger] self.structs@[i].name@ == name
    }

    pub open spec fn has_enum(self, name: Seq<char>) -> bool {
        exists|i: int| 0 <= i < self.enums@.len() && #[trigger] self.enums@[i].name@ == name
    }

    pub open spec fn has_trait(self, name: Seq<char>) -> bool {
        exists|i: int| 0 <= i < self.traits@.len() && #[trigger] self.traits@[i].name@ == name
    }

    /// A type is a struct or an enum of the table.
    pub open spec fn names_type(self, name: Seq<char>) -> bool {
        self.has_struct(name) || self.has_enum(name)
    }

    /// The position of the first struct called `name`.
    pub fn struct_index(&self, name: &str) -> (r: Option<usize>)
        ensures
            r is None <==> !self.has_struct(name@),
            r matches Some(i) ==> i < self.structs@.len() && self.structs@[i as int].name@ == name@
                && forall|j: int| 0 <= j < i ==> self.structs@[j].name@ != name@,
    {
        let mut i: usize = 0;
        while i < self.structs.len()
            invariant
                i <= self.structs@.len(),
                forall|j: int| 0 <= j < i ==> self.structs@[j].name@ != name@,
            decreases self.structs.len() - i,
        {
            if str_equals(self.structs[i].name.as_str(), name) {
                return Some(i);
            }
            i += 1;
        }
        None
    }

    /// The position of the first enum called `name`.
    pub fn enum_index(&self, name: &str) -> (r: Option<usize>)
        ensures
            r is None <==> !self.has_enum(name@),
            r matches Some(i) ==> i < self.enums@.len() && self.enums@[i as int].name@ == name@
                && forall|j: int| 0 <= j < i ==> self.enums@[j].name@ != name@,
    {
        let mut i: usize = 0;
        while i < self.enums.len()
            invariant
                i <= self.enums@.len(),
                forall|j: int| 0 <= j < i ==> self.enums@[j].name@ != name@,
            decreases self.enums.len() - i,
        {
            if str_equals(self.enums[i].name.as_str(), name) {
                return Some(i);
            }
            i += 1;
        }
        None
    }

    /// The position of the first trait called `name`.
    pub fn trait_index(&self, name: &str) -> (r: Option<usize>)
        ensures
            r is None <==> !self.has_trait(name@),
            r matches Some(i) ==> i < self.traits@.len() && self.traits@[i as int].name@ == name@
                && forall|j: int| 0 <= j < i ==> self.traits@[j].name@ != name@,
    {
        let mut i: usize = 0;
        while i < self.traits.len()
            invariant
                i <= self.traits@.len(),
                forall|j: int| 0 <= j < i ==> self.traits@[j].name@ != name@,
            decreases self.traits.len() - i,
        {
            if str_equals(self.traits[i].name.as_str(), name) {
                return Some(i);
            }
            i += 1;
        }
        None
    }

    /// True when `name` is a struct or an enum.
    pub fn is_type(&self, name: &str) -> (r: bool)
        ensures
            r == self.names_type(name@),
    {
        self.struct_index(name).is_some() || self.enum_index(name).is_some()
    }

    /// True when `name` is a trait.
    pub fn is_trait(&self, name: &str) -> (r: bool)
        ensures
            r == self.has_trait(name@),
    {
        self.trait_index(name).is_some()
    }

    /// The type of the first module-level `let` called `name`.
    pub fn get_let_type(&self, name: &str) -> (r: Option<&SemType>)
        ensures
            r is None <==> let_named(self.lets@, name@) is None,
            r matches Some(t) ==> let_named(self.lets@, name@) matches Some(l) && l.ty@ == t@,
    {
        let mut i: usize = 0;
        assert(self.lets@.skip(0) =~= self.lets@);
        while i < self.lets.len()
            invariant
                i <= self.lets@.len(),
                let_named(self.lets@, name@) == let_named(self.lets@.skip(i as int), name@),
            decreases self.lets.len() - i,
        {
            assert(self.lets@.skip(i as int)[0] == self.lets@[i as int]);
            if str_equals(self.lets[i].name.as_str(), name) {
                return Some(&self.lets[i].ty);
            }
            assert(self.lets@.skip(i as int).drop_first() =~= self.lets@.skip(i + 1));
            i += 1;
        }
        None
    }

    /// The first struct called `name`.
    pub fn get_struct(&self, name: &str) -> (r: Option<&StructInfo>)
        ensures
            r is None <==> struct_named(self.structs@, name@) is None,
            r matches Some(s) ==> struct_named(self.structs@, name@) == Some(*s),
    {
        let mut i: usize = 0;
        assert(self.structs@.skip(0) =~= self.structs@);
        while i < self.structs.len()
            invariant
                i <= self.structs@.len(),
                struct_named(self.structs@, name@) == struct_named(self.structs@.skip(i as int), name@),
            decreases self.structs.len() - i,
        {
            assert(self.structs@.skip(i as int)[0] == self.structs@[i as int]);
            if str_equals(self.structs[i].name.as_str(), name) {
                return Some(&self.structs[i]);
            }
            assert(self.structs@.skip(i as int).drop_first() =~= self.structs@.skip(i + 1));
            i += 1;
        }
        None
    }

    /// The first enum called `name`.
    pub fn get_enum(&self, name: &str) -> (r: Option<&EnumInfo>)
        ensures
            r is None <==> enum_named(self.enums@, name@) is None,
            r matches Some(e) ==> enum_named(self.enums@, name@) == Some(*e),
    {
        let mut i: usize = 0;
        assert(self.enums@.skip(0) =~= self.enums@);
        while i < self.enums.len()
            invariant
                i <= self.enums@.len(),
                enum_named(self.enums@, name@) == enum_named(self.enums@.skip(i as int), name@),
            decreases self.enums.len() - i,
        {
            assert(self.enums@.skip(i as int)[0] == self.enums@[i as int]);
            if str_equals(self.enums[i].name.as_str(), name) {
                return Some(&self.enums[i]);
            }
            assert(self.enums@.skip(i as int).drop_first() =~= self.enums@.skip(i + 1));
            i += 1;
        }
        None
    }
}

/// The first module-level `let` of `lets` called `name`.
pub open spec fn let_named(lets: Seq<LetInfo>, name: Seq<char>) -> Option<LetInfo>
    decreases lets.len(),
{
    if lets.len() == 0 {
        None
    } else if lets[0].name@ == name {
        Some(lets[0])
    } else {
        let_named(lets.drop_first(), name)
    }
}

/// The first struct of `structs` called `name`.
pub open spec fn struct_named(structs: Seq<StructInfo>, name: Seq<char>) -> Option<StructInfo>
    decreases structs.len(),
{
    if structs.len() == 0 {
        None
    } else if structs[0].name@ == name {
        Some(structs[0])
    } else {
        struct_named(structs.drop_first(), name)
    }
}

/// The first enum of `enums` called `name`.
pub open spec fn enum_named(enums: Seq<EnumInfo>, name: Seq<char>) -> Option<EnumInfo>
    decreases enums.len(),
{
    if enums.len() == 0 {
        None
    } else if enums[0].name@ == name {
        Some(enums[0])
    } else {
        enum_named(enums.drop_first(), name)
    }
}

/// The names of the structs, the enums and the traits of the table.
pub open spec fn table_names(st: SymbolTable) -> Set<Seq<char>> {
    st.structs@.map_values(|s: StructInfo| s.name@).to_set()
        .union(st.enums@.map_values(|e: EnumInfo| e.name@).to_set())
        .union(st.traits@.map_values(|t: TraitInfo| t.name@).to_set())
}

/// How many names of the table `seen` leaves out. It shrinks each time a
/// walk over named types, or over composed traits, enters a name it has
/// not entered yet, so such a walk ends.
pub open spec fn unseen(st: SymbolTable, seen: Seq<Seq<char>>) -> nat {
    table_names(st).difference(seen.to_set()).len()
}

/// `v1` begins with `v`: what `v` holds, at the same places, and maybe
/// more after it.
pub open spec fn extends(v1: Seq<Seq<char>>, v: Seq<Seq<char>>) -> bool {
    v.len() <= v1.len() && v1.take(v.len() as int) == v
}

/// A list of entered names that begins with another leaves no more
/// names unseen.
pub proof fn lemma_unseen_extends(st: SymbolTable, v: Seq<Seq<char>>, v1: Seq<Seq<char>>)
    requires
        extends(v1, v),
    ensures
        unseen(st, v1) <= unseen(st, v),
{
    let names = table_names(st);
    vstd::seq_lib::seq_to_set_is_finite(st.structs@.map_values(|s: StructInfo| s.name@));
    vstd::seq_lib::seq_to_set_is_finite(st.enums@.map_values(|e: EnumInfo| e.name@));
    vstd::seq_lib::seq_to_set_is_finite(st.traits@.map_values(|t: TraitInfo| t.name@));
    assert(names.finite());
    let a = names.difference(v1.to_set());
    let b = names.difference(v.to_set());
    assert(a.subset_of(b)) by {
        assert forall|x: Seq<char>| a.contains(x) implies b.contains(x) by {
            if v.contains(x) {
                let i = choose|i: int| 0 <= i < v.len() && v[i] == x;
                assert(v1.take(v.len() as int)[i] == x);
                assert(v1[i] == x);
            }
        }
    }
    vstd::set_lib::lemma_len_subset(a, b);
}

/// Entering a table name not yet entered leaves fewer names unseen.
pub proof fn lemma_unseen_push(st: SymbolTable, seen: Seq<Seq<char>>, n: Seq<char>)
    requires
        table_names(st).contains(n),
        !seen.contains(n),
    ensures
        unseen(st, seen.push(n)) < unseen(st, seen),
{
    let names = table_names(st);
    vstd::seq_lib::seq_to_set_is_finite(st.structs@.map_values(|s: StructInfo| s.name@));
    vstd::seq_lib::seq_to_set_is_finite(st.enums@.map_values(|e: EnumInfo| e.name@));
    vstd::seq_lib::seq_to_set_is_finite(st.traits@.map_values(|t: TraitInfo| t.name@));
    assert(names.finite());
    let d = names.difference(seen.to_set());
    assert(d.finite());
    assert(seen.push(n).to_set() =~= seen.to_set().insert(n)) by {
        assert forall|x: Seq<char>| seen.push(n).contains(x) <==> (seen.contains(x) || x == n) by {
            if seen.contains(x) {
                let k = choose|k: int| 0 <= k < seen.len() && seen[k] == x;
                assert(seen.push(n)[k] == x);
            }
            if x == n {
                assert(seen.push(n)[seen.len() as int] == x);
            }
            if seen.push(n).contains(x) {
                let k = choose|k: int| 0 <= k < seen.push(n).len() && seen.push(n)[k] == x;
                if k < seen.len() {
                    assert(seen[k] == x);
                }
            }
        }
    }
    assert(names.difference(seen.push(n).to_set()) =~= d.remove(n));
    assert(d.contains(n));
}

/// A struct found by name is one of the table's names.
pub proof fn lemma_struct_named_in_table(st: SymbolTable, name: Seq<char>)
    requires
        struct_named(st.structs@, name) is Some,
    ensures
        table_names(st).contains(name),
{
    let names = st.structs@.map_values(|s: StructInfo| s.name@);
    let i = lemma_struct_named_index(st.structs@, name);
    assert(names[i] == name);
}

/// An enum found by name is one of the table's names.
pub proof fn lemma_enum_named_in_table(st: SymbolTable, name: Seq<char>)
    requires
        enum_named(st.enums@, name) is Some,
    ensures
        table_names(st).contains(name),
{
    let names = st.enums@.map_values(|e: EnumInfo| e.name@);
    let i = lemma_enum_named_index(st.enums@, name);
    assert(names[i] == name);
}

proof fn lemma_struct_named_index(structs: Seq<StructInfo>, name: Seq<char>) -> (i: int)
    requires
        struct_named(structs, name) is Some,
    ensures
        0 <= i < structs.len(),
        structs[i].name@ == name,
    decreases structs.len(),
{
    if structs[0].name@ == name {
        0
    } else {
        let j = lemma_struct_named_index(structs.drop_first(), name);
        j + 1
    }
}

proof fn lemma_enum_named_index(enums: Seq<EnumInfo>, name: Seq<char>) -> (i: int)
    requires
        enum_named(enums, name) is Some,
    ensures
        0 <= i < enums.len(),
        enums[i].name@ == name,
    decreases enums.len(),
{
    if enums[0].name@ == name {
        0
    } else {
        let j = lemma_enum_named_index(enums.drop_first(), name);
        j + 1
    }
}

} // verus!

//! The types that can be a dictionary key.
//!
//! A key needs a total equality that a backend can hash. `String`, `I32`,
//! `I64` and `Boolean` have one. A struct or an enum has one when each of
//! its fields and payloads has one, leaving out those that mention its own
//! type parameters. A float does not (`NaN != NaN`), a closure has no
//! structure to compare, and an array, a dictionary, a tuple and an
//! optional are not key types. A name that is neither a struct nor an enum
//! of the table, such as a type parameter or an import, is accepted: its
//! own check applies where it is known.

use vstd::prelude::*;
use crate::analyzer::SemanticAnalyzer;
use crate::ast::{FieldDef, PrimitiveType, Span, Type};
use crate::error::{error_views, CompilerError, ErrorView};
use crate::sem_type::{display_of, sem_of, SType, SemType};
use crate::symbols::{
    enum_named, extends, lemma_enum_named_in_table, lemma_struct_named_in_table, lemma_unseen_extends, lemma_unseen_push,
    struct_named, table_names, unseen, SymbolTable,
};
use crate::call_shape::type_views;
use crate::method_lookup::lemma_extends_trans;
use crate::text::{list_contains, views};
use crate::type_names::{mentions_any, type_mentions_any};

verus! {

broadcast use vstd::std_specs::vec::group_vec_axioms;

/// The primitive types with a total, hashable equality.
pub open spec fn key_primitive(p: PrimitiveType) -> bool {
    p is String || p is I32 || p is I64 || p is Boolean
}

/// The types of the fields of `fs` that mention none of `generics`.
pub open spec fn non_generic_types(fs: Seq<FieldDef>, generics: Seq<Seq<char>>) -> Seq<SType>
    decreases fs.len(),
{
    if fs.len() == 0 {
        seq![]
    } else {
        non_generic_types(fs.drop_last(), generics) + if mentions_any(fs.last().ty, generics) {
            Seq::<SType>::empty()
        } else {
            seq![sem_of(fs.last().ty)]
        }
    }
}

/// The field types that decide whether the struct or enum called `n` is a
/// key type; `None` when the table has neither.
pub open spec fn key_fields(st: SymbolTable, n: Seq<char>) -> Option<Seq<SType>> {
    match struct_named(st.structs@, n) {
        Some(s) => Some(non_generic_types(s.fields@, views(s.generics@))),
        None => match enum_named(st.enums@, n) {
            Some(e) => Some(non_generic_types(e.variant_fields@, views(e.generics@))),
            None => None,
        },
    }
}

pub proof fn lemma_key_fields_in_table(st: SymbolTable, n: Seq<char>)
    requires
        key_fields(st, n) is Some,
    ensures
        table_names(st).contains(n),
{
    if struct_named(st.structs@, n) is Some {
        lemma_struct_named_in_table(st, n);
    } else {
        lemma_enum_named_in_table(st, n);
    }
}

/// The check whether `t` can be a key, with `seen` the names of the
/// structs and enums entered already: an entered name counts as a key
/// type, so a type that holds itself is checked once. Each name the check
/// reaches is entered, once, and stays entered. The result is whether `t`
/// can be a key, with the entered names after the check.
pub open spec fn key_check(st: SymbolTable, t: SType, seen: Seq<Seq<char>>) -> (bool, Seq<Seq<char>>)
    decreases unseen(st, seen), 1nat, 0nat,
{
    match t {
        SType::Primitive(p) => (key_primitive(p), seen),
        SType::Unknown => (true, seen),
        SType::InferredEnum => (true, seen),
        SType::Named(n) => key_name_check(st, n, seen),
        SType::Generic { base, .. } => key_name_check(st, base, seen),
        _ => (false, seen),
    }
}

pub open spec fn key_name_check(st: SymbolTable, n: Seq<char>, seen: Seq<Seq<char>>) -> (bool, Seq<Seq<char>>)
    decreases unseen(st, seen), 0nat, 0nat,
{
    if seen.contains(n) {
        (true, seen)
    } else {
        match key_fields(st, n) {
            None => (true, seen.push(n)),
            Some(fs) => {
                proof {
                    lemma_key_fields_in_table(st, n);
                    lemma_unseen_push(st, seen, n);
                }
                key_types_check(st, fs, seen.push(n))
            },
        }
    }
}

/// The check of the types `ts`, in order, until one cannot be a key.
pub open spec fn key_types_check(st: SymbolTable, ts: Seq<SType>, seen: Seq<Seq<char>>) -> (bool, Seq<Seq<char>>)
    decreases unseen(st, seen), 2nat, ts.len(),
{
    if ts.len() == 0 {
        (true, seen)
    } else {
        let r = key_check(st, ts[0], seen);
        if !r.0 {
            r
        } else if extends(r.1, seen) {
            proof { lemma_unseen_extends(st, seen, r.1); }
            key_types_check(st, ts.drop_first(), r.1)
        } else {
            (false, r.1)
        }
    }
}

/// `t` can be a key, checked from nothing entered.
pub open spec fn key_type_ok(st: SymbolTable, t: SType) -> bool {
    key_check(st, t, seq![]).0
}

impl SemanticAnalyzer {
    /// True when `key` can be a dictionary key.
    pub fn is_key_type(&self, key: &SemType) -> (r: bool)
        ensures
            r == key_type_ok(self.symbols, key@),
    {
        let mut seen: Vec<String> = Vec::new();
        assert(views(seen@) =~= seq![]);
        self.is_key_type_inner(key, &mut seen)
    }

    /// True when `key` can be a dictionary key, with `seen` the names of
    /// the structs and enums entered already: such a name counts as a key
    /// type, so a type that holds itself is checked once. Each name the
    /// check reaches is added to `seen`, once, and stays there.
    pub fn is_key_type_inner(&self, key: &SemType, seen: &mut Vec<String>) -> (r: bool)
        ensures
            r == key_check(self.symbols, key@, views(old(seen)@)).0,
            views(final(seen)@) == key_check(self.symbols, key@, views(old(seen)@)).1,
            extends(views(final(seen)@), views(old(seen)@)),
        decreases unseen(self.symbols, views(old(seen)@)),
    {
        let ghost st = self.symbols;
        let ghost s0 = views(seen@);
        assert(s0.take(s0.len() as int) =~= s0);
        let name: &String = match key {
            SemType::Primitive(p) => {
                return match p {
                    PrimitiveType::String | PrimitiveType::I32 | PrimitiveType::I64 | PrimitiveType::Boolean => true,
                    _ => false,
                };
            },
            SemType::Unknown | SemType::InferredEnum => {
                return true;
            },
            SemType::Named(n) => n,
            SemType::Generic { base, .. } => base,
            _ => {
                return false;
            },
        };
        assert(key_check(st, key@, s0) == key_name_check(st, name@, s0));
        if list_contains(seen, name.as_str()) {
            return true;
        }
        let ghost v0 = seen@;
        let copy = name.clone();
        seen.push(copy);
        proof { crate::text::lemma_views_push(v0, copy); }
        let ghost pushed = views(seen@);
        assert(pushed == s0.push(name@));
        assert(pushed.take(s0.len() as int) =~= s0);
        let (fields, generics): (&Vec<FieldDef>, &Vec<String>) = match self.symbols.get_struct(name.as_str()) {
            Some(s) => (&s.fields, &s.generics),
            None => match self.symbols.get_enum(name.as_str()) {
                Some(e) => (&e.variant_fields, &e.generics),
                None => {
                    return true;
                },
            },
        };
        assert(key_fields(st, name@) == Some(non_generic_types(fields@, views(generics@))));
        proof {
            lemma_key_fields_in_table(st, name@);
            lemma_unseen_push(st, s0, name@);
        }
        let mut list: Vec<SemType> = Vec::new();
        let mut j: usize = 0;
        while j < fields.len()
            invariant
                j <= fields@.len(),
                type_views(list@) == non_generic_types(fields@.take(j as int), views(generics@)),
            decreases fields.len() - j,
        {
            proof {
                assert(fields@.take(j + 1).drop_last() =~= fields@.take(j as int));
            }
            let ghost before = list@;
            if !type_mentions_any(&fields[j].ty, generics) {
                list.push(SemType::from_ast(&fields[j].ty));
                assert(type_views(list@) =~= type_views(before).push(sem_of(fields@[j as int].ty)));
            } else {
                assert(type_views(list@) =~= type_views(before) + Seq::<SType>::empty());
            }
            j += 1;
        }
        assert(fields@.take(j as int) =~= fields@);
        let ghost ts = type_views(list@);
        let mut k: usize = 0;
        assert(ts.skip(0) =~= ts);
        assert(pushed.take(pushed.len() as int) =~= pushed);
        while k < list.len()
            invariant
                k <= list@.len(),
                ts == type_views(list@),
                pushed == s0.push(name@),
                unseen(st, pushed) < unseen(st, s0),
                extends(views(seen@), pushed),
                key_types_check(st, ts, pushed) == key_types_check(st, ts.skip(k as int), views(seen@)),
            decreases list.len() - k,
        {
            let ghost before = views(seen@);
            proof {
                lemma_unseen_extends(st, pushed, before);
                assert(ts.skip(k as int)[0] == list@[k as int]@);
                assert(ts.skip(k as int).drop_first() =~= ts.skip(k + 1));
            }
            if !self.is_key_type_inner(&list[k], seen) {
                proof {
                    lemma_extends_trans(views(seen@), before, pushed);
                    lemma_extends_trans(views(seen@), pushed, s0);
                }
                return false;
            }
            proof { lemma_extends_trans(views(seen@), before, pushed); }
            k += 1;
        }
        proof {
            assert(ts.skip(k as int).len() == 0);
            lemma_extends_trans(views(seen@), pushed, s0);
        }
        true
    }

    /// Report a dictionary key type `key` that is not a key type.
    pub fn validate_dictionary_key(&mut self, key: &Type, span: Span)
        ensures
            final(self).same_state(*old(self)),
            error_views(final(self).errors@) == error_views(old(self).errors@) + if key_type_ok(old(self).symbols, sem_of(*key)) {
                Seq::<ErrorView>::empty()
            } else {
                seq![ErrorView::InvalidDictionaryKey { key_type: display_of(sem_of(*key)), span }]
            },
    {
        let key_sem = SemType::from_ast(key);
        if !self.is_key_type(&key_sem) {
            let key_type = key_sem.display();
            self.report(CompilerError::InvalidDictionaryKey { key_type, span });
        } else {
            assert(error_views(self.errors@) =~= error_views(self.errors@) + Seq::<ErrorView>::empty());
        }
    }
}

} // verus!

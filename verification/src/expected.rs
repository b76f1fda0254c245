//! The expected type of an expression from its position, and small
//! questions asked of a semantic type.
//!
//! A position gives an expression an expected type only when a declared
//! type gives one: a `let` annotation, the declared type of a parameter
//! or a field, or a declared return type. The type goes down through a
//! group, the branches of `if` and `match`, the result of a block, and the
//! elements of an array, a tuple and a dictionary.
//!
//! `Some(SemType::Unknown)` means that a declared type exists but this
//! pass cannot compute it. The checks then report nothing: another check
//! reports the real mistake.

use vstd::prelude::*;
use crate::analyzer::SemanticAnalyzer;
use crate::ast::{PrimitiveType, Span, Type};
use crate::error::{error_views, CompilerError, ErrorView};
use crate::sem_type::{
    lemma_view_args_index, lemma_view_args_len, lemma_view_fields_index, lemma_view_fields_len, sem_of,
    view_args, view_fields, view_type, SType, SemType,
};
use crate::text::str_equals;

verus! {

broadcast use vstd::std_specs::vec::group_vec_axioms;

/// The closure type in an expected type; an optional closure slot holds a
/// closure too: `on_press: (() -> Event)?`.
pub open spec fn closure_slot_of(t: SType) -> SType {
    match t {
        SType::Optional(inner) => if *inner is Closure { *inner } else { t },
        _ => t,
    }
}

/// The first field of `fields` with the label `name`.
pub open spec fn tuple_field_type(fields: Seq<(Seq<char>, SType)>, name: Seq<char>) -> Option<SType>
    decreases fields.len(),
{
    if fields.len() == 0 {
        None
    } else if fields[0].0 == name {
        Some(fields[0].1)
    } else {
        tuple_field_type(fields.drop_first(), name)
    }
}

/// The float key type of a dictionary in `t`, if it has one. `deep`
/// looks inside arrays, optionals, tuples, generic arguments and the keys
/// and values of dictionaries too; otherwise only a dictionary at the top.
pub open spec fn float_key_of(t: SType, deep: bool) -> Option<Seq<char>>
    decreases t,
{
    match t {
        SType::Dictionary { key, value } => {
            if *key == SType::Primitive(PrimitiveType::F32) {
                Some("F32"@)
            } else if *key == SType::Primitive(PrimitiveType::F64) {
                Some("F64"@)
            } else if deep {
                match float_key_of(*key, deep) {
                    Some(k) => Some(k),
                    None => float_key_of(*value, deep),
                }
            } else {
                None
            }
        },
        SType::Array(inner) => if deep { float_key_of(*inner, deep) } else { None },
        SType::Optional(inner) => if deep { float_key_of(*inner, deep) } else { None },
        SType::Tuple(fields) => if deep { float_key_in_fields(fields, deep) } else { None },
        SType::Generic { args, .. } => if deep { float_key_in_args(args, deep) } else { None },
        _ => None,
    }
}

pub open spec fn float_key_in_fields(s: Seq<(Seq<char>, SType)>, deep: bool) -> Option<Seq<char>>
    decreases s,
{
    if s.len() == 0 {
        None
    } else {
        match float_key_in_fields(s.drop_last(), deep) {
            Some(k) => Some(k),
            None => float_key_of(s.last().1, deep),
        }
    }
}

pub open spec fn float_key_in_args(s: Seq<SType>, deep: bool) -> Option<Seq<char>>
    decreases s,
{
    if s.len() == 0 {
        None
    } else {
        match float_key_in_args(s.drop_last(), deep) {
            Some(k) => Some(k),
            None => float_key_of(s.last(), deep),
        }
    }
}

/// The float key type of a dictionary in `ty`, if it has one. `deep`
/// looks inside arrays, optionals, tuples, generic arguments and the keys
/// and values of dictionaries too; otherwise only a dictionary at the top.
pub fn float_key_in(ty: &SemType, deep: bool) -> (r: Option<&'static str>)
    ensures
        r is Some <==> float_key_of(ty@, deep) is Some,
        r matches Some(k) ==> float_key_of(ty@, deep) == Some(k@),
    decreases *ty,
{
    let ghost t0 = *ty;
    match ty {
        SemType::Dictionary { key, value } => {
            match &**key {
                SemType::Primitive(PrimitiveType::F32) => Some("F32"),
                SemType::Primitive(PrimitiveType::F64) => Some("F64"),
                _ => {
                    if deep {
                        match float_key_in(key, deep) {
                            Some(k) => Some(k),
                            None => float_key_in(value, deep),
                        }
                    } else {
                        None
                    }
                },
            }
        },
        SemType::Array(inner) => if deep { float_key_in(inner, deep) } else { None },
        SemType::Optional(inner) => if deep { float_key_in(inner, deep) } else { None },
        SemType::Tuple(fields) => {
            if !deep {
                return None;
            }
            let ghost fv = view_fields(fields@);
            proof { lemma_view_fields_len(fields@); }
            let mut i: usize = 0;
            while i < fields.len()
                invariant
                    i <= fields.len(),
                    fv == view_fields(fields@),
                    fv.len() == fields@.len(),
                    float_key_in_fields(fv.take(i as int), deep) is None,
                decreases fields.len() - i,
            {
                proof {
                    assert(decreases_to!(t0 => t0->Tuple_0@));
                    assert(decreases_to!(t0->Tuple_0@ => t0->Tuple_0@[i as int]));
                    lemma_view_fields_index(fields@, i as int);
                    assert(fv.take(i + 1).drop_last() =~= fv.take(i as int));
                }
                match float_key_in(&fields[i].1, deep) {
                    Some(k) => {
                        proof {
                            lemma_float_key_fields_prefix(fv, i as int + 1, deep);
                        }
                        return Some(k);
                    },
                    None => {},
                }
                i += 1;
            }
            assert(fv.take(i as int) =~= fv);
            None
        },
        SemType::Generic { args, .. } => {
            if !deep {
                return None;
            }
            let ghost av = view_args(args@);
            proof { lemma_view_args_len(args@); }
            let mut i: usize = 0;
            while i < args.len()
                invariant
                    i <= args.len(),
                    av == view_args(args@),
                    av.len() == args@.len(),
                    float_key_in_args(av.take(i as int), deep) is None,
                decreases args.len() - i,
            {
                proof {
                    assert(decreases_to!(t0 => t0->args@));
                    assert(decreases_to!(t0->args@ => t0->args@[i as int]));
                    lemma_view_args_index(args@, i as int);
                    assert(av.take(i + 1).drop_last() =~= av.take(i as int));
                }
                match float_key_in(&args[i], deep) {
                    Some(k) => {
                        proof {
                            lemma_float_key_args_prefix(av, i as int + 1, deep);
                        }
                        return Some(k);
                    },
                    None => {},
                }
                i += 1;
            }
            assert(av.take(i as int) =~= av);
            None
        },
        _ => None,
    }
}

/// Once a prefix of the fields holds a float key, the whole list gives
/// that key.
pub proof fn lemma_float_key_fields_prefix(s: Seq<(Seq<char>, SType)>, n: int, deep: bool)
    requires
        0 <= n <= s.len(),
        float_key_in_fields(s.take(n), deep) is Some,
    ensures
        float_key_in_fields(s, deep) == float_key_in_fields(s.take(n), deep),
    decreases s.len() - n,
{
    if n < s.len() {
        assert(s.take(n + 1).drop_last() =~= s.take(n));
        lemma_float_key_fields_prefix(s, n + 1, deep);
    } else {
        assert(s.take(n) =~= s);
    }
}

/// Once a prefix of the arguments holds a float key, the whole list gives
/// that key.
pub proof fn lemma_float_key_args_prefix(s: Seq<SType>, n: int, deep: bool)
    requires
        0 <= n <= s.len(),
        float_key_in_args(s.take(n), deep) is Some,
    ensures
        float_key_in_args(s, deep) == float_key_in_args(s.take(n), deep),
    decreases s.len() - n,
{
    if n < s.len() {
        assert(s.take(n + 1).drop_last() =~= s.take(n));
        lemma_float_key_args_prefix(s, n + 1, deep);
    } else {
        assert(s.take(n) =~= s);
    }
}

impl SemanticAnalyzer {
    /// True for `Seq<T>`, the type a `for` expression produces.
    pub fn is_sequence(ty: &SemType) -> (r: bool)
        ensures
            r == (ty@ matches SType::Generic { base, .. } && base == "Seq"@),
    {
        match ty {
            SemType::Generic { base, .. } => str_equals(base.as_str(), "Seq"),
            _ => false,
        }
    }

    /// Whether a value of this type takes an index: an array by position,
    /// a dictionary by key, and a string by offset.
    pub fn is_indexable(ty: &SemType) -> (r: bool)
        ensures
            r == (ty@ is Array || ty@ is Dictionary || ty@ == SType::Primitive(PrimitiveType::String)),
    {
        match ty {
            SemType::Array(_) => true,
            SemType::Dictionary { .. } => true,
            SemType::Primitive(PrimitiveType::String) => true,
            _ => false,
        }
    }

    /// Whether a value of this type carries named fields at all. A
    /// number, a boolean, a closure and `nil` do not.
    pub fn holds_named_fields(ty: &SemType) -> (r: bool)
        ensures
            r == !(ty@ is Primitive || ty@ is Closure || ty@ is Nil),
    {
        match ty {
            SemType::Primitive(_) => false,
            SemType::Closure { .. } => false,
            SemType::Nil => false,
            _ => true,
        }
    }

    /// Whether this comparison is an optional against `nil`. Either side
    /// may be the `nil`, and two `nil`s compare too.
    pub fn compares_against_nil(left: &SemType, right: &SemType) -> (r: bool)
        ensures
            r == ((left@ is Nil && (right@ is Optional || right@ is Nil))
                || (right@ is Nil && (left@ is Optional || left@ is Nil))),
    {
        let left_nil = match left { SemType::Nil => true, _ => false };
        let right_nil = match right { SemType::Nil => true, _ => false };
        let left_optional_or_nil = match left { SemType::Optional(_) => true, SemType::Nil => true, _ => false };
        let right_optional_or_nil = match right { SemType::Optional(_) => true, SemType::Nil => true, _ => false };
        (left_nil && right_optional_or_nil) || (right_nil && left_optional_or_nil)
    }

    /// The closure type in an expected type. An optional closure slot
    /// holds a closure too: `on_press: (() -> Event)?`.
    pub fn closure_slot(expected: &SemType) -> (r: &SemType)
        ensures
            r@ == closure_slot_of(expected@),
    {
        match expected {
            SemType::Optional(inner) => {
                let inner: &SemType = &**inner;
                match inner {
                    SemType::Closure { .. } => {
                        assert(view_type(*inner) is Closure);
                        inner
                    },
                    _ => expected,
                }
            },
            _ => expected,
        }
    }

    /// `Some(SemType::Unknown)` when `expected` is a declared type that
    /// this pass cannot compute, and `None` otherwise.
    pub fn unknown_if_unknown(expected: &SemType) -> (r: Option<SemType>)
        ensures
            r is Some <==> expected@ is Unknown,
            r matches Some(t) ==> t@ is Unknown,
    {
        match expected {
            SemType::Unknown => Some(SemType::Unknown),
            _ => None,
        }
    }

    /// The expected type of the element of an array.
    pub fn expected_element(expected: Option<&SemType>) -> (r: Option<SemType>)
        ensures
            match expected {
                None => r is None,
                Some(t) => match t@ {
                    SType::Array(e) => r matches Some(x) && x@ == *e,
                    SType::Unknown => r matches Some(x) && x@ is Unknown,
                    _ => r is None,
                },
            },
    {
        let expected = match expected {
            Some(t) => t,
            None => return None,
        };
        match expected {
            SemType::Array(element) => Some(element.duplicate()),
            _ => Self::unknown_if_unknown(expected),
        }
    }

    /// The expected types of the key and the value of a dictionary.
    pub fn expected_entry(expected: Option<&SemType>) -> (r: (Option<SemType>, Option<SemType>))
        ensures
            match expected {
                None => r.0 is None && r.1 is None,
                Some(t) => match t@ {
                    SType::Dictionary { key, value } => (r.0 matches Some(k) && k@ == *key)
                        && (r.1 matches Some(v) && v@ == *value),
                    SType::Unknown => (r.0 matches Some(k) && k@ is Unknown) && (r.1 matches Some(v) && v@ is Unknown),
                    _ => r.0 is None && r.1 is None,
                },
            },
    {
        let expected = match expected {
            Some(t) => t,
            None => return (None, None),
        };
        match expected {
            SemType::Dictionary { key, value } => (Some(key.duplicate()), Some(value.duplicate())),
            _ => (Self::unknown_if_unknown(expected), Self::unknown_if_unknown(expected)),
        }
    }

    /// The expected type of the tuple field `name`.
    pub fn expected_tuple_field(expected: Option<&SemType>, name: &str) -> (r: Option<SemType>)
        ensures
            match expected {
                None => r is None,
                Some(t) => match t@ {
                    SType::Tuple(fields) => match tuple_field_type(fields, name@) {
                        Some(ft) => r matches Some(x) && x@ == ft,
                        None => r is None,
                    },
                    SType::Unknown => r matches Some(x) && x@ is Unknown,
                    _ => r is None,
                },
            },
    {
        let expected = match expected {
            Some(t) => t,
            None => return None,
        };
        match expected {
            SemType::Tuple(fields) => {
                let ghost fv = view_fields(fields@);
                proof { lemma_view_fields_len(fields@); }
                let mut i: usize = 0;
                assert(fv.skip(0) =~= fv);
                while i < fields.len()
                    invariant
                        i <= fields.len(),
                        fv == view_fields(fields@),
                        fv.len() == fields@.len(),
                        tuple_field_type(fv, name@) == tuple_field_type(fv.skip(i as int), name@),
                    decreases fields.len() - i,
                {
                    proof {
                        lemma_view_fields_index(fields@, i as int);
                        assert(fv.skip(i as int)[0] == fv[i as int]);
                        assert(fv.skip(i as int).drop_first() =~= fv.skip(i + 1));
                    }
                    if str_equals(fields[i].0.as_str(), name) {
                        return Some(fields[i].1.duplicate());
                    }
                    i += 1;
                }
                None
            },
            _ => Self::unknown_if_unknown(expected),
        }
    }

    /// The name of the enum in an expected type, for an inferred
    /// `.variant`: `Status`, `Box<T>` or `Status?`.
    pub fn expected_enum_name(expected: &SemType) -> (r: Option<String>)
        ensures
            ({
                let named = match expected@ {
                    SType::Optional(inner) => *inner,
                    _ => expected@,
                };
                match named {
                    SType::Named(n) => r matches Some(x) && x@ == n,
                    SType::Generic { base, .. } => r matches Some(x) && x@ == base,
                    _ => r is None,
                }
            }),
    {
        let named = match expected {
            SemType::Optional(inner) => &**inner,
            _ => expected,
        };
        match named {
            SemType::Named(name) => Some(name.clone()),
            SemType::Generic { base, .. } => Some(base.clone()),
            _ => None,
        }
    }

    /// The expected type of the body of a closure literal: its declared
    /// return type, or else the return type of the expected closure.
    pub fn closure_body_expected(return_type: Option<&Type>, expected: Option<&SemType>) -> (r: Option<SemType>)
        ensures
            match return_type {
                Some(declared) => r matches Some(x) && x@ == sem_of(*declared),
                None => match expected {
                    Some(t) => match closure_slot_of(t@) {
                        SType::Closure { return_ty, .. } => r matches Some(x) && x@ == *return_ty,
                        SType::Unknown => r matches Some(x) && x@ is Unknown,
                        _ => r is None,
                    },
                    None => r is None,
                },
            },
    {
        if let Some(declared) = return_type {
            return Some(SemType::from_ast(declared));
        }
        match expected {
            Some(t) => {
                let slot = Self::closure_slot(t);
                match slot {
                    SemType::Closure { return_ty, .. } => Some(return_ty.duplicate()),
                    SemType::Unknown => Some(SemType::Unknown),
                    _ => None,
                }
            },
            None => None,
        }
    }

    /// Report `FloatDictionaryKey` when `key_ty` is `F32` or `F64`.
    pub fn report_float_key(&mut self, key_ty: &SemType, span: Span)
        ensures
            error_views(final(self).errors@) == error_views(old(self).errors@) + match key_ty@ {
                SType::Primitive(PrimitiveType::F32) => seq![ErrorView::FloatDictionaryKey { key_type: "F32"@, span }],
                SType::Primitive(PrimitiveType::F64) => seq![ErrorView::FloatDictionaryKey { key_type: "F64"@, span }],
                _ => Seq::<ErrorView>::empty(),
            },
            final(self).same_state(*old(self)),
    {
        let key_type = match key_ty {
            SemType::Primitive(PrimitiveType::F32) => "F32",
            SemType::Primitive(PrimitiveType::F64) => "F64",
            _ => {
                assert(error_views(self.errors@) =~= error_views(self.errors@) + Seq::<ErrorView>::empty());
                return;
            },
        };
        self.report(CompilerError::FloatDictionaryKey { key_type: String::from_str(key_type), span });
    }
}

} // verus!

//! A dictionary key typed `F32` or `F64` that inference gives.
//!
//! A key type that the source writes is checked where it is written. A
//! key type that inference gives enters a program through the keys of a
//! dictionary literal, or through a type argument of a call that stands
//! as a key in the callee's signature; each is checked there, once.

use vstd::prelude::*;
use crate::analyzer::SemanticAnalyzer;
use crate::ast::{Expr, Span, Type};
use crate::error::{error_views, ErrorView};
use crate::sem_type::{SType, SemType};
use crate::ast::PrimitiveType;
use crate::text::{lemma_views_push, list_contains, views};
use crate::type_names::{for_each_key_name, key_name_list_args};

verus! {

broadcast use vstd::std_specs::vec::group_vec_axioms;

/// The names of `names` that `candidates` holds, each once, in the order
/// of their first occurrence.
pub open spec fn kept_names(names: Seq<Seq<char>>, candidates: Seq<Seq<char>>) -> Seq<Seq<char>>
    decreases names.len(),
{
    if names.len() == 0 {
        seq![]
    } else {
        let before = kept_names(names.drop_last(), candidates);
        before + if candidates.contains(names.last()) && !before.contains(names.last()) {
            seq![names.last()]
        } else {
            Seq::<Seq<char>>::empty()
        }
    }
}

/// The types a list of borrowed types points at.
pub open spec fn deref_types(s: Seq<&Type>) -> Seq<Type> {
    s.map_values(|t: &Type| *t)
}

/// The names of `candidates` that stand as the key of a dictionary type
/// in `types` (`K` in `[K: V]`), each once, in the order they occur.
pub fn key_names(candidates: &Vec<String>, types: &Vec<&Type>) -> (r: Vec<String>)
    ensures
        views(r@) == kept_names(key_name_list_args(deref_types(types@)), views(candidates@)),
{
    let mut found: Vec<String> = Vec::new();
    let mut i: usize = 0;
    while i < types.len()
        invariant
            i <= types@.len(),
            views(found@) == key_name_list_args(deref_types(types@).take(i as int)),
        decreases types.len() - i,
    {
        proof {
            assert(deref_types(types@).take(i + 1).drop_last() =~= deref_types(types@).take(i as int));
            assert(deref_types(types@).take(i + 1).last() == *types@[i as int]);
        }
        for_each_key_name(types[i], &mut found);
        i += 1;
    }
    assert(deref_types(types@).take(i as int) =~= deref_types(types@));
    let ghost all = views(found@);
    let mut out: Vec<String> = Vec::new();
    let mut k: usize = 0;
    while k < found.len()
        invariant
            k <= found@.len(),
            all == views(found@),
            views(out@) == kept_names(all.take(k as int), views(candidates@)),
        decreases found.len() - k,
    {
        proof {
            assert(all.take(k + 1).drop_last() =~= all.take(k as int));
            assert(all.take(k + 1).last() == found@[k as int]@);
        }
        let name = &found[k];
        if list_contains(candidates, name.as_str()) && !list_contains(&out, name.as_str()) {
            let ghost ob = out@;
            let copy = name.clone();
            out.push(copy);
            proof { lemma_views_push(ob, copy); }
        } else {
            assert(views(out@) =~= views(out@) + Seq::<Seq<char>>::empty());
        }
        k += 1;
    }
    assert(all.take(k as int) =~= all);
    out
}

impl SemanticAnalyzer {
    /// Report a dictionary literal whose keys are `F32` or `F64`.
    /// `first_key_ty` is the type of the first key: the keys agree, or
    /// the homogeneity check reports them. An empty literal has no key.
    pub fn check_literal_float_key(&mut self, entries: &Vec<(Expr, Expr)>, first_key_ty: &SemType, span: Span)
        ensures
            final(self).same_state(*old(self)),
            error_views(final(self).errors@) == error_views(old(self).errors@) + if entries@.len() == 0 {
                Seq::<ErrorView>::empty()
            } else {
                match first_key_ty@ {
                    SType::Primitive(PrimitiveType::F32) => seq![ErrorView::FloatDictionaryKey { key_type: "F32"@, span }],
                    SType::Primitive(PrimitiveType::F64) => seq![ErrorView::FloatDictionaryKey { key_type: "F64"@, span }],
                    _ => Seq::<ErrorView>::empty(),
                }
            },
    {
        if entries.len() == 0 {
            assert(error_views(self.errors@) =~= error_views(self.errors@) + Seq::<ErrorView>::empty());
            return;
        }
        self.report_float_key(first_key_ty, span);
    }
}

} // verus!

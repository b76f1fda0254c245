//! The names that a binding pattern introduces.

use vstd::prelude::*;
use crate::ast::{ArrayPatternElement, BindingPattern, Ident};

verus! {

broadcast use vstd::std_specs::vec::group_vec_axioms;

/// Each name that `p` binds, in source order.
pub open spec fn pattern_names(p: BindingPattern) -> Seq<Ident>
    decreases p,
{
    match p {
        BindingPattern::Simple(id) => seq![id],
        BindingPattern::Array { elements, .. } => element_names(elements@),
        BindingPattern::Tuple { elements, .. } => patterns_names(elements@),
        BindingPattern::Struct { fields, .. } => struct_field_names(fields@),
    }
}

pub open spec fn element_names(s: Seq<ArrayPatternElement>) -> Seq<Ident>
    decreases s,
{
    if s.len() == 0 {
        seq![]
    } else {
        element_names(s.drop_last()) + match s.last() {
            ArrayPatternElement::Binding(inner) => pattern_names(inner),
            ArrayPatternElement::Rest(Some(id)) => seq![id],
            ArrayPatternElement::Rest(None) | ArrayPatternElement::Wildcard => seq![],
        }
    }
}

pub open spec fn patterns_names(s: Seq<BindingPattern>) -> Seq<Ident>
    decreases s,
{
    if s.len() == 0 { seq![] } else { patterns_names(s.drop_last()) + pattern_names(s.last()) }
}

/// A struct pattern binds the alias of a field, or its name.
pub open spec fn struct_field_names(s: Seq<crate::ast::StructPatternField>) -> Seq<Ident>
    decreases s.len(),
{
    if s.len() == 0 {
        seq![]
    } else {
        struct_field_names(s.drop_last()).push(
            match s.last().alias {
                Some(a) => a,
                None => s.last().name,
            },
        )
    }
}

/// The names of a list of identifiers.
pub open spec fn ident_names(s: Seq<Ident>) -> Seq<Seq<char>> {
    s.map_values(|i: Ident| i.name@)
}

/// Append each name that `pattern` binds, in source order, to `out`.
pub fn collect_pattern_names<'p>(pattern: &'p BindingPattern, out: &mut Vec<&'p Ident>)
    ensures
        final(out)@.map_values(|i: &Ident| *i) == old(out)@.map_values(|i: &Ident| *i)
            + pattern_names(*pattern),
    decreases *pattern,
{
    let ghost p0 = *pattern;
    let ghost o0 = out@.map_values(|i: &Ident| *i);
    match pattern {
        BindingPattern::Simple(ident) => {
            out.push(ident);
            assert(out@.map_values(|i: &Ident| *i) =~= o0 + seq![*ident]);
        },
        BindingPattern::Array { elements, .. } => {
            let mut k: usize = 0;
            while k < elements.len()
                invariant
                    k <= elements.len(),
                    out@.map_values(|i: &Ident| *i) == o0 + element_names(elements@.take(k as int)),
                decreases elements.len() - k,
            {
                proof {
                    assert(elements@.take(k + 1).drop_last() =~= elements@.take(k as int));
                    assert(decreases_to!(p0 => p0->Array_elements@));
                    assert(decreases_to!(p0->Array_elements@ => p0->Array_elements@[k as int]));
                }
                let ghost before = out@.map_values(|i: &Ident| *i);
                match &elements[k] {
                    ArrayPatternElement::Binding(inner) => {
                        collect_pattern_names(inner, out);
                    },
                    ArrayPatternElement::Rest(Some(ident)) => {
                        out.push(ident);
                        assert(out@.map_values(|i: &Ident| *i) =~= before + seq![*ident]);
                    },
                    ArrayPatternElement::Rest(None) | ArrayPatternElement::Wildcard => {
                        assert(out@.map_values(|i: &Ident| *i) =~= before + Seq::<Ident>::empty());
                    },
                }
                proof {
                    assert(out@.map_values(|i: &Ident| *i) =~= o0 + element_names(elements@.take(k + 1)));
                }
                k += 1;
            }
            assert(elements@.take(k as int) =~= elements@);
        },
        BindingPattern::Struct { fields, .. } => {
            let mut k: usize = 0;
            while k < fields.len()
                invariant
                    k <= fields.len(),
                    out@.map_values(|i: &Ident| *i) == o0 + struct_field_names(fields@.take(k as int)),
                decreases fields.len() - k,
            {
                proof {
                    assert(fields@.take(k + 1).drop_last() =~= fields@.take(k as int));
                }
                let ghost before = out@.map_values(|i: &Ident| *i);
                let bound = match &fields[k].alias {
                    Some(alias) => alias,
                    None => &fields[k].name,
                };
                out.push(bound);
                proof {
                    assert(fields@.take(k + 1).last() == fields@[k as int]);
                    assert(struct_field_names(fields@.take(k + 1)) == struct_field_names(fields@.take(k as int)).push(*bound));
                    assert(out@.map_values(|i: &Ident| *i) =~= before.push(*bound));
                }
                assert(out@.map_values(|i: &Ident| *i) =~= o0 + struct_field_names(fields@.take(k + 1)));
                k += 1;
            }
            assert(fields@.take(k as int) =~= fields@);
        },
        BindingPattern::Tuple { elements, .. } => {
            let mut k: usize = 0;
            while k < elements.len()
                invariant
                    k <= elements.len(),
                    out@.map_values(|i: &Ident| *i) == o0 + patterns_names(elements@.take(k as int)),
                decreases elements.len() - k,
            {
                proof {
                    assert(elements@.take(k + 1).drop_last() =~= elements@.take(k as int));
                    assert(decreases_to!(p0 => p0->Tuple_elements@));
                    assert(decreases_to!(p0->Tuple_elements@ => p0->Tuple_elements@[k as int]));
                }
                collect_pattern_names(&elements[k], out);
                proof {
                    assert(out@.map_values(|i: &Ident| *i) =~= o0 + patterns_names(elements@.take(k + 1)));
                }
                k += 1;
            }
            assert(elements@.take(k as int) =~= elements@);
        },
    }
}

/// The names that `pattern` binds, in source order.
pub fn pattern_binding_names(pattern: &BindingPattern) -> (r: Vec<String>)
    ensures
        crate::text::views(r@) == ident_names(pattern_names(*pattern)),
{
    let mut idents: Vec<&Ident> = Vec::new();
    collect_pattern_names(pattern, &mut idents);
    let ghost ids = idents@.map_values(|i: &Ident| *i);
    assert(ids =~= Seq::<Ident>::empty() + pattern_names(*pattern));
    let mut out: Vec<String> = Vec::new();
    let mut k: usize = 0;
    while k < idents.len()
        invariant
            k <= idents.len(),
            ids == idents@.map_values(|i: &Ident| *i),
            crate::text::views(out@) == ident_names(ids.take(k as int)),
        decreases idents.len() - k,
    {
        let ghost before = out@;
        out.push(idents[k].name.clone());
        proof {
            assert(ids.take(k + 1) =~= ids.take(k as int).push(ids[k as int]));
            assert(crate::text::views(out@) =~= crate::text::views(before).push(ids[k as int].name@));
        }
        assert(crate::text::views(out@) =~= ident_names(ids.take(k + 1)));
        k += 1;
    }
    assert(ids.take(k as int) =~= ids);
    out
}

} // verus!

//! Which types `==` and `!=` have an answer for.
//!
//! Equality is structural, so it reaches every field of a struct, every
//! payload of an enum and every element of a container. A closure has no
//! structure to compare, so a type that holds one anywhere is not
//! equatable. A struct that contains itself is entered once per path.

use vstd::prelude::*;
use crate::analyzer::SemanticAnalyzer;
use crate::ast::{FieldDef, ParamConvention};
use crate::sem_type::{sem_of, view_args, view_fields, view_params, SType, SemType};
use crate::symbols::{
    enum_named, lemma_enum_named_in_table, lemma_struct_named_in_table, lemma_unseen_push, struct_named, table_names,
    unseen, SymbolTable,
};
use crate::text::{list_contains, views};

verus! {

broadcast use vstd::std_specs::vec::group_vec_axioms;

/// `t` and every type nested inside it, outermost first.
pub open spec fn inner_stypes(t: SType) -> Seq<SType>
    decreases t,
{
    seq![t] + match t {
        SType::Array(e) => inner_stypes(*e),
        SType::Optional(e) => inner_stypes(*e),
        SType::Dictionary { key, value } => inner_stypes(*key) + inner_stypes(*value),
        SType::Tuple(fields) => inner_stypes_fields(fields),
        SType::Generic { args, .. } => inner_stypes_list(args),
        SType::Closure { params, return_ty } => inner_stypes_params(params) + inner_stypes(*return_ty),
        _ => Seq::<SType>::empty(),
    }
}

pub open spec fn inner_stypes_list(s: Seq<SType>) -> Seq<SType>
    decreases s,
{
    if s.len() == 0 { seq![] } else { inner_stypes_list(s.drop_last()) + inner_stypes(s.last()) }
}

pub open spec fn inner_stypes_fields(s: Seq<(Seq<char>, SType)>) -> Seq<SType>
    decreases s,
{
    if s.len() == 0 { seq![] } else { inner_stypes_fields(s.drop_last()) + inner_stypes(s.last().1) }
}

pub open spec fn inner_stypes_params(s: Seq<(ParamConvention, SType)>) -> Seq<SType>
    decreases s,
{
    if s.len() == 0 { seq![] } else { inner_stypes_params(s.drop_last()) + inner_stypes(s.last().1) }
}

/// The views of a list of borrowed types.
pub open spec fn type_views(s: Seq<&SemType>) -> Seq<SType> {
    s.map_values(|t: &SemType| t@)
}

/// A closure occurs somewhere in `t`, without looking into named types.
pub open spec fn type_holds_closure(t: SType) -> bool {
    exists|i: int| 0 <= i < inner_stypes(t).len() && #[trigger] inner_stypes(t)[i] is Closure
}

/// The fields of the struct called `n`, else the payload fields of the
/// enum called `n`.
pub open spec fn named_fields(st: SymbolTable, n: Seq<char>) -> Option<Seq<FieldDef>> {
    match struct_named(st.structs@, n) {
        Some(s) => Some(s.fields@),
        None => match enum_named(st.enums@, n) {
            Some(e) => Some(e.variant_fields@),
            None => None,
        },
    }
}

pub proof fn lemma_named_fields_in_table(st: SymbolTable, n: Seq<char>)
    requires
        named_fields(st, n) is Some,
    ensures
        table_names(st).contains(n),
{
    if struct_named(st.structs@, n) is Some {
        lemma_struct_named_in_table(st, n);
    } else {
        lemma_enum_named_in_table(st, n);
    }
}

/// A closure is reachable from `t`: inside it, or inside the fields of a
/// named type it mentions, entered only when its name is not in `seen`.
pub open spec fn closure_reachable(st: SymbolTable, t: SType, seen: Seq<Seq<char>>) -> bool
    decreases unseen(st, seen), 2nat, 0nat,
{
    type_holds_closure(t) || closure_via_names(st, inner_stypes(t), seen)
}

pub open spec fn closure_via_names(st: SymbolTable, ts: Seq<SType>, seen: Seq<Seq<char>>) -> bool
    decreases unseen(st, seen), 1nat, ts.len(),
{
    ts.len() > 0 && (closure_via_names(st, ts.drop_last(), seen) || closure_via_name(st, ts.last(), seen))
}

pub open spec fn closure_via_name(st: SymbolTable, t: SType, seen: Seq<Seq<char>>) -> bool
    decreases unseen(st, seen), 0nat, 0nat,
{
    match t {
        SType::Named(n) => !seen.contains(n) && match named_fields(st, n) {
            Some(fs) => {
                proof {
                    lemma_named_fields_in_table(st, n);
                    lemma_unseen_push(st, seen, n);
                }
                closure_in_fields(st, fs, seen.push(n))
            },
            None => false,
        },
        _ => false,
    }
}

pub open spec fn closure_in_fields(st: SymbolTable, fs: Seq<FieldDef>, seen: Seq<Seq<char>>) -> bool
    decreases unseen(st, seen), 3nat, fs.len(),
{
    fs.len() > 0 && (closure_in_fields(st, fs.drop_last(), seen) || closure_reachable(st, sem_of(fs.last().ty), seen))
}

/// Append `ty` and every type nested inside it to `out`, outermost first.
pub fn for_each_inner_type<'a>(ty: &'a SemType, out: &mut Vec<&'a SemType>)
    ensures
        type_views(final(out)@) == type_views(old(out)@) + inner_stypes(ty@),
    decreases *ty,
{
    let ghost t0 = *ty;
    let ghost o0 = type_views(out@);
    out.push(ty);
    assert(type_views(out@) =~= o0 + seq![ty@]);
    match ty {
        SemType::Array(inner) => for_each_inner_type(inner, out),
        SemType::Optional(inner) => for_each_inner_type(inner, out),
        SemType::Dictionary { key, value } => {
            for_each_inner_type(key, out);
            for_each_inner_type(value, out);
        },
        SemType::Tuple(fields) => {
            let mut i: usize = 0;
            while i < fields.len()
                invariant
                    i <= fields@.len(),
                    type_views(out@) == o0 + seq![t0@] + inner_stypes_fields(view_fields(fields@.take(i as int))),
                decreases fields.len() - i,
            {
                proof {
                    assert(decreases_to!(t0 => t0->Tuple_0@));
                    assert(decreases_to!(t0->Tuple_0@ => t0->Tuple_0@[i as int]));
                    assert(fields@.take(i + 1).drop_last() =~= fields@.take(i as int));
                    assert(view_fields(fields@.take(i + 1)).drop_last() =~= view_fields(fields@.take(i as int)));
                }
                for_each_inner_type(&fields[i].1, out);
                i += 1;
            }
            assert(fields@.take(i as int) =~= fields@);
        },
        SemType::Generic { args, .. } => {
            let mut i: usize = 0;
            while i < args.len()
                invariant
                    i <= args@.len(),
                    type_views(out@) == o0 + seq![t0@] + inner_stypes_list(view_args(args@.take(i as int))),
                decreases args.len() - i,
            {
                proof {
                    assert(decreases_to!(t0 => t0->args@));
                    assert(decreases_to!(t0->args@ => t0->args@[i as int]));
                    assert(args@.take(i + 1).drop_last() =~= args@.take(i as int));
                    assert(view_args(args@.take(i + 1)).drop_last() =~= view_args(args@.take(i as int)));
                }
                for_each_inner_type(&args[i], out);
                i += 1;
            }
            assert(args@.take(i as int) =~= args@);
        },
        SemType::Closure { params, return_ty } => {
            let mut i: usize = 0;
            while i < params.len()
                invariant
                    i <= params@.len(),
                    type_views(out@) == o0 + seq![t0@] + inner_stypes_params(view_params(params@.take(i as int))),
                decreases params.len() - i,
            {
                proof {
                    assert(decreases_to!(t0 => t0->params@));
                    assert(decreases_to!(t0->params@ => t0->params@[i as int]));
                    assert(params@.take(i + 1).drop_last() =~= params@.take(i as int));
                    assert(view_params(params@.take(i + 1)).drop_last() =~= view_params(params@.take(i as int)));
                }
                for_each_inner_type(&params[i].1, out);
                i += 1;
            }
            assert(params@.take(i as int) =~= params@);
            for_each_inner_type(return_ty, out);
        },
        _ => {},
    }
    assert(type_views(out@) =~= o0 + inner_stypes(t0@));
}

impl SemanticAnalyzer {
    /// Whether `==` and `!=` have an answer for values of `ty`: no closure
    /// is reachable from it through its elements, fields and payloads.
    pub fn is_equatable(&self, ty: &SemType) -> (r: bool)
        ensures
            r == !closure_reachable(self.symbols, ty@, seq![]),
    {
        let mut seen: Vec<String> = Vec::new();
        assert(views(seen@) =~= seq![]);
        !self.holds_a_closure(ty, &mut seen)
    }

    /// Whether a closure is reachable from `ty`. `seen` holds the names of
    /// the named types entered on the way here; each is entered once per
    /// path, so a type that contains itself ends the walk.
    pub fn holds_a_closure(&self, ty: &SemType, seen: &mut Vec<String>) -> (r: bool)
        ensures
            r == closure_reachable(self.symbols, ty@, views(old(seen)@)),
            final(seen)@ == old(seen)@,
        decreases unseen(self.symbols, views(old(seen)@)),
    {
        let ghost st = self.symbols;
        let ghost s0 = seen@;
        let mut inner: Vec<&SemType> = Vec::new();
        for_each_inner_type(ty, &mut inner);
        assert(type_views(inner@) =~= inner_stypes(ty@));
        let mut i: usize = 0;
        while i < inner.len()
            invariant
                i <= inner@.len(),
                type_views(inner@) == inner_stypes(ty@),
                forall|j: int| 0 <= j < i ==> !(#[trigger] inner_stypes(ty@)[j] is Closure),
            decreases inner.len() - i,
        {
            if let SemType::Closure { .. } = inner[i] {
                assert(inner_stypes(ty@)[i as int] is Closure);
                return true;
            }
            i += 1;
        }
        assert(!type_holds_closure(ty@));
        let mut found = false;
        let mut k: usize = 0;
        while k < inner.len()
            invariant
                k <= inner@.len(),
                seen@ == s0,
                type_views(inner@) == inner_stypes(ty@),
                found == closure_via_names(st, inner_stypes(ty@).take(k as int), views(s0)),
            decreases inner.len() - k,
        {
            proof {
                assert(inner_stypes(ty@).take(k + 1).drop_last() =~= inner_stypes(ty@).take(k as int));
                assert(inner_stypes(ty@).take(k + 1).last() == inner@[k as int]@);
            }
            let mut reached = false;
            if let SemType::Named(name) = inner[k] {
                if !list_contains(seen, name.as_str()) {
                    let fields_opt: Option<&Vec<FieldDef>> = match self.symbols.get_struct(name.as_str()) {
                        Some(s) => Some(&s.fields),
                        None => match self.symbols.get_enum(name.as_str()) {
                            Some(e) => Some(&e.variant_fields),
                            None => None,
                        },
                    };
                    if let Some(fields) = fields_opt {
                        assert(named_fields(st, name@) == Some(fields@));
                        proof {
                            lemma_named_fields_in_table(st, name@);
                            lemma_unseen_push(st, views(s0), name@);
                        }
                        let copy = name.clone();
                        seen.push(copy);
                        assert(views(seen@) =~= views(s0).push(name@));
                        let mut j: usize = 0;
                        while j < fields.len()
                            invariant
                                j <= fields@.len(),
                                seen@ == s0.push(copy),
                                views(seen@) == views(s0).push(name@),
                                (unseen(st, views(seen@)) < unseen(st, views(s0))),
                                reached == closure_in_fields(st, fields@.take(j as int), views(s0).push(name@)),
                            decreases fields.len() - j,
                        {
                            proof {
                                assert(fields@.take(j + 1).drop_last() =~= fields@.take(j as int));
                            }
                            let field_ty = SemType::from_ast(&fields[j].ty);
                            if self.holds_a_closure(&field_ty, seen) {
                                reached = true;
                            }
                            j += 1;
                        }
                        assert(fields@.take(j as int) =~= fields@);
                        seen.pop();
                        assert(seen@ =~= s0);
                    }
                }
            }
            assert(reached == closure_via_name(st, inner@[k as int]@, views(s0)));
            if reached {
                found = true;
            }
            k += 1;
        }
        assert(inner_stypes(ty@).take(k as int) =~= inner_stypes(ty@));
        found
    }
}

} // verus!

//! Walking a written type, and asking what names it mentions.
//!
//! Several checks need to know whether a declared type names one of a
//! definition's generic parameters. The test walks the type and compares
//! whole names: `String` does not mention `S`, and `I64` does not mention
//! `I`.

use vstd::prelude::*;
use crate::ast::{ParamConvention, TupleTypeField, Type};
use crate::text::{list_contains, str_equals, views};

verus! {

broadcast use vstd::std_specs::vec::group_vec_axioms;

/// Every type name written inside `t`, in source order.
pub open spec fn named_types(t: Type) -> Seq<Seq<char>>
    decreases t,
{
    match t {
        Type::Primitive(_) => seq![],
        Type::Ident(id) => seq![id.name@],
        Type::Array(e) => named_types(*e),
        Type::Optional(e) => named_types(*e),
        Type::Tuple(fields) => named_types_fields(fields@),
        Type::Generic { name, args, .. } => seq![name.name@] + named_types_args(args@),
        Type::Dictionary { key, value } => named_types(*key) + named_types(*value),
        Type::Closure { params, ret } => named_types_params(params@) + named_types(*ret),
    }
}

pub open spec fn named_types_args(s: Seq<Type>) -> Seq<Seq<char>>
    decreases s,
{
    if s.len() == 0 { seq![] } else { named_types_args(s.drop_last()) + named_types(s.last()) }
}

pub open spec fn named_types_fields(s: Seq<TupleTypeField>) -> Seq<Seq<char>>
    decreases s,
{
    if s.len() == 0 { seq![] } else { named_types_fields(s.drop_last()) + named_types(s.last().ty) }
}

pub open spec fn named_types_params(s: Seq<(ParamConvention, Type)>) -> Seq<Seq<char>>
    decreases s,
{
    if s.len() == 0 { seq![] } else { named_types_params(s.drop_last()) + named_types(s.last().1) }
}

/// Each name that stands as the key of a dictionary type inside `t`:
/// `K` in `[K: V]` and in `Dictionary<K, V>`, outermost first.
pub open spec fn key_name_list(t: Type) -> Seq<Seq<char>>
    decreases t,
{
    match t {
        Type::Dictionary { key, value } => (match *key {
            Type::Ident(id) => seq![id.name@],
            _ => Seq::<Seq<char>>::empty(),
        }) + key_name_list(*key) + key_name_list(*value),
        Type::Generic { name, args, .. } => (if name.name@ == "Dictionary"@ && args@.len() > 0 {
            match args@[0] {
                Type::Ident(id) => seq![id.name@],
                _ => Seq::<Seq<char>>::empty(),
            }
        } else {
            Seq::<Seq<char>>::empty()
        }) + key_name_list_args(args@),
        Type::Array(e) => key_name_list(*e),
        Type::Optional(e) => key_name_list(*e),
        Type::Tuple(fields) => key_name_list_fields(fields@),
        Type::Closure { params, ret } => key_name_list_params(params@) + key_name_list(*ret),
        Type::Ident(_) => seq![],
        Type::Primitive(_) => seq![],
    }
}

pub open spec fn key_name_list_args(s: Seq<Type>) -> Seq<Seq<char>>
    decreases s,
{
    if s.len() == 0 { seq![] } else { key_name_list_args(s.drop_last()) + key_name_list(s.last()) }
}

pub open spec fn key_name_list_fields(s: Seq<TupleTypeField>) -> Seq<Seq<char>>
    decreases s,
{
    if s.len() == 0 { seq![] } else { key_name_list_fields(s.drop_last()) + key_name_list(s.last().ty) }
}

pub open spec fn key_name_list_params(s: Seq<(ParamConvention, Type)>) -> Seq<Seq<char>>
    decreases s,
{
    if s.len() == 0 { seq![] } else { key_name_list_params(s.drop_last()) + key_name_list(s.last().1) }
}

/// Append each name that stands as the key of a dictionary type inside
/// `ty` to `out`, outermost first.
pub fn for_each_key_name(ty: &Type, out: &mut Vec<String>)
    ensures
        views(final(out)@) == views(old(out)@) + key_name_list(*ty),
    decreases *ty,
{
    let ghost t0 = *ty;
    let ghost o0 = views(out@);
    match ty {
        Type::Dictionary { key, value } => {
            if let Type::Ident(id) = &**key {
                out.push(id.name.clone());
            }
            let ghost o1 = views(out@);
            assert(o1 =~= o0 + match **key {
                Type::Ident(id) => seq![id.name@],
                _ => Seq::<Seq<char>>::empty(),
            });
            for_each_key_name(key, out);
            for_each_key_name(value, out);
            assert(views(out@) =~= o0 + key_name_list(t0));
        },
        Type::Generic { name, args, .. } => {
            if str_equals(name.name.as_str(), "Dictionary") && args.len() > 0 {
                if let Type::Ident(id) = &args[0] {
                    out.push(id.name.clone());
                }
            }
            let ghost o1 = views(out@);
            let ghost head = if name.name@ == "Dictionary"@ && args@.len() > 0 {
                match args@[0] {
                    Type::Ident(id) => seq![id.name@],
                    _ => Seq::<Seq<char>>::empty(),
                }
            } else {
                Seq::<Seq<char>>::empty()
            };
            assert(o1 =~= o0 + head);
            let mut i: usize = 0;
            while i < args.len()
                invariant
                    i <= args@.len(),
                    views(out@) == o1 + key_name_list_args(args@.take(i as int)),
                decreases args.len() - i,
            {
                proof {
                    assert(decreases_to!(t0 => t0->args@));
                    assert(decreases_to!(t0->args@ => t0->args@[i as int]));
                    assert(args@.take(i + 1).drop_last() =~= args@.take(i as int));
                }
                for_each_key_name(&args[i], out);
                assert(views(out@) =~= o1 + key_name_list_args(args@.take(i + 1)));
                i += 1;
            }
            assert(args@.take(i as int) =~= args@);
            assert(views(out@) =~= o0 + key_name_list(t0));
        },
        Type::Array(e) => for_each_key_name(e, out),
        Type::Optional(e) => for_each_key_name(e, out),
        Type::Tuple(fields) => {
            let mut i: usize = 0;
            while i < fields.len()
                invariant
                    i <= fields@.len(),
                    views(out@) == o0 + key_name_list_fields(fields@.take(i as int)),
                decreases fields.len() - i,
            {
                proof {
                    assert(decreases_to!(t0 => t0->Tuple_0@));
                    assert(decreases_to!(t0->Tuple_0@ => t0->Tuple_0@[i as int]));
                    assert(fields@.take(i + 1).drop_last() =~= fields@.take(i as int));
                }
                for_each_key_name(&fields[i].ty, out);
                assert(views(out@) =~= o0 + key_name_list_fields(fields@.take(i + 1)));
                i += 1;
            }
            assert(fields@.take(i as int) =~= fields@);
        },
        Type::Closure { params, ret } => {
            let mut i: usize = 0;
            while i < params.len()
                invariant
                    i <= params@.len(),
                    views(out@) == o0 + key_name_list_params(params@.take(i as int)),
                decreases params.len() - i,
            {
                proof {
                    assert(decreases_to!(t0 => t0->params@));
                    assert(decreases_to!(t0->params@ => t0->params@[i as int]));
                    assert(params@.take(i + 1).drop_last() =~= params@.take(i as int));
                }
                for_each_key_name(&params[i].1, out);
                assert(views(out@) =~= o0 + key_name_list_params(params@.take(i + 1)));
                i += 1;
            }
            assert(params@.take(i as int) =~= params@);
            for_each_key_name(ret, out);
            assert(views(out@) =~= o0 + key_name_list(t0));
        },
        Type::Ident(_) | Type::Primitive(_) => {
            assert(views(out@) =~= o0 + key_name_list(t0));
        },
    }
}

/// True when `t` names one of `names` as a whole name.
pub open spec fn mentions_any(t: Type, names: Seq<Seq<char>>) -> bool {
    exists|i: int| 0 <= i < named_types(t).len() && names.contains(#[trigger] named_types(t)[i])
}

/// Append every type name written inside `ty` to `out`, in source order.
pub fn for_each_named_type(ty: &Type, out: &mut Vec<String>)
    ensures
        views(final(out)@) == views(old(out)@) + named_types(*ty),
    decreases *ty,
{
    let ghost t0 = *ty;
    let ghost o0 = views(out@);
    match ty {
        Type::Primitive(_) => {
            assert(views(out@) =~= o0 + named_types(t0));
        },
        Type::Ident(id) => {
            out.push(id.name.clone());
            assert(views(out@) =~= o0 + named_types(t0));
        },
        Type::Array(e) => for_each_named_type(e, out),
        Type::Optional(e) => for_each_named_type(e, out),
        Type::Tuple(fields) => {
            let mut i: usize = 0;
            while i < fields.len()
                invariant
                    i <= fields@.len(),
                    views(out@) == o0 + named_types_fields(fields@.take(i as int)),
                decreases fields.len() - i,
            {
                proof {
                    assert(decreases_to!(t0 => t0->Tuple_0@));
                    assert(decreases_to!(t0->Tuple_0@ => t0->Tuple_0@[i as int]));
                    assert(fields@.take(i + 1).drop_last() =~= fields@.take(i as int));
                }
                for_each_named_type(&fields[i].ty, out);
                assert(views(out@) =~= o0 + named_types_fields(fields@.take(i + 1)));
                i += 1;
            }
            assert(fields@.take(i as int) =~= fields@);
        },
        Type::Generic { name, args, .. } => {
            out.push(name.name.clone());
            assert(views(out@) =~= o0 + seq![name.name@]);
            let mut i: usize = 0;
            while i < args.len()
                invariant
                    i <= args@.len(),
                    views(out@) == o0 + seq![name.name@] + named_types_args(args@.take(i as int)),
                decreases args.len() - i,
            {
                proof {
                    assert(decreases_to!(t0 => t0->args@));
                    assert(decreases_to!(t0->args@ => t0->args@[i as int]));
                    assert(args@.take(i + 1).drop_last() =~= args@.take(i as int));
                }
                for_each_named_type(&args[i], out);
                assert(views(out@) =~= o0 + seq![name.name@] + named_types_args(args@.take(i + 1)));
                i += 1;
            }
            assert(args@.take(i as int) =~= args@);
            assert(views(out@) =~= o0 + named_types(t0));
        },
        Type::Dictionary { key, value } => {
            for_each_named_type(key, out);
            for_each_named_type(value, out);
            assert(views(out@) =~= o0 + named_types(t0));
        },
        Type::Closure { params, ret } => {
            let mut i: usize = 0;
            while i < params.len()
                invariant
                    i <= params@.len(),
                    views(out@) == o0 + named_types_params(params@.take(i as int)),
                decreases params.len() - i,
            {
                proof {
                    assert(decreases_to!(t0 => t0->params@));
                    assert(decreases_to!(t0->params@ => t0->params@[i as int]));
                    assert(params@.take(i + 1).drop_last() =~= params@.take(i as int));
                }
                for_each_named_type(&params[i].1, out);
                assert(views(out@) =~= o0 + named_types_params(params@.take(i + 1)));
                i += 1;
            }
            assert(params@.take(i as int) =~= params@);
            for_each_named_type(ret, out);
            assert(views(out@) =~= o0 + named_types(t0));
        },
    }
}

/// Whether `ty` names any of `names`, as a whole name rather than as a
/// substring of a longer one.
pub fn type_mentions_any(ty: &Type, names: &Vec<String>) -> (r: bool)
    ensures
        r == mentions_any(*ty, views(names@)),
{
    let mut found: Vec<String> = Vec::new();
    for_each_named_type(ty, &mut found);
    assert(views(found@) =~= named_types(*ty));
    let mut i: usize = 0;
    while i < found.len()
        invariant
            i <= found@.len(),
            views(found@) == named_types(*ty),
            forall|j: int| 0 <= j < i ==> !views(names@).contains(#[trigger] named_types(*ty)[j]),
        decreases found.len() - i,
    {
        if list_contains(names, found[i].as_str()) {
            assert(views(names@).contains(named_types(*ty)[i as int]));
            return true;
        }
        i += 1;
    }
    false
}

} // verus!

//! The type arguments of a generic enum, and a type with them put in for
//! the enum's type parameters.

use vstd::prelude::*;
use crate::analyzer::SemanticAnalyzer;
use crate::ast::ParamConvention;
use crate::sem_type::{view_args, view_fields, view_params, SType, SemType};
use crate::type_validation::generics_of;

verus! {

broadcast use vstd::std_specs::vec::group_vec_axioms;

/// `t` with each `Named(name)` replaced by `with`.
pub open spec fn substituted(t: SType, name: Seq<char>, with: SType) -> SType
    decreases t,
{
    match t {
        SType::Named(n) => if n == name { with } else { t },
        SType::Array(e) => SType::Array(Box::new(substituted(*e, name, with))),
        SType::Optional(e) => SType::Optional(Box::new(substituted(*e, name, with))),
        SType::Tuple(fields) => SType::Tuple(substituted_fields(fields, name, with)),
        SType::Generic { base, args } => SType::Generic { base, args: substituted_list(args, name, with) },
        SType::Dictionary { key, value } => SType::Dictionary {
            key: Box::new(substituted(*key, name, with)),
            value: Box::new(substituted(*value, name, with)),
        },
        SType::Closure { params, return_ty } => SType::Closure {
            params: substituted_params(params, name, with),
            return_ty: Box::new(substituted(*return_ty, name, with)),
        },
        _ => t,
    }
}

pub open spec fn substituted_list(s: Seq<SType>, name: Seq<char>, with: SType) -> Seq<SType>
    decreases s,
{
    if s.len() == 0 { seq![] } else { substituted_list(s.drop_last(), name, with).push(substituted(s.last(), name, with)) }
}

pub open spec fn substituted_fields(s: Seq<(Seq<char>, SType)>, name: Seq<char>, with: SType) -> Seq<(Seq<char>, SType)>
    decreases s,
{
    if s.len() == 0 {
        seq![]
    } else {
        substituted_fields(s.drop_last(), name, with).push((s.last().0, substituted(s.last().1, name, with)))
    }
}

pub open spec fn substituted_params(s: Seq<(ParamConvention, SType)>, name: Seq<char>, with: SType) -> Seq<(ParamConvention, SType)>
    decreases s,
{
    if s.len() == 0 {
        seq![]
    } else {
        substituted_params(s.drop_last(), name, with).push((s.last().0, substituted(s.last().1, name, with)))
    }
}

/// `t` with the `i`-th of `names` replaced by the `i`-th of `args`, one
/// after the other, for as many as both have.
pub open spec fn substituted_all(t: SType, names: Seq<Seq<char>>, args: Seq<SType>) -> SType
    decreases names.len(),
{
    if names.len() == 0 || args.len() == 0 {
        t
    } else {
        substituted_all(substituted(t, names[0], args[0]), names.drop_first(), args.drop_first())
    }
}

/// The type arguments that `t` gives the enum `name`, also inside an
/// optional.
pub open spec fn enum_args_in(t: SType, name: Seq<char>) -> Option<Seq<SType>>
    decreases t,
{
    match t {
        SType::Optional(inner) => enum_args_in(*inner, name),
        SType::Generic { base, args } => if base == name { Some(args) } else { None },
        _ => None,
    }
}

impl SemType {
    /// This type with each `Named(name)` replaced by `with`.
    pub fn substitute_named(&self, name: &str, with: &SemType) -> (r: SemType)
        ensures
            r@ == substituted(self@, name@, with@),
        decreases *self,
    {
        let ghost t0 = *self;
        match self {
            SemType::Named(n) => {
                if crate::text::str_equals(n.as_str(), name) {
                    with.duplicate()
                } else {
                    SemType::Named(n.clone())
                }
            },
            SemType::Array(e) => SemType::Array(Box::new(e.substitute_named(name, with))),
            SemType::Optional(e) => SemType::Optional(Box::new(e.substitute_named(name, with))),
            SemType::Tuple(fields) => {
                let mut out: Vec<(String, SemType)> = Vec::new();
                let mut i: usize = 0;
                while i < fields.len()
                    invariant
                        i <= fields@.len(),
                        view_fields(out@) == substituted_fields(view_fields(fields@.take(i as int)), name@, with@),
                    decreases fields.len() - i,
                {
                    proof {
                        assert(decreases_to!(t0 => t0->Tuple_0@));
                        assert(decreases_to!(t0->Tuple_0@ => t0->Tuple_0@[i as int]));
                        assert(fields@.take(i + 1).drop_last() =~= fields@.take(i as int));
                        assert(view_fields(fields@.take(i + 1)).drop_last() =~= view_fields(fields@.take(i as int)));
                    }
                    let ghost before = out@;
                    let item = (fields[i].0.clone(), fields[i].1.substitute_named(name, with));
                    out.push(item);
                    assert(out@.drop_last() =~= before);
                    i += 1;
                }
                assert(fields@.take(i as int) =~= fields@);
                SemType::Tuple(out)
            },
            SemType::Generic { base, args } => {
                let mut out: Vec<SemType> = Vec::new();
                let mut i: usize = 0;
                while i < args.len()
                    invariant
                        i <= args@.len(),
                        view_args(out@) == substituted_list(view_args(args@.take(i as int)), name@, with@),
                    decreases args.len() - i,
                {
                    proof {
                        assert(decreases_to!(t0 => t0->args@));
                        assert(decreases_to!(t0->args@ => t0->args@[i as int]));
                        assert(args@.take(i + 1).drop_last() =~= args@.take(i as int));
                        assert(view_args(args@.take(i + 1)).drop_last() =~= view_args(args@.take(i as int)));
                    }
                    let ghost before = out@;
                    let item = args[i].substitute_named(name, with);
                    out.push(item);
                    assert(out@.drop_last() =~= before);
                    i += 1;
                }
                assert(args@.take(i as int) =~= args@);
                SemType::Generic { base: base.clone(), args: out }
            },
            SemType::Dictionary { key, value } => SemType::Dictionary {
                key: Box::new(key.substitute_named(name, with)),
                value: Box::new(value.substitute_named(name, with)),
            },
            SemType::Closure { params, return_ty } => {
                let mut out: Vec<(ParamConvention, SemType)> = Vec::new();
                let mut i: usize = 0;
                while i < params.len()
                    invariant
                        i <= params@.len(),
                        view_params(out@) == substituted_params(view_params(params@.take(i as int)), name@, with@),
                    decreases params.len() - i,
                {
                    proof {
                        assert(decreases_to!(t0 => t0->params@));
                        assert(decreases_to!(t0->params@ => t0->params@[i as int]));
                        assert(params@.take(i + 1).drop_last() =~= params@.take(i as int));
                        assert(view_params(params@.take(i + 1)).drop_last() =~= view_params(params@.take(i as int)));
                    }
                    let ghost before = out@;
                    let item = (params[i].0, params[i].1.substitute_named(name, with));
                    out.push(item);
                    assert(out@.drop_last() =~= before);
                    i += 1;
                }
                assert(params@.take(i as int) =~= params@);
                SemType::Closure { params: out, return_ty: Box::new(return_ty.substitute_named(name, with)) }
            },
            SemType::Primitive(p) => SemType::Primitive(*p),
            SemType::Unknown => SemType::Unknown,
            SemType::InferredEnum => SemType::InferredEnum,
            SemType::Nil => SemType::Nil,
        }
    }
}

impl SemanticAnalyzer {
    /// The type arguments that `expected` gives the enum `enum_name`:
    /// `[String, I32]` for `Result<String, I32>`, also inside an optional.
    pub fn enum_type_args(expected: &SemType, enum_name: &str) -> (r: Option<Vec<SemType>>)
        ensures
            r is Some <==> enum_args_in(expected@, enum_name@) is Some,
            r matches Some(v) ==> enum_args_in(expected@, enum_name@) == Some(view_args(v@)),
        decreases *expected,
    {
        match expected {
            SemType::Optional(inner) => Self::enum_type_args(inner, enum_name),
            SemType::Generic { base, args } => {
                if crate::text::str_equals(base.as_str(), enum_name) {
                    let mut out: Vec<SemType> = Vec::new();
                    let mut i: usize = 0;
                    while i < args.len()
                        invariant
                            i <= args@.len(),
                            view_args(out@) == view_args(args@.take(i as int)),
                        decreases args.len() - i,
                    {
                        proof {
                            assert(args@.take(i + 1).drop_last() =~= args@.take(i as int));
                        }
                        let ghost before = out@;
                        out.push(args[i].duplicate());
                        assert(out@.drop_last() =~= before);
                        i += 1;
                    }
                    assert(args@.take(i as int) =~= args@);
                    Some(out)
                } else {
                    None
                }
            },
            _ => None,
        }
    }

    /// `ty` with the type parameters of the enum `enum_name` read as
    /// `type_args` give them, in order; unchanged without type arguments.
    pub fn with_enum_type_args(&self, enum_name: &str, ty: SemType, type_args: Option<&Vec<SemType>>) -> (r: SemType)
        ensures
            r@ == match type_args {
                None => ty@,
                Some(args) => substituted_all(ty@, match generics_of(self.symbols, enum_name@) {
                    Some(g) => g,
                    None => Seq::<Seq<char>>::empty(),
                }, view_args(args@)),
            },
    {
        let args = match type_args {
            None => {
                return ty;
            },
            Some(args) => args,
        };
        let generics: &Vec<String> = match self.symbols.get_struct(enum_name) {
            Some(s) => &s.generics,
            None => match self.symbols.get_enum(enum_name) {
                Some(e) => &e.generics,
                None => {
                    let empty: Vec<String> = Vec::new();
                    proof {
                        crate::sem_type::lemma_view_args_len(args@);
                    }
                    assert(substituted_all(ty@, Seq::<Seq<char>>::empty(), view_args(args@)) == ty@);
                    return ty;
                },
            },
        };
        let ghost names = crate::text::views(generics@);
        let ghost all_args = view_args(args@);
        proof { crate::sem_type::lemma_view_args_len(args@); }
        let mut acc = ty;
        let mut i: usize = 0;
        assert(names.skip(0) =~= names);
        assert(all_args.skip(0) =~= all_args);
        while i < generics.len() && i < args.len()
            invariant
                i <= generics@.len(),
                i <= args@.len(),
                all_args.len() == args@.len(),
                names == crate::text::views(generics@),
                all_args == view_args(args@),
                substituted_all(ty@, names, all_args) == substituted_all(acc@, names.skip(i as int), all_args.skip(i as int)),
            decreases generics.len() - i,
        {
            proof {
                crate::sem_type::lemma_view_args_index(args@, i as int);
                assert(names.skip(i as int)[0] == generics@[i as int]@);
                assert(all_args.skip(i as int)[0] == args@[i as int]@);
                assert(names.skip(i as int).drop_first() =~= names.skip(i + 1));
                assert(all_args.skip(i as int).drop_first() =~= all_args.skip(i + 1));
            }
            acc = acc.substitute_named(generics[i].as_str(), &args[i]);
            i += 1;
        }
        proof {
            if i == generics.len() {
                assert(names.skip(i as int).len() == 0);
            } else {
                assert(all_args.skip(i as int).len() == 0);
            }
        }
        acc
    }
}

} // verus!

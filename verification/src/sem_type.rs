//! The semantic type of an expression or a declaration, and its
//! mathematical view.

use vstd::prelude::*;
use vstd::string::StringExecFns;
use crate::ast::{ParamConvention, PrimitiveType, Type, TupleTypeField};

verus! {

broadcast use vstd::std_specs::vec::group_vec_axioms;

/// A type as the checks compare them.
#[derive(Debug)]
pub enum SemType {
    Primitive(PrimitiveType),
    /// A struct, an enum, a trait or a type parameter, by name.
    Named(String),
    Array(Box<SemType>),
    Optional(Box<SemType>),
    /// The fields of a tuple, each with its label (empty when it has none).
    Tuple(Vec<(String, SemType)>),
    Generic { base: String, args: Vec<SemType> },
    Dictionary { key: Box<SemType>, value: Box<SemType> },
    Closure { params: Vec<(ParamConvention, SemType)>, return_ty: Box<SemType> },
    /// A type that this pass cannot compute.
    Unknown,
    /// The type of `.variant` before the context names its enum.
    InferredEnum,
    /// The type of `nil`.
    Nil,
}

/// The mathematical view of a [`SemType`]: names become character
/// sequences and lists become sequences.
pub ghost enum SType {
    Primitive(PrimitiveType),
    Named(Seq<char>),
    Array(Box<SType>),
    Optional(Box<SType>),
    Tuple(Seq<(Seq<char>, SType)>),
    Generic { base: Seq<char>, args: Seq<SType> },
    Dictionary { key: Box<SType>, value: Box<SType> },
    Closure { params: Seq<(ParamConvention, SType)>, return_ty: Box<SType> },
    Unknown,
    InferredEnum,
    Nil,
}

pub open spec fn view_args(s: Seq<SemType>) -> Seq<SType>
    decreases s,
{
    if s.len() == 0 { seq![] } else { view_args(s.drop_last()).push(view_type(s.last())) }
}

pub open spec fn view_fields(s: Seq<(String, SemType)>) -> Seq<(Seq<char>, SType)>
    decreases s,
{
    if s.len() == 0 {
        seq![]
    } else {
        view_fields(s.drop_last()).push((s.last().0@, view_type(s.last().1)))
    }
}

pub open spec fn view_params(s: Seq<(ParamConvention, SemType)>) -> Seq<(ParamConvention, SType)>
    decreases s,
{
    if s.len() == 0 {
        seq![]
    } else {
        view_params(s.drop_last()).push((s.last().0, view_type(s.last().1)))
    }
}

pub open spec fn view_type(t: SemType) -> SType
    decreases t,
{
    match t {
        SemType::Primitive(p) => SType::Primitive(p),
        SemType::Named(n) => SType::Named(n@),
        SemType::Array(e) => SType::Array(Box::new(view_type(*e))),
        SemType::Optional(e) => SType::Optional(Box::new(view_type(*e))),
        SemType::Tuple(fields) => SType::Tuple(view_fields(fields@)),
        SemType::Generic { base, args } => SType::Generic { base: base@, args: view_args(args@) },
        SemType::Dictionary { key, value } => SType::Dictionary {
            key: Box::new(view_type(*key)),
            value: Box::new(view_type(*value)),
        },
        SemType::Closure { params, return_ty } => SType::Closure {
            params: view_params(params@),
            return_ty: Box::new(view_type(*return_ty)),
        },
        SemType::Unknown => SType::Unknown,
        SemType::InferredEnum => SType::InferredEnum,
        SemType::Nil => SType::Nil,
    }
}

impl View for SemType {
    type V = SType;

    open spec fn view(&self) -> SType {
        view_type(*self)
    }
}

pub proof fn lemma_view_args_index(s: Seq<SemType>, i: int)
    requires
        0 <= i < s.len(),
    ensures
        view_args(s).len() == s.len(),
        view_args(s)[i] == view_type(s[i]),
    decreases s.len(),
{
    if i < s.len() - 1 {
        lemma_view_args_index(s.drop_last(), i);
    } else {
        lemma_view_args_len(s.drop_last());
    }
}

pub proof fn lemma_view_args_len(s: Seq<SemType>)
    ensures
        view_args(s).len() == s.len(),
    decreases s.len(),
{
    if s.len() > 0 {
        lemma_view_args_len(s.drop_last());
    }
}

pub proof fn lemma_view_fields_index(s: Seq<(String, SemType)>, i: int)
    requires
        0 <= i < s.len(),
    ensures
        view_fields(s).len() == s.len(),
        view_fields(s)[i] == (s[i].0@, view_type(s[i].1)),
    decreases s.len(),
{
    lemma_view_fields_len(s);
    if i < s.len() - 1 {
        lemma_view_fields_index(s.drop_last(), i);
    }
}

pub proof fn lemma_view_fields_len(s: Seq<(String, SemType)>)
    ensures
        view_fields(s).len() == s.len(),
    decreases s.len(),
{
    if s.len() > 0 {
        lemma_view_fields_len(s.drop_last());
    }
}

pub proof fn lemma_view_params_index(s: Seq<(ParamConvention, SemType)>, i: int)
    requires
        0 <= i < s.len(),
    ensures
        view_params(s).len() == s.len(),
        view_params(s)[i] == (s[i].0, view_type(s[i].1)),
    decreases s.len(),
{
    lemma_view_params_len(s);
    if i < s.len() - 1 {
        lemma_view_params_index(s.drop_last(), i);
    }
}

pub proof fn lemma_view_params_len(s: Seq<(ParamConvention, SemType)>)
    ensures
        view_params(s).len() == s.len(),
    decreases s.len(),
{
    if s.len() > 0 {
        lemma_view_params_len(s.drop_last());
    }
}

/// The semantic type that a written type denotes.
pub open spec fn sem_of(t: Type) -> SType
    decreases t,
{
    match t {
        Type::Primitive(p) => SType::Primitive(p),
        Type::Ident(id) => SType::Named(id.name@),
        Type::Generic { name, args, .. } => SType::Generic { base: name.name@, args: sem_of_args(args@) },
        Type::Array(e) => SType::Array(Box::new(sem_of(*e))),
        Type::Optional(e) => SType::Optional(Box::new(sem_of(*e))),
        Type::Tuple(fields) => SType::Tuple(sem_of_fields(fields@)),
        Type::Dictionary { key, value } => SType::Dictionary {
            key: Box::new(sem_of(*key)),
            value: Box::new(sem_of(*value)),
        },
        Type::Closure { params, ret } => SType::Closure {
            params: sem_of_params(params@),
            return_ty: Box::new(sem_of(*ret)),
        },
    }
}

pub open spec fn sem_of_args(s: Seq<Type>) -> Seq<SType>
    decreases s,
{
    if s.len() == 0 { seq![] } else { sem_of_args(s.drop_last()).push(sem_of(s.last())) }
}

/// A tuple field's label, or the empty name when it has none.
pub open spec fn field_label(f: TupleTypeField) -> Seq<char> {
    match f.name {
        Some(n) => n.name@,
        None => seq![],
    }
}

pub open spec fn sem_of_fields(s: Seq<TupleTypeField>) -> Seq<(Seq<char>, SType)>
    decreases s,
{
    if s.len() == 0 {
        seq![]
    } else {
        sem_of_fields(s.drop_last()).push((field_label(s.last()), sem_of(s.last().ty)))
    }
}

pub open spec fn sem_of_params(s: Seq<(ParamConvention, Type)>) -> Seq<(ParamConvention, SType)>
    decreases s,
{
    if s.len() == 0 {
        seq![]
    } else {
        sem_of_params(s.drop_last()).push((s.last().0, sem_of(s.last().1)))
    }
}

impl SemType {
    /// True when this type and `other` are the same type.
    pub fn same_as(&self, other: &SemType) -> (r: bool)
        ensures
            r == (self@ == other@),
        decreases *self,
    {
        let ghost t0 = *self;
        match (self, other) {
            (SemType::Primitive(p), SemType::Primitive(q)) => *p == *q,
            (SemType::Named(n), SemType::Named(m)) => crate::text::str_equals(n.as_str(), m.as_str()),
            (SemType::Array(e), SemType::Array(f)) => e.same_as(f),
            (SemType::Optional(e), SemType::Optional(f)) => e.same_as(f),
            (SemType::Tuple(fs), SemType::Tuple(gs)) => {
                proof {
                    lemma_view_fields_len(fs@);
                    lemma_view_fields_len(gs@);
                }
                if fs.len() != gs.len() {
                    return false;
                }
                let mut i: usize = 0;
                while i < fs.len()
                    invariant
                        i <= fs@.len() == gs@.len(),
                        forall|j: int| 0 <= j < i ==> (#[trigger] fs@[j]).0@ == gs@[j].0@ && view_type(fs@[j].1) == view_type(gs@[j].1),
                    decreases fs.len() - i,
                {
                    proof {
                        assert(decreases_to!(t0 => t0->Tuple_0@));
                        assert(decreases_to!(t0->Tuple_0@ => t0->Tuple_0@[i as int]));
                    }
                    if !crate::text::str_equals(fs[i].0.as_str(), gs[i].0.as_str()) || !fs[i].1.same_as(&gs[i].1) {
                        proof {
                            lemma_view_fields_index(fs@, i as int);
                            lemma_view_fields_index(gs@, i as int);
                            assert(view_fields(fs@)[i as int] != view_fields(gs@)[i as int]);
                        }
                        return false;
                    }
                    i += 1;
                }
                proof {
                    assert forall|j: int| 0 <= j < fs@.len() implies view_fields(fs@)[j] == view_fields(gs@)[j] by {
                        lemma_view_fields_index(fs@, j);
                        lemma_view_fields_index(gs@, j);
                    }
                    assert(view_fields(fs@) =~= view_fields(gs@));
                }
                true
            },
            (SemType::Generic { base, args }, SemType::Generic { base: b2, args: a2 }) => {
                proof {
                    lemma_view_args_len(args@);
                    lemma_view_args_len(a2@);
                }
                if !crate::text::str_equals(base.as_str(), b2.as_str()) || args.len() != a2.len() {
                    return false;
                }
                let mut i: usize = 0;
                while i < args.len()
                    invariant
                        i <= args@.len() == a2@.len(),
                        forall|j: int| 0 <= j < i ==> view_type(#[trigger] args@[j]) == view_type(a2@[j]),
                    decreases args.len() - i,
                {
                    proof {
                        assert(decreases_to!(t0 => t0->args@));
                        assert(decreases_to!(t0->args@ => t0->args@[i as int]));
                    }
                    if !args[i].same_as(&a2[i]) {
                        proof {
                            lemma_view_args_index(args@, i as int);
                            lemma_view_args_index(a2@, i as int);
                            assert(view_args(args@)[i as int] != view_args(a2@)[i as int]);
                        }
                        return false;
                    }
                    i += 1;
                }
                proof {
                    assert forall|j: int| 0 <= j < args@.len() implies view_args(args@)[j] == view_args(a2@)[j] by {
                        lemma_view_args_index(args@, j);
                        lemma_view_args_index(a2@, j);
                    }
                    assert(view_args(args@) =~= view_args(a2@));
                }
                true
            },
            (SemType::Dictionary { key, value }, SemType::Dictionary { key: k2, value: v2 }) => key.same_as(k2) && value.same_as(v2),
            (SemType::Closure { params, return_ty }, SemType::Closure { params: p2, return_ty: r2 }) => {
                proof {
                    lemma_view_params_len(params@);
                    lemma_view_params_len(p2@);
                }
                if params.len() != p2.len() {
                    return false;
                }
                let mut i: usize = 0;
                while i < params.len()
                    invariant
                        i <= params@.len() == p2@.len(),
                        forall|j: int| 0 <= j < i ==> (#[trigger] params@[j]).0 == p2@[j].0 && view_type(params@[j].1) == view_type(p2@[j].1),
                    decreases params.len() - i,
                {
                    proof {
                        assert(decreases_to!(t0 => t0->params@));
                        assert(decreases_to!(t0->params@ => t0->params@[i as int]));
                    }
                    if params[i].0 != p2[i].0 || !params[i].1.same_as(&p2[i].1) {
                        proof {
                            lemma_view_params_index(params@, i as int);
                            lemma_view_params_index(p2@, i as int);
                            assert(view_params(params@)[i as int] != view_params(p2@)[i as int]);
                        }
                        return false;
                    }
                    i += 1;
                }
                proof {
                    assert forall|j: int| 0 <= j < params@.len() implies view_params(params@)[j] == view_params(p2@)[j] by {
                        lemma_view_params_index(params@, j);
                        lemma_view_params_index(p2@, j);
                    }
                    assert(view_params(params@) =~= view_params(p2@));
                }
                return_ty.same_as(r2)
            },
            (SemType::Unknown, SemType::Unknown) => true,
            (SemType::InferredEnum, SemType::InferredEnum) => true,
            (SemType::Nil, SemType::Nil) => true,
            _ => false,
        }
    }
}

impl SemType {
    /// A copy of this type.
    pub fn duplicate(&self) -> (r: SemType)
        ensures
            r@ == self@,
        decreases *self,
    {
        let ghost t0 = *self;
        match self {
            SemType::Primitive(p) => SemType::Primitive(*p),
            SemType::Named(n) => SemType::Named(n.clone()),
            SemType::Array(e) => SemType::Array(Box::new(e.duplicate())),
            SemType::Optional(e) => SemType::Optional(Box::new(e.duplicate())),
            SemType::Tuple(fields) => {
                let mut out: Vec<(String, SemType)> = Vec::new();
                let mut i: usize = 0;
                while i < fields.len()
                    invariant
                        i <= fields.len(),
                        out@.len() == i,
                        view_fields(out@) == view_fields(fields@.take(i as int)),
                    decreases fields.len() - i,
                {
                    proof {
                        assert(decreases_to!(t0 => t0->Tuple_0@));
                        assert(decreases_to!(t0->Tuple_0@ => t0->Tuple_0@[i as int]));
                    }
                    let ghost before = out@;
                    let item = (fields[i].0.clone(), fields[i].1.duplicate());
                    out.push(item);
                    proof {
                        assert(out@.drop_last() =~= before);
                        assert(fields@.take(i + 1).drop_last() =~= fields@.take(i as int));
                    }
                    i += 1;
                }
                assert(fields@.take(i as int) =~= fields@);
                SemType::Tuple(out)
            },
            SemType::Generic { base, args } => {
                let mut out: Vec<SemType> = Vec::new();
                let mut i: usize = 0;
                while i < args.len()
                    invariant
                        i <= args.len(),
                        out@.len() == i,
                        view_args(out@) == view_args(args@.take(i as int)),
                    decreases args.len() - i,
                {
                    proof {
                        assert(decreases_to!(t0 => t0->args@));
                        assert(decreases_to!(t0->args@ => t0->args@[i as int]));
                    }
                    let ghost before = out@;
                    let item = args[i].duplicate();
                    out.push(item);
                    proof {
                        assert(out@.drop_last() =~= before);
                        assert(args@.take(i + 1).drop_last() =~= args@.take(i as int));
                    }
                    i += 1;
                }
                assert(args@.take(i as int) =~= args@);
                SemType::Generic { base: base.clone(), args: out }
            },
            SemType::Dictionary { key, value } => SemType::Dictionary {
                key: Box::new(key.duplicate()),
                value: Box::new(value.duplicate()),
            },
            SemType::Closure { params, return_ty } => {
                let mut out: Vec<(ParamConvention, SemType)> = Vec::new();
                let mut i: usize = 0;
                while i < params.len()
                    invariant
                        i <= params.len(),
                        out@.len() == i,
                        view_params(out@) == view_params(params@.take(i as int)),
                    decreases params.len() - i,
                {
                    proof {
                        assert(decreases_to!(t0 => t0->params@));
                        assert(decreases_to!(t0->params@ => t0->params@[i as int]));
                    }
                    let ghost before = out@;
                    let item = (params[i].0, params[i].1.duplicate());
                    out.push(item);
                    proof {
                        assert(out@.drop_last() =~= before);
                        assert(params@.take(i + 1).drop_last() =~= params@.take(i as int));
                    }
                    i += 1;
                }
                assert(params@.take(i as int) =~= params@);
                SemType::Closure { params: out, return_ty: Box::new(return_ty.duplicate()) }
            },
            SemType::Unknown => SemType::Unknown,
            SemType::InferredEnum => SemType::InferredEnum,
            SemType::Nil => SemType::Nil,
        }
    }

    /// The semantic type that the written type `ty` denotes.
    pub fn from_ast(ty: &Type) -> (r: SemType)
        ensures
            r@ == sem_of(*ty),
        decreases *ty,
    {
        let ghost t0 = *ty;
        match ty {
            Type::Primitive(p) => SemType::Primitive(*p),
            Type::Ident(id) => SemType::Named(id.name.clone()),
            Type::Generic { name, args, .. } => {
                let mut out: Vec<SemType> = Vec::new();
                let mut i: usize = 0;
                while i < args.len()
                    invariant
                        i <= args.len(),
                        out@.len() == i,
                        view_args(out@) == sem_of_args(args@.take(i as int)),
                    decreases args.len() - i,
                {
                    proof {
                        assert(decreases_to!(t0 => t0->args@));
                        assert(decreases_to!(t0->args@ => t0->args@[i as int]));
                    }
                    let ghost before = out@;
                    let item = SemType::from_ast(&args[i]);
                    out.push(item);
                    proof {
                        assert(out@.drop_last() =~= before);
                        assert(args@.take(i + 1).drop_last() =~= args@.take(i as int));
                    }
                    i += 1;
                }
                assert(args@.take(i as int) =~= args@);
                SemType::Generic { base: name.name.clone(), args: out }
            },
            Type::Array(e) => SemType::Array(Box::new(SemType::from_ast(e))),
            Type::Optional(e) => SemType::Optional(Box::new(SemType::from_ast(e))),
            Type::Tuple(fields) => {
                let mut out: Vec<(String, SemType)> = Vec::new();
                let mut i: usize = 0;
                while i < fields.len()
                    invariant
                        i <= fields.len(),
                        out@.len() == i,
                        view_fields(out@) == sem_of_fields(fields@.take(i as int)),
                    decreases fields.len() - i,
                {
                    proof {
                        assert(decreases_to!(t0 => t0->Tuple_0@));
                        assert(decreases_to!(t0->Tuple_0@ => t0->Tuple_0@[i as int]));
                    }
                    let ghost before = out@;
                    let label = match &fields[i].name {
                        Some(n) => n.name.clone(),
                        None => String::new(),
                    };
                    let item = (label, SemType::from_ast(&fields[i].ty));
                    out.push(item);
                    proof {
                        assert(out@.drop_last() =~= before);
                        assert(fields@.take(i + 1).drop_last() =~= fields@.take(i as int));
                    }
                    i += 1;
                }
                assert(fields@.take(i as int) =~= fields@);
                SemType::Tuple(out)
            },
            Type::Dictionary { key, value } => SemType::Dictionary {
                key: Box::new(SemType::from_ast(key)),
                value: Box::new(SemType::from_ast(value)),
            },
            Type::Closure { params, ret } => {
                let mut out: Vec<(ParamConvention, SemType)> = Vec::new();
                let mut i: usize = 0;
                while i < params.len()
                    invariant
                        i <= params.len(),
                        out@.len() == i,
                        view_params(out@) == sem_of_params(params@.take(i as int)),
                    decreases params.len() - i,
                {
                    proof {
                        assert(decreases_to!(t0 => t0->params@));
                        assert(decreases_to!(t0->params@ => t0->params@[i as int]));
                    }
                    let ghost before = out@;
                    let item = (params[i].0, SemType::from_ast(&params[i].1));
                    out.push(item);
                    proof {
                        assert(out@.drop_last() =~= before);
                        assert(params@.take(i + 1).drop_last() =~= params@.take(i as int));
                    }
                    i += 1;
                }
                assert(params@.take(i as int) =~= params@);
                SemType::Closure { params: out, return_ty: Box::new(SemType::from_ast(ret)) }
            },
        }
    }

    /// True for a type that says nothing yet: one this pass cannot
    /// compute, or a `.variant` whose enum the context has not named.
    pub fn is_indeterminate(&self) -> (r: bool)
        ensures
            r == (self@ is Unknown || self@ is InferredEnum),
    {
        match self {
            SemType::Unknown => true,
            SemType::InferredEnum => true,
            _ => false,
        }
    }

    /// True for the type that this pass cannot compute.
    pub fn is_unknown(&self) -> (r: bool)
        ensures
            r == (self@ is Unknown),
    {
        match self {
            SemType::Unknown => true,
            _ => false,
        }
    }
}

/// The name of a primitive type as the source writes it.
pub open spec fn primitive_name(p: PrimitiveType) -> Seq<char> {
    match p {
        PrimitiveType::String => "String"@,
        PrimitiveType::I32 => "I32"@,
        PrimitiveType::I64 => "I64"@,
        PrimitiveType::F32 => "F32"@,
        PrimitiveType::F64 => "F64"@,
        PrimitiveType::Boolean => "Boolean"@,
        PrimitiveType::Never => "Never"@,
    }
}

/// How a type reads in a diagnostic: `[I32]`, `String?`, `[String: I32]`,
/// `Box<T>`, `(x: I32, y: I32)`, `(I32) -> Boolean`.
pub open spec fn display_of(t: SType) -> Seq<char>
    decreases t,
{
    match t {
        SType::Primitive(p) => primitive_name(p),
        SType::Named(n) => n,
        SType::Array(e) => "["@ + display_of(*e) + "]"@,
        SType::Optional(e) => display_of(*e) + "?"@,
        SType::Tuple(fields) => "("@ + display_fields(fields) + ")"@,
        SType::Generic { base, args } => base + "<"@ + display_args(args) + ">"@,
        SType::Dictionary { key, value } => "["@ + display_of(*key) + ": "@ + display_of(*value) + "]"@,
        SType::Closure { params, return_ty } => "("@ + display_params(params) + ") -> "@ + display_of(*return_ty),
        SType::Unknown => "Unknown"@,
        SType::InferredEnum => "InferredEnum"@,
        SType::Nil => "Nil"@,
    }
}

pub open spec fn display_args(s: Seq<SType>) -> Seq<char>
    decreases s,
{
    if s.len() == 0 {
        seq![]
    } else if s.len() == 1 {
        display_of(s[0])
    } else {
        display_args(s.drop_last()) + ", "@ + display_of(s.last())
    }
}

/// A tuple field reads `label: T`, or `T` when it has no label.
pub open spec fn display_field(f: (Seq<char>, SType)) -> Seq<char>
    decreases f,
{
    if f.0.len() == 0 { display_of(f.1) } else { f.0 + ": "@ + display_of(f.1) }
}

pub open spec fn display_fields(s: Seq<(Seq<char>, SType)>) -> Seq<char>
    decreases s,
{
    if s.len() == 0 {
        seq![]
    } else if s.len() == 1 {
        display_field(s[0])
    } else {
        display_fields(s.drop_last()) + ", "@ + display_field(s.last())
    }
}

/// A closure parameter reads `T`, `mut T` or `sink T`.
pub open spec fn display_param(p: (ParamConvention, SType)) -> Seq<char>
    decreases p,
{
    match p.0 {
        ParamConvention::Let => display_of(p.1),
        ParamConvention::Mut => "mut "@ + display_of(p.1),
        ParamConvention::Sink => "sink "@ + display_of(p.1),
    }
}

pub open spec fn display_params(s: Seq<(ParamConvention, SType)>) -> Seq<char>
    decreases s,
{
    if s.len() == 0 {
        seq![]
    } else if s.len() == 1 {
        display_param(s[0])
    } else {
        display_params(s.drop_last()) + ", "@ + display_param(s.last())
    }
}

/// The name of a primitive type.
pub fn primitive_text(p: PrimitiveType) -> (r: &'static str)
    ensures
        r@ == primitive_name(p),
{
    match p {
        PrimitiveType::String => "String",
        PrimitiveType::I32 => "I32",
        PrimitiveType::I64 => "I64",
        PrimitiveType::F32 => "F32",
        PrimitiveType::F64 => "F64",
        PrimitiveType::Boolean => "Boolean",
        PrimitiveType::Never => "Never",
    }
}

impl SemType {
    /// How this type reads in a diagnostic.
    pub fn display(&self) -> (r: String)
        ensures
            r@ == display_of(self@),
        decreases *self,
    {
        let ghost t0 = *self;
        match self {
            SemType::Primitive(p) => String::from_str(primitive_text(*p)),
            SemType::Named(n) => n.clone(),
            SemType::Array(e) => {
                let mut r = String::from_str("[");
                r.append(e.display().as_str());
                r.append("]");
                r
            },
            SemType::Optional(e) => {
                let mut r = e.display();
                r.append("?");
                r
            },
            SemType::Tuple(fields) => {
                let mut r = String::from_str("(");
                let ghost r0 = r@;
                let ghost fv = view_fields(fields@);
                proof { lemma_view_fields_len(fields@); }
                let mut i: usize = 0;
                while i < fields.len()
                    invariant
                        i <= fields.len(),
                        fv == view_fields(fields@),
                        fv.len() == fields@.len(),
                        r@ == r0 + display_fields(fv.take(i as int)),
                    decreases fields.len() - i,
                {
                    proof {
                        assert(decreases_to!(t0 => t0->Tuple_0@));
                        assert(decreases_to!(t0->Tuple_0@ => t0->Tuple_0@[i as int]));
                        lemma_view_fields_index(fields@, i as int);
                        assert(fv.take(i + 1).drop_last() =~= fv.take(i as int));
                        assert(fv.take(i + 1).last() == fv[i as int]);
                        if i == 0 {
                            assert(fv.take(1)[0] == fv[0]);
                        }
                    }
                    let ghost before = r@;
                    if i > 0 {
                        r.append(", ");
                    }
                    let ghost mid = r@;
                    if fields[i].0.as_str().unicode_len() > 0 {
                        r.append(fields[i].0.as_str());
                        r.append(": ");
                    }
                    r.append(fields[i].1.display().as_str());
                    proof {
                        let f = fv[i as int];
                        assert(f == (fields@[i as int].0@, view_type(fields@[i as int].1)));
                        assert(display_field(f) == if f.0.len() == 0 { display_of(f.1) } else { f.0 + ": "@ + display_of(f.1) });
                        assert(r@ =~= mid + display_field(f));
                        if i == 0 {
                            assert(display_fields(fv.take(1)) == display_field(fv.take(1)[0]));
                        } else {
                            assert(display_fields(fv.take(i + 1)) == display_fields(fv.take(i as int)) + ", "@ + display_field(f));
                        }
                        assert(r@ =~= r0 + display_fields(fv.take(i + 1)));
                    }
                    i += 1;
                }
                assert(fv.take(i as int) =~= fv);
                r.append(")");
                r
            },
            SemType::Generic { base, args } => {
                let mut r = base.clone();
                r.append("<");
                let ghost r0 = r@;
                let ghost av = view_args(args@);
                proof { lemma_view_args_len(args@); }
                let mut i: usize = 0;
                while i < args.len()
                    invariant
                        i <= args.len(),
                        av == view_args(args@),
                        av.len() == args@.len(),
                        r@ == r0 + display_args(av.take(i as int)),
                    decreases args.len() - i,
                {
                    proof {
                        assert(decreases_to!(t0 => t0->args@));
                        assert(decreases_to!(t0->args@ => t0->args@[i as int]));
                        lemma_view_args_index(args@, i as int);
                        assert(av.take(i + 1).drop_last() =~= av.take(i as int));
                        assert(av.take(i + 1).last() == av[i as int]);
                        if i == 0 {
                            assert(av.take(1)[0] == av[0]);
                        }
                    }
                    if i > 0 {
                        r.append(", ");
                    }
                    r.append(args[i].display().as_str());
                    proof {
                        assert(r@ =~= r0 + display_args(av.take(i + 1)));
                    }
                    i += 1;
                }
                assert(av.take(i as int) =~= av);
                r.append(">");
                r
            },
            SemType::Dictionary { key, value } => {
                let mut r = String::from_str("[");
                r.append(key.display().as_str());
                r.append(": ");
                r.append(value.display().as_str());
                r.append("]");
                r
            },
            SemType::Closure { params, return_ty } => {
                let mut r = String::from_str("(");
                let ghost r0 = r@;
                let ghost pv = view_params(params@);
                proof { lemma_view_params_len(params@); }
                let mut i: usize = 0;
                while i < params.len()
                    invariant
                        i <= params.len(),
                        pv == view_params(params@),
                        pv.len() == params@.len(),
                        r@ == r0 + display_params(pv.take(i as int)),
                    decreases params.len() - i,
                {
                    proof {
                        assert(decreases_to!(t0 => t0->params@));
                        assert(decreases_to!(t0->params@ => t0->params@[i as int]));
                        lemma_view_params_index(params@, i as int);
                        assert(pv.take(i + 1).drop_last() =~= pv.take(i as int));
                        assert(pv.take(i + 1).last() == pv[i as int]);
                        if i == 0 {
                            assert(pv.take(1)[0] == pv[0]);
                        }
                    }
                    if i > 0 {
                        r.append(", ");
                    }
                    let ghost mid = r@;
                    match params[i].0 {
                        ParamConvention::Let => {},
                        ParamConvention::Mut => r.append("mut "),
                        ParamConvention::Sink => r.append("sink "),
                    }
                    r.append(params[i].1.display().as_str());
                    proof {
                        let p = pv[i as int];
                        assert(p == (params@[i as int].0, view_type(params@[i as int].1)));
                        assert(display_param(p) == match p.0 {
                            ParamConvention::Let => display_of(p.1),
                            ParamConvention::Mut => "mut "@ + display_of(p.1),
                            ParamConvention::Sink => "sink "@ + display_of(p.1),
                        });
                        assert(r@ =~= mid + display_param(p));
                        if i == 0 {
                            assert(display_params(pv.take(1)) == display_param(pv.take(1)[0]));
                        } else {
                            assert(display_params(pv.take(i + 1)) == display_params(pv.take(i as int)) + ", "@ + display_param(p));
                        }
                        assert(r@ =~= r0 + display_params(pv.take(i + 1)));
                    }
                    i += 1;
                }
                assert(pv.take(i as int) =~= pv);
                r.append(") -> ");
                r.append(return_ty.display().as_str());
                r
            },
            SemType::Unknown => String::from_str("Unknown"),
            SemType::InferredEnum => String::from_str("InferredEnum"),
            SemType::Nil => String::from_str("Nil"),
        }
    }
}

} // verus!

//! The functions of an inline module, seen from outside it.
//!
//! A call `m::f(...)` names the function `f` of the module `m`. Inside
//! the module its types are named without the prefix; seen from outside,
//! each type or trait that the module declares is written `m::T`.

use vstd::prelude::*;
use vstd::string::{StrSliceExecFns, StringExecFns};
use crate::ast::{Ident, ParamConvention, TupleTypeField, Type};
use crate::analyzer::SemanticAnalyzer;
use crate::modules::{get_module, module_named, str_views, walk_modules};
use crate::qualified_types::{find_separator, first_separator, lemma_first_separator_bounds};
use crate::symbols::{FunctionInfo, SymbolTable};
use crate::text::str_equals;

verus! {

broadcast use vstd::std_specs::vec::group_vec_axioms;

/// How code outside the module `prefix` names the type `n`: with the
/// prefix when the module declares it as a type or a trait.
pub open spec fn qualified_name(module: SymbolTable, prefix: Seq<char>, n: Seq<char>) -> Seq<char> {
    if module.names_type(n) || module.has_trait(n) { prefix + "::"@ + n } else { n }
}

/// `r` is the name `i` as code outside the module reads it, at the same
/// place.
pub open spec fn qualifies_ident(i: Ident, r: Ident, module: SymbolTable, prefix: Seq<char>) -> bool {
    r.name@ == qualified_name(module, prefix, i.name@) && r.span == i.span
}

/// `r` is the type `t` with each name the module declares written with
/// the module's prefix, and nothing else changed.
pub open spec fn qualifies(t: Type, r: Type, module: SymbolTable, prefix: Seq<char>) -> bool
    decreases t,
{
    match t {
        Type::Primitive(p) => r == Type::Primitive(p),
        Type::Ident(id) => r matches Type::Ident(rid) && qualifies_ident(id, rid, module, prefix),
        Type::Generic { name, args, span } => r matches Type::Generic { name: rn, args: ra, span: rs }
            && qualifies_ident(name, rn, module, prefix) && rs == span && qualifies_list(args@, ra@, module, prefix),
        Type::Array(e) => r matches Type::Array(re) && qualifies(*e, *re, module, prefix),
        Type::Optional(e) => r matches Type::Optional(re) && qualifies(*e, *re, module, prefix),
        Type::Tuple(fields) => r matches Type::Tuple(rf) && qualifies_fields(fields@, rf@, module, prefix),
        Type::Dictionary { key, value } => r matches Type::Dictionary { key: rk, value: rv }
            && qualifies(*key, *rk, module, prefix) && qualifies(*value, *rv, module, prefix),
        Type::Closure { params, ret } => r matches Type::Closure { params: rp, ret: rr }
            && qualifies_params(params@, rp@, module, prefix) && qualifies(*ret, *rr, module, prefix),
    }
}

pub open spec fn qualifies_list(ts: Seq<Type>, rs: Seq<Type>, module: SymbolTable, prefix: Seq<char>) -> bool
    decreases ts,
{
    ts.len() == rs.len() && (ts.len() > 0 ==> qualifies_list(ts.drop_last(), rs.drop_last(), module, prefix)
        && qualifies(ts.last(), rs.last(), module, prefix))
}

pub open spec fn qualifies_fields(fs: Seq<TupleTypeField>, rs: Seq<TupleTypeField>, module: SymbolTable, prefix: Seq<char>) -> bool
    decreases fs,
{
    fs.len() == rs.len() && (fs.len() > 0 ==> qualifies_fields(fs.drop_last(), rs.drop_last(), module, prefix)
        && rs.last().name == fs.last().name && rs.last().span == fs.last().span
        && qualifies(fs.last().ty, rs.last().ty, module, prefix))
}

pub open spec fn qualifies_params(ps: Seq<(ParamConvention, Type)>, rs: Seq<(ParamConvention, Type)>, module: SymbolTable, prefix: Seq<char>) -> bool
    decreases ps,
{
    ps.len() == rs.len() && (ps.len() > 0 ==> qualifies_params(ps.drop_last(), rs.drop_last(), module, prefix)
        && rs.last().0 == ps.last().0 && qualifies(ps.last().1, rs.last().1, module, prefix))
}

/// A copy of a name.
fn copy_ident(i: &Ident) -> (r: Ident)
    ensures
        r == *i,
{
    Ident { name: i.name.clone(), span: i.span }
}

/// A copy of an optional name.
fn copy_label(l: &Option<Ident>) -> (r: Option<Ident>)
    ensures
        r == *l,
{
    match l {
        Some(i) => Some(copy_ident(i)),
        None => None,
    }
}

/// `ident` as code outside the module `prefix` names it.
fn qualify_ident(ident: &Ident, module: &SymbolTable, prefix: &str) -> (r: Ident)
    ensures
        qualifies_ident(*ident, r, *module, prefix@),
{
    if module.is_type(ident.name.as_str()) || module.is_trait(ident.name.as_str()) {
        let mut name = String::from_str(prefix);
        name.append("::");
        name.append(ident.name.as_str());
        Ident { name, span: ident.span }
    } else {
        copy_ident(ident)
    }
}

/// `ty` with each name that `module` declares as a type or a trait
/// written as `prefix::name`.
pub fn qualify_type(ty: &Type, module: &SymbolTable, prefix: &str) -> (r: Type)
    ensures
        qualifies(*ty, r, *module, prefix@),
    decreases *ty,
{
    match ty {
        Type::Primitive(p) => Type::Primitive(*p),
        Type::Ident(ident) => Type::Ident(qualify_ident(ident, module, prefix)),
        Type::Generic { name, args, span } => {
            let mut out: Vec<Type> = Vec::new();
            let mut k: usize = 0;
            while k < args.len()
                invariant
                    k <= args@.len(),
                    qualifies_list(args@.take(k as int), out@, *module, prefix@),
                decreases args.len() - k,
            {
                proof {
                    assert(args@.take(k + 1).drop_last() =~= args@.take(k as int));
                    assert(args@.take(k + 1).last() == args@[k as int]);
                }
                let q = qualify_type(&args[k], module, prefix);
                let ghost ob = out@;
                out.push(q);
                assert(out@.drop_last() =~= ob);
                k += 1;
            }
            assert(args@.take(k as int) =~= args@);
            Type::Generic { name: qualify_ident(name, module, prefix), args: out, span: *span }
        },
        Type::Array(inner) => Type::Array(Box::new(qualify_type(inner, module, prefix))),
        Type::Optional(inner) => Type::Optional(Box::new(qualify_type(inner, module, prefix))),
        Type::Tuple(fields) => {
            let mut out: Vec<TupleTypeField> = Vec::new();
            let mut k: usize = 0;
            while k < fields.len()
                invariant
                    k <= fields@.len(),
                    qualifies_fields(fields@.take(k as int), out@, *module, prefix@),
                decreases fields.len() - k,
            {
                proof {
                    assert(fields@.take(k + 1).drop_last() =~= fields@.take(k as int));
                    assert(fields@.take(k + 1).last() == fields@[k as int]);
                    assert(decreases_to!(fields@ => fields@[k as int]));
                }
                let f = &fields[k];
                let q = qualify_type(&f.ty, module, prefix);
                let ghost ob = out@;
                out.push(TupleTypeField { name: copy_label(&f.name), ty: q, span: f.span });
                assert(out@.drop_last() =~= ob);
                k += 1;
            }
            assert(fields@.take(k as int) =~= fields@);
            Type::Tuple(out)
        },
        Type::Dictionary { key, value } => Type::Dictionary {
            key: Box::new(qualify_type(key, module, prefix)),
            value: Box::new(qualify_type(value, module, prefix)),
        },
        Type::Closure { params, ret } => {
            let mut out: Vec<(ParamConvention, Type)> = Vec::new();
            let mut k: usize = 0;
            while k < params.len()
                invariant
                    k <= params@.len(),
                    qualifies_params(params@.take(k as int), out@, *module, prefix@),
                decreases params.len() - k,
            {
                proof {
                    assert(params@.take(k + 1).drop_last() =~= params@.take(k as int));
                    assert(params@.take(k + 1).last() == params@[k as int]);
                    assert(decreases_to!(params@ => params@[k as int]));
                }
                let q = qualify_type(&params[k].1, module, prefix);
                let ghost ob = out@;
                out.push((params[k].0, q));
                assert(out@.drop_last() =~= ob);
                k += 1;
            }
            assert(params@.take(k as int) =~= params@);
            Type::Closure { params: out, ret: Box::new(qualify_type(ret, module, prefix)) }
        },
    }
}

/// The overloads called `last` of a table, in order.
pub open spec fn overloads_named(fs: Seq<FunctionInfo>, last: Seq<char>) -> Seq<FunctionInfo>
    decreases fs.len(),
{
    if fs.len() == 0 {
        seq![]
    } else {
        overloads_named(fs.drop_last(), last) + if fs.last().name@ == last { seq![fs.last()] } else { Seq::<FunctionInfo>::empty() }
    }
}

/// The owned overloads a list of borrowed ones points at.
pub open spec fn overload_infos(s: Seq<&FunctionInfo>) -> Seq<FunctionInfo> {
    s.map_values(|f: &FunctionInfo| *f)
}

/// The table of the module that `segments` names inside `st`, with the
/// overloads called `last` there; `None` when the module is not there or
/// has no such function.
pub open spec fn module_overloads(st: SymbolTable, segments: Seq<Seq<char>>, last: Seq<char>) -> Option<(SymbolTable, Seq<FunctionInfo>)> {
    match walk_modules(st, segments) {
        Ok(t) => if overloads_named(t.functions@, last).len() > 0 { Some((t, overloads_named(t.functions@, last))) } else { None },
        Err(_) => None,
    }
}

/// The overloads called `last` of the table, in order.
fn overloads_of<'s>(st: &'s SymbolTable, last: &str) -> (r: Vec<&'s FunctionInfo>)
    ensures
        overload_infos(r@) == overloads_named(st.functions@, last@),
{
    let fs = &st.functions;
    let mut out: Vec<&'s FunctionInfo> = Vec::new();
    let mut k: usize = 0;
    while k < fs.len()
        invariant
            k <= fs@.len(),
            overload_infos(out@) == overloads_named(fs@.take(k as int), last@),
        decreases fs.len() - k,
    {
        proof {
            assert(fs@.take(k + 1).drop_last() =~= fs@.take(k as int));
            assert(fs@.take(k + 1).last() == fs@[k as int]);
        }
        let ghost ob = out@;
        if str_equals(fs[k].name.as_str(), last) {
            out.push(&fs[k]);
            assert(overload_infos(out@) =~= overload_infos(ob).push(fs@[k as int]));
        } else {
            assert(overload_infos(out@) =~= overload_infos(ob) + Seq::<FunctionInfo>::empty());
        }
        k += 1;
    }
    assert(fs@.take(k as int) =~= fs@);
    out
}

/// The overloads of `last` in the module that `segments` names, inside
/// `symbols`, with the symbol table of that module. `None` when the
/// module or the function is not there.
pub fn overloads_in<'s>(symbols: &'s SymbolTable, segments: &Vec<&str>, last: &str) -> (r: Option<(&'s SymbolTable, Vec<&'s FunctionInfo>)>)
    ensures
        r is Some <==> module_overloads(*symbols, str_views(segments@), last@) is Some,
        r matches Some((t, fs)) ==> module_overloads(*symbols, str_views(segments@), last@) == Some((*t, overload_infos(fs@))),
{
    let ghost segs = str_views(segments@);
    let mut current = symbols;
    let mut k: usize = 0;
    assert(segs.skip(0) =~= segs);
    while k < segments.len()
        invariant
            k <= segments@.len(),
            segs == str_views(segments@),
            walk_modules(*symbols, segs) == match walk_modules(*current, segs.skip(k as int)) {
                Ok(t) => Ok::<SymbolTable, int>(t),
                Err(i) => Err(i + k),
            },
        decreases segments.len() - k,
    {
        let ghost rest = segs.skip(k as int);
        assert(rest[0] == segments@[k as int]@);
        assert(rest.drop_first() =~= segs.skip(k + 1));
        match get_module(current, segments[k]) {
            Some(m) => {
                current = &m.symbols;
            },
            None => {
                return None;
            },
        }
        k += 1;
    }
    assert(segs.skip(k as int) =~= Seq::<Seq<char>>::empty());
    let found = overloads_of(current, last);
    if found.len() == 0 {
        return None;
    }
    Some((current, found))
}

/// Whether `name`, written `m::f` or `m::n::f`, names a function of the
/// module `m`, or of the module `n` inside it. Only the first two `::`
/// split the name: in `m::n::f::g` the function's name is `f::g`.
pub open spec fn qualified_function_found(st: SymbolTable, name: Seq<char>) -> bool {
    match first_separator(name) {
        None => false,
        Some(p) => {
            let rest = name.subrange(p + 2, name.len() as int);
            match module_named(st.modules@, name.subrange(0, p)) {
                None => false,
                Some(m) => match first_separator(rest) {
                    Some(q) => match module_named(m.symbols.modules@, rest.subrange(0, q)) {
                        Some(sub) => sub.symbols.has_function(rest.subrange(q + 2, rest.len() as int)),
                        None => false,
                    },
                    None => m.symbols.has_function(rest),
                },
            }
        },
    }
}

impl SemanticAnalyzer {
    /// Whether a qualified path such as `math::compute`, or one a module
    /// deeper, `math::trig::sin`, names a function of the program's
    /// modules.
    pub fn resolve_qualified_function(&self, name: &str) -> (r: bool)
        ensures
            r == qualified_function_found(self.symbols, name@),
    {
        let n = name.unicode_len();
        proof {
            assert(name@.subrange(0, n as int) =~= name@);
            lemma_first_separator_bounds(name@);
        }
        let p = match find_separator(name, 0) {
            Some(p) => p,
            None => return false,
        };
        let module_name = name.substring_char(0, p);
        let rest = name.substring_char(p + 2, n);
        let m = match get_module(&self.symbols, module_name) {
            Some(m) => m,
            None => return false,
        };
        let k = rest.unicode_len();
        proof {
            assert(rest@.subrange(0, k as int) =~= rest@);
            lemma_first_separator_bounds(rest@);
        }
        match find_separator(rest, 0) {
            Some(q) => {
                let sub_name = rest.substring_char(0, q);
                let fn_name = rest.substring_char(q + 2, k);
                match get_module(&m.symbols, sub_name) {
                    Some(sub) => sub.symbols.is_function(fn_name),
                    None => false,
                }
            },
            None => m.symbols.is_function(rest),
        }
    }
}

} // verus!

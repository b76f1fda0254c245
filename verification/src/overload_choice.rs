//! Which overload of a function a call means.
//!
//! An overload fits a call when the call's labels and count fit its
//! parameters, and when each argument has the type of the parameter it
//! fills. The types are compared exactly first, so `width(v: 1)` means
//! `width(v: I32)` and not `width(v: I64)`. When no overload fits exactly,
//! an unsuffixed numeric literal fits any numeric type of its kind. Among
//! the overloads that fit, the ones that fire the fewest defaults win.
//!
//! What the call's arguments are is given from outside: the type of each
//! argument, whether the call's labels and count fit each overload, and
//! whether each argument's type satisfies the parameter it fills there.

use vstd::prelude::*;
use crate::analyzer::SemanticAnalyzer;
use crate::ast::{Expr, GenericParam, Ident, Type};
use crate::call_shape::{type_views, ParamView};
use crate::literals::{fits_literally, literal_fits};
use crate::mut_args::arg_params;
use crate::sem_type::{SType, SemType};
use crate::symbols::{FunctionInfo, ParamInfo};
use crate::text::{lemma_views_push, str_equals, views};
use crate::type_names::{mentions_any, type_mentions_any};

verus! {

broadcast use vstd::std_specs::vec::group_vec_axioms;

/// What overload resolution reads of a parameter: its name, the label a
/// call uses for it, and its declared type.
pub ghost struct Slot {
    pub name: Seq<char>,
    pub label: Option<Seq<char>>,
    pub ty: Option<Type>,
}

pub open spec fn view_slot(p: ParamView) -> Slot {
    Slot {
        name: p.name@,
        label: match p.external_label {
            Some(l) => Some(l@),
            None => None,
        },
        ty: match p.ty {
            Some(t) => Some(*t),
            None => None,
        },
    }
}

pub open spec fn info_slot(p: ParamInfo) -> Slot {
    Slot {
        name: p.name.name@,
        label: match p.external_label {
            Some(l) => Some(l.name@),
            None => None,
        },
        ty: p.ty,
    }
}

pub open spec fn view_slots(ps: Seq<ParamView>) -> Seq<Slot> {
    ps.map_values(|p: ParamView| view_slot(p))
}

pub open spec fn info_slots(ps: Seq<ParamInfo>) -> Seq<Slot> {
    ps.map_values(|p: ParamInfo| info_slot(p))
}

pub open spec fn borrowed_slots(ps: Seq<&ParamView>) -> Seq<Slot> {
    ps.map_values(|p: &ParamView| view_slot(*p))
}

/// The slots that take an argument: all but `self`, in order.
pub open spec fn arg_slots(s: Seq<Slot>) -> Seq<Slot>
    decreases s.len(),
{
    if s.len() == 0 {
        seq![]
    } else {
        arg_slots(s.drop_last()) + if s.last().name == "self"@ { Seq::<Slot>::empty() } else { seq![s.last()] }
    }
}

/// The first slot that the label `l` names, by its label or its name.
pub open spec fn slot_labelled(ns: Seq<Slot>, l: Seq<char>) -> Option<Slot>
    decreases ns.len(),
{
    if ns.len() == 0 {
        None
    } else {
        match slot_labelled(ns.drop_last(), l) {
            Some(p) => Some(p),
            None => if ns.last().label == Some(l) || ns.last().name == l { Some(ns.last()) } else { None },
        }
    }
}

/// The slot among `ns` that the argument at `index` with `label` fills.
pub open spec fn filled_slot(ns: Seq<Slot>, index: int, label: Option<Ident>) -> Option<Slot> {
    match label {
        None => if 0 <= index < ns.len() { Some(ns[index]) } else { None },
        Some(l) => slot_labelled(ns, l.name@),
    }
}

/// An argument fits the parameter it fills: there is none, it has no
/// type, its type names a generic parameter, the argument's type is not
/// known, or the argument's type satisfies it; leniently, an unsuffixed
/// numeric literal also fits a numeric type of its kind.
pub open spec fn argument_fits(p: Option<Slot>, names: Seq<Seq<char>>, arg: Expr, lenient: bool, inferred: SType, satisfies: bool) -> bool {
    match p {
        Some(Slot { ty: Some(t), .. }) => mentions_any(t, names) || (lenient && fits_literally(arg, t))
            || inferred is Unknown || inferred is InferredEnum || satisfies,
        _ => true,
    }
}

/// Each argument fits the parameter it fills.
pub open spec fn arguments_fit(
    slots: Seq<Slot>,
    names: Seq<Seq<char>>,
    args: Seq<(Option<Ident>, Expr)>,
    lenient: bool,
    inferred: Seq<SType>,
    satisfies: Seq<bool>,
) -> bool {
    forall|i: int| 0 <= i < args.len() ==> #[trigger] argument_fits(
        filled_slot(arg_slots(slots), i, args[i].0), names, args[i].1, lenient, inferred[i], satisfies[i])
}

/// The names of the generic parameters of an overload.
pub open spec fn generic_names(o: FunctionInfo) -> Seq<Seq<char>> {
    o.generics@.map_values(|g: GenericParam| g.name.name@)
}

/// The overload fits the call: `shaped` says that the labels and the
/// count fit, and each argument fits its parameter.
pub open spec fn overload_fits(o: FunctionInfo, args: Seq<(Option<Ident>, Expr)>, lenient: bool, inferred: Seq<SType>, satisfies: Seq<bool>, shaped: bool) -> bool {
    shaped && arguments_fit(info_slots(o.params@), generic_names(o), args, lenient, inferred, satisfies)
}

/// No overload fits exactly.
pub open spec fn needs_lenient(ovs: Seq<FunctionInfo>, args: Seq<(Option<Ident>, Expr)>, inferred: Seq<SType>, sats: Seq<Seq<bool>>, shaped: Seq<bool>) -> bool {
    forall|k: int| 0 <= k < ovs.len() ==> !#[trigger] overload_fits(ovs[k], args, false, inferred, sats[k], shaped[k])
}

/// The overload at `k` is among those that fit: exactly, or leniently
/// when none fits exactly.
pub open spec fn in_pool(ovs: Seq<FunctionInfo>, args: Seq<(Option<Ident>, Expr)>, inferred: Seq<SType>, sats: Seq<Seq<bool>>, shaped: Seq<bool>, k: int) -> bool {
    overload_fits(ovs[k], args, needs_lenient(ovs, args, inferred, sats, shaped), inferred, sats[k], shaped[k])
}

/// How many defaults a call with `given` arguments fires.
pub open spec fn defaults_fired(o: FunctionInfo, given: nat) -> nat {
    let n = arg_params(o.params@).len();
    if n > given { (n - given) as nat } else { 0 }
}

/// The overload at `k` fits, and fires no more defaults than any other
/// that fits.
pub open spec fn most_specific(ovs: Seq<FunctionInfo>, args: Seq<(Option<Ident>, Expr)>, inferred: Seq<SType>, sats: Seq<Seq<bool>>, shaped: Seq<bool>, k: int) -> bool {
    &&& in_pool(ovs, args, inferred, sats, shaped, k)
    &&& forall|j: int| 0 <= j < ovs.len() && #[trigger] in_pool(ovs, args, inferred, sats, shaped, j)
        ==> defaults_fired(ovs[k], args.len()) <= defaults_fired(ovs[j], args.len())
}

/// The most specific of the first `n` overloads, in order.
pub open spec fn most_specific_prefix(ovs: Seq<FunctionInfo>, args: Seq<(Option<Ident>, Expr)>, inferred: Seq<SType>, sats: Seq<Seq<bool>>, shaped: Seq<bool>, n: int) -> Seq<FunctionInfo>
    decreases n,
{
    if n <= 0 {
        seq![]
    } else {
        most_specific_prefix(ovs, args, inferred, sats, shaped, n - 1) + if most_specific(ovs, args, inferred, sats, shaped, n - 1) {
            seq![ovs[n - 1]]
        } else {
            Seq::<FunctionInfo>::empty()
        }
    }
}

/// The overloads at the positions `idx`, in order.
pub open spec fn positions_view(idx: Seq<usize>, ovs: Seq<FunctionInfo>) -> Seq<FunctionInfo> {
    idx.map_values(|i: usize| ovs[i as int])
}

/// The parameters among `params` that take an argument.
fn arg_param_views<'p, 'a>(params: &'p Vec<ParamView<'a>>) -> (r: Vec<&'p ParamView<'a>>)
    ensures
        borrowed_slots(r@) == arg_slots(view_slots(params@)),
{
    let mut out: Vec<&'p ParamView<'a>> = Vec::new();
    let mut i: usize = 0;
    while i < params.len()
        invariant
            i <= params@.len(),
            borrowed_slots(out@) == arg_slots(view_slots(params@.take(i as int))),
        decreases params.len() - i,
    {
        proof {
            assert(view_slots(params@.take(i + 1)).drop_last() =~= view_slots(params@.take(i as int)));
            assert(view_slots(params@.take(i + 1)).last() == view_slot(params@[i as int]));
        }
        let ghost before = out@;
        if !str_equals(params[i].name, "self") {
            out.push(&params[i]);
            assert(borrowed_slots(out@) =~= borrowed_slots(before).push(view_slot(params@[i as int])));
        } else {
            assert(borrowed_slots(before) + Seq::<Slot>::empty() =~= borrowed_slots(before));
        }
        i += 1;
    }
    assert(params@.take(i as int) =~= params@);
    out
}

proof fn lemma_slot_labelled_prefix(ns: Seq<Slot>, k: int, l: Seq<char>)
    requires
        0 <= k <= ns.len(),
        slot_labelled(ns.take(k), l) is Some,
    ensures
        slot_labelled(ns, l) == slot_labelled(ns.take(k), l),
    decreases ns.len() - k,
{
    if k < ns.len() {
        assert(ns.take(k + 1).drop_last() =~= ns.take(k));
        lemma_slot_labelled_prefix(ns, k + 1, l);
    } else {
        assert(ns.take(k) =~= ns);
    }
}

/// The first of `ns` that the label `l` names.
fn labelled_view<'p, 'a>(ns: &Vec<&'p ParamView<'a>>, l: &str) -> (r: Option<&'p ParamView<'a>>)
    ensures
        r matches Some(p) ==> slot_labelled(borrowed_slots(ns@), l@) == Some(view_slot(*p)),
        r is None ==> slot_labelled(borrowed_slots(ns@), l@) is None,
{
    let ghost s = borrowed_slots(ns@);
    let mut k: usize = 0;
    while k < ns.len()
        invariant
            k <= ns@.len(),
            s == borrowed_slots(ns@),
            slot_labelled(s.take(k as int), l@) is None,
        decreases ns.len() - k,
    {
        proof {
            assert(s.take(k + 1).drop_last() =~= s.take(k as int));
            assert(s.take(k + 1).last() == view_slot(*ns@[k as int]));
        }
        let p = ns[k];
        let by_label = match p.external_label {
            Some(x) => str_equals(x, l),
            None => false,
        };
        if by_label || str_equals(p.name, l) {
            proof { lemma_slot_labelled_prefix(s, k + 1, l@); }
            return Some(p);
        }
        k += 1;
    }
    assert(s.take(k as int) =~= s);
    None
}

/// How many parameters of `o` take an argument.
fn arg_count(o: &FunctionInfo) -> (r: usize)
    ensures
        r == arg_params(o.params@).len(),
{
    let ps = &o.params;
    let mut n: usize = 0;
    let mut i: usize = 0;
    while i < ps.len()
        invariant
            i <= ps@.len(),
            n == arg_params(ps@.take(i as int)).len(),
            n <= i,
        decreases ps.len() - i,
    {
        proof {
            assert(ps@.take(i + 1).drop_last() =~= ps@.take(i as int));
            assert(ps@.take(i + 1).last() == ps@[i as int]);
        }
        if !str_equals(ps[i].name.name.as_str(), "self") {
            n += 1;
        }
        i += 1;
    }
    assert(ps@.take(i as int) =~= ps@);
    n
}

/// The views of the parameters of `o`, and the names of its generic
/// parameters.
fn overload_views(o: &FunctionInfo) -> (r: (Vec<ParamView<'_>>, Vec<String>))
    ensures
        view_slots(r.0@) == info_slots(o.params@),
        views(r.1@) == generic_names(*o),
{
    let mut ps: Vec<ParamView> = Vec::new();
    let mut i: usize = 0;
    while i < o.params.len()
        invariant
            i <= o.params@.len(),
            view_slots(ps@) == info_slots(o.params@.take(i as int)),
        decreases o.params.len() - i,
    {
        let v = ParamView::of_param_info(&o.params[i]);
        let ghost before = ps@;
        ps.push(v);
        proof {
            assert(view_slot(v) == info_slot(o.params@[i as int]));
            assert(view_slots(ps@) =~= view_slots(before).push(view_slot(v)));
            assert(info_slots(o.params@.take(i + 1)) =~= info_slots(o.params@.take(i as int)).push(info_slot(o.params@[i as int])));
        }
        i += 1;
    }
    assert(o.params@.take(i as int) =~= o.params@);
    let mut names: Vec<String> = Vec::new();
    let mut k: usize = 0;
    while k < o.generics.len()
        invariant
            k <= o.generics@.len(),
            views(names@) == o.generics@.take(k as int).map_values(|g: GenericParam| g.name.name@),
        decreases o.generics.len() - k,
    {
        let ghost before = names@;
        names.push(o.generics[k].name.name.clone());
        proof {
            lemma_views_push(before, names@.last());
            assert(o.generics@.take(k + 1).map_values(|g: GenericParam| g.name.name@)
                =~= o.generics@.take(k as int).map_values(|g: GenericParam| g.name.name@).push(o.generics@[k as int].name.name@));
        }
        k += 1;
    }
    assert(o.generics@.take(k as int) =~= o.generics@);
    (ps, names)
}

impl SemanticAnalyzer {
    /// Whether each argument has the type of the parameter it fills. A
    /// parameter typed by one of `generic_names`, and an argument whose
    /// type is not known here, fit anything; `lenient` lets an unsuffixed
    /// numeric literal fit a numeric type of its kind. `inferred` holds
    /// the type of each argument, and `satisfies` whether it satisfies the
    /// type of the parameter it fills.
    pub fn argument_types_fit(
        &self,
        params: &Vec<ParamView>,
        generic_names: &Vec<String>,
        args: &Vec<(Option<Ident>, Expr)>,
        lenient: bool,
        inferred: &Vec<SemType>,
        satisfies: &Vec<bool>,
    ) -> (r: bool)
        requires
            inferred@.len() == args@.len(),
            satisfies@.len() == args@.len(),
        ensures
            r == arguments_fit(view_slots(params@), views(generic_names@), args@, lenient, type_views(inferred@), satisfies@),
    {
        let ns = arg_param_views(params);
        let ghost slots = arg_slots(view_slots(params@));
        let ghost names = views(generic_names@);
        let mut i: usize = 0;
        while i < args.len()
            invariant
                i <= args@.len(),
                slots == borrowed_slots(ns@),
                forall|j: int| 0 <= j < i ==> #[trigger] argument_fits(
                    filled_slot(slots, j, args@[j].0), names, args@[j].1, lenient, type_views(inferred@)[j], satisfies@[j]),
            decreases args.len() - i,
        {
            let (label, arg) = &args[i];
            let chosen: Option<&ParamView> = match label {
                None => if i < ns.len() { Some(ns[i]) } else { None },
                Some(l) => labelled_view(&ns, l.name.as_str()),
            };
            proof {
                match chosen {
                    Some(p) => {
                        if label is None {
                            assert(slots[i as int] == view_slot(*ns@[i as int]));
                        }
                        assert(filled_slot(slots, i as int, *label) == Some(view_slot(*p)));
                    },
                    None => {
                        assert(filled_slot(slots, i as int, *label) is None);
                    },
                }
            }
            let ok = match chosen {
                Some(p) => match p.ty {
                    Some(t) => type_mentions_any(t, generic_names) || (lenient && literal_fits(arg, t))
                        || inferred[i].is_indeterminate() || satisfies[i],
                    None => true,
                },
                None => true,
            };
            if !ok {
                assert(!argument_fits(filled_slot(slots, i as int, args@[i as int].0), names, args@[i as int].1, lenient,
                    type_views(inferred@)[i as int], satisfies@[i as int]));
                return false;
            }
            i += 1;
        }
        true
    }

    /// Whether the overload `o` fits the call, exactly or leniently.
    fn overload_fits_call(
        &self,
        o: &FunctionInfo,
        args: &Vec<(Option<Ident>, Expr)>,
        lenient: bool,
        inferred: &Vec<SemType>,
        satisfies: &Vec<bool>,
        shaped: bool,
    ) -> (r: bool)
        requires
            inferred@.len() == args@.len(),
            satisfies@.len() == args@.len(),
        ensures
            r == overload_fits(*o, args@, lenient, type_views(inferred@), satisfies@, shaped),
    {
        if !shaped {
            return false;
        }
        let (views_of, names) = overload_views(o);
        self.argument_types_fit(&views_of, &names, args, lenient, inferred, satisfies)
    }

    /// The positions of the overloads that fit the call best, in
    /// increasing order; see `most_specific_overloads`.
    pub fn most_specific_indices(
        &self,
        overloads: &Vec<FunctionInfo>,
        args: &Vec<(Option<Ident>, Expr)>,
        shaped: &Vec<bool>,
        inferred: &Vec<SemType>,
        satisfies: &Vec<Vec<bool>>,
    ) -> (r: Vec<usize>)
        requires
            shaped@.len() == overloads@.len(),
            satisfies@.len() == overloads@.len(),
            forall|k: int| 0 <= k < satisfies@.len() ==> (#[trigger] satisfies@[k])@.len() == args@.len(),
            inferred@.len() == args@.len(),
        ensures
            positions_view(r@, overloads@) == most_specific_prefix(overloads@, args@, type_views(inferred@),
                satisfies@.map_values(|s: Vec<bool>| s@), shaped@, overloads@.len() as int),
            forall|k: int| #[trigger] r@.contains(k as usize) && 0 <= k < overloads@.len() <==> 0 <= k < overloads@.len() && most_specific(overloads@, args@,
                type_views(inferred@), satisfies@.map_values(|s: Vec<bool>| s@), shaped@, k),
            forall|j: int| 0 <= j < r@.len() ==> #[trigger] r@[j] < overloads@.len(),
            forall|i: int, j: int| 0 <= i < j < r@.len() ==> r@[i] < r@[j],
    {
        let ghost ovs = overloads@;
        let ghost ts = type_views(inferred@);
        let ghost sats = satisfies@.map_values(|s: Vec<bool>| s@);
        let n = overloads.len();
        let mut any_exact = false;
        let mut k: usize = 0;
        while k < n
            invariant
                k <= n == ovs.len(),
                any_exact <==> exists|j: int| 0 <= j < k && #[trigger] overload_fits(ovs[j], args@, false, ts, sats[j], shaped@[j]),
            decreases n - k,
        {
            if self.overload_fits_call(&overloads[k], args, false, inferred, &satisfies[k], shaped[k]) {
                assert(overload_fits(ovs[k as int], args@, false, ts, sats[k as int], shaped@[k as int]));
                any_exact = true;
            }
            k += 1;
        }
        let lenient = !any_exact;
        assert(lenient == needs_lenient(ovs, args@, ts, sats, shaped@));
        let mut pool: Vec<bool> = Vec::new();
        let mut fired: Vec<usize> = Vec::new();
        let mut fewest: Option<usize> = None;
        k = 0;
        while k < n
            invariant
                k <= n == ovs.len(),
                lenient == needs_lenient(ovs, args@, ts, sats, shaped@),
                pool@.len() == k,
                fired@.len() == k,
                forall|j: int| 0 <= j < k ==> #[trigger] pool@[j] == in_pool(ovs, args@, ts, sats, shaped@, j),
                forall|j: int| 0 <= j < k ==> #[trigger] fired@[j] == defaults_fired(ovs[j], args@.len()),
                fewest is None <==> forall|j: int| 0 <= j < k ==> !#[trigger] pool@[j],
                fewest matches Some(m) ==> (forall|j: int| 0 <= j < k && #[trigger] pool@[j] ==> m <= fired@[j])
                    && exists|j: int| 0 <= j < k && #[trigger] pool@[j] && fired@[j] == m,
            decreases n - k,
        {
            let fits = self.overload_fits_call(&overloads[k], args, lenient, inferred, &satisfies[k], shaped[k]);
            let count = arg_count(&overloads[k]);
            let f: usize = if count > args.len() { count - args.len() } else { 0 };
            let ghost p0 = pool@;
            let ghost f0 = fired@;
            let ghost m0 = fewest;
            pool.push(fits);
            fired.push(f);
            if fits {
                fewest = match fewest {
                    None => Some(f),
                    Some(m) => if f < m { Some(f) } else { Some(m) },
                };
            }
            proof {
                assert(pool@[k as int] == fits && fired@[k as int] == f);
                assert(forall|j: int| 0 <= j < k ==> pool@[j] == p0[j] && fired@[j] == f0[j]);
                if let Some(m) = fewest {
                    if fits && f == m {
                        assert(pool@[k as int] && fired@[k as int] == m);
                    } else {
                        let w = choose|j: int| 0 <= j < k && #[trigger] p0[j] && f0[j] == m;
                        assert(pool@[w] && fired@[w] == m);
                    }
                }
            }
            k += 1;
        }
        let mut out: Vec<usize> = Vec::new();
        k = 0;
        while k < n
            invariant
                k <= n == ovs.len(),
                pool@.len() == n,
                fired@.len() == n,
                forall|j: int| 0 <= j < n ==> #[trigger] pool@[j] == in_pool(ovs, args@, ts, sats, shaped@, j),
                forall|j: int| 0 <= j < n ==> #[trigger] fired@[j] == defaults_fired(ovs[j], args@.len()),
                fewest is None <==> forall|j: int| 0 <= j < n ==> !#[trigger] pool@[j],
                fewest matches Some(m) ==> (forall|j: int| 0 <= j < n && #[trigger] pool@[j] ==> m <= fired@[j])
                    && exists|j: int| 0 <= j < n && #[trigger] pool@[j] && fired@[j] == m,
                positions_view(out@, ovs) == most_specific_prefix(ovs, args@, ts, sats, shaped@, k as int),
                forall|i: int| #[trigger] out@.contains(i as usize) && 0 <= i < n <==> 0 <= i < k && most_specific(ovs, args@, ts, sats, shaped@, i),
                forall|j: int| 0 <= j < out@.len() ==> #[trigger] out@[j] < k,
                forall|i: int, j: int| 0 <= i < j < out@.len() ==> out@[i] < out@[j],
            decreases n - k,
        {
            let keep = pool[k] && match fewest {
                Some(m) => fired[k] == m,
                None => false,
            };
            proof {
                if keep {
                    assert forall|j: int| 0 <= j < ovs.len() && #[trigger] in_pool(ovs, args@, ts, sats, shaped@, j)
                        implies defaults_fired(ovs[k as int], args@.len()) <= defaults_fired(ovs[j], args@.len()) by {
                        assert(pool@[j]);
                    }
                } else if pool@[k as int] {
                    let m = fewest.unwrap();
                    let w = choose|j: int| 0 <= j < n && #[trigger] pool@[j] && fired@[j] == m;
                    assert(in_pool(ovs, args@, ts, sats, shaped@, w));
                    assert(fired@[k as int] != m);
                    assert(m <= fired@[k as int]);
                }
                assert(keep == most_specific(ovs, args@, ts, sats, shaped@, k as int));
            }
            let ghost before = out@;
            if keep {
                out.push(k);
                assert(positions_view(out@, ovs) =~= positions_view(before, ovs).push(ovs[k as int]));
                assert forall|i: int| #[trigger] out@.contains(i as usize) && 0 <= i < n <==> 0 <= i < k + 1 && most_specific(ovs, args@, ts, sats, shaped@, i) by {
                    if 0 <= i < n && out@.contains(i as usize) {
                        let w = choose|w: int| 0 <= w < out@.len() && out@[w] == i as usize;
                        if w < before.len() { assert(before.contains(i as usize)); }
                    }
                    if 0 <= i < k && most_specific(ovs, args@, ts, sats, shaped@, i) {
                        assert(before.contains(i as usize));
                        let w = choose|w: int| 0 <= w < before.len() && before[w] == i as usize;
                        assert(out@[w] == i as usize);
                    }
                    if i == k {
                        assert(out@[before.len() as int] == k);
                    }
                }
            } else {
                assert(positions_view(before, ovs) + Seq::<FunctionInfo>::empty() =~= positions_view(before, ovs));
            }
            k += 1;
        }
        out
    }

    /// The overloads that fit the call best, in declaration order. More
    /// than one is an ambiguous call, and none is a call that fits no
    /// overload. `shaped[k]` says whether the call's labels and count fit
    /// overload `k`, `inferred` holds the type of each argument, and
    /// `satisfies[k][i]` whether argument `i` satisfies the type of the
    /// parameter of overload `k` that it fills.
    pub fn most_specific_overloads<'o>(
        &self,
        overloads: &'o Vec<FunctionInfo>,
        args: &Vec<(Option<Ident>, Expr)>,
        shaped: &Vec<bool>,
        inferred: &Vec<SemType>,
        satisfies: &Vec<Vec<bool>>,
    ) -> (r: Vec<&'o FunctionInfo>)
        requires
            shaped@.len() == overloads@.len(),
            satisfies@.len() == overloads@.len(),
            forall|k: int| 0 <= k < satisfies@.len() ==> (#[trigger] satisfies@[k])@.len() == args@.len(),
            inferred@.len() == args@.len(),
        ensures
            r@.map_values(|o: &FunctionInfo| *o) == most_specific_prefix(overloads@, args@, type_views(inferred@),
                satisfies@.map_values(|s: Vec<bool>| s@), shaped@, overloads@.len() as int),
    {
        let idx = self.most_specific_indices(overloads, args, shaped, inferred, satisfies);
        let mut out: Vec<&'o FunctionInfo> = Vec::new();
        let mut j: usize = 0;
        while j < idx.len()
            invariant
                j <= idx@.len(),
                forall|i: int| 0 <= i < idx@.len() ==> #[trigger] idx@[i] < overloads@.len(),
                out@.map_values(|o: &FunctionInfo| *o) == positions_view(idx@.take(j as int), overloads@),
            decreases idx.len() - j,
        {
            let ghost before = out@;
            out.push(&overloads[idx[j]]);
            proof {
                assert(idx@.take(j + 1) =~= idx@.take(j as int).push(idx@[j as int]));
                assert(positions_view(idx@.take(j + 1), overloads@) =~= positions_view(idx@.take(j as int), overloads@).push(overloads@[idx@[j as int] as int]));
                assert(out@.map_values(|o: &FunctionInfo| *o) =~= before.map_values(|o: &FunctionInfo| *o).push(overloads@[idx@[j as int] as int]));
            }
            j += 1;
        }
        assert(idx@.take(j as int) =~= idx@);
        out
    }
}

} // verus!

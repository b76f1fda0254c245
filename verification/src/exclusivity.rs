//! Exclusive access at a call site.
//!
//! A `mut` argument and a `sink` argument each need sole access to the
//! value for the whole call. So two arguments of one call must not reach
//! the same place when one of them is `mut` or `sink`. `swap(a: x, b: x)`
//! breaks the rule, and so does `f(a: p, b: p.x)`. The check is
//! field-sensitive: `f(a: p.x, b: p.y)` reaches two different places, and
//! it is legal. The receiver of a method counts as an argument, with the
//! convention of its `self` parameter.

use vstd::prelude::*;
use vstd::string::StringExecFns;
use crate::analyzer::SemanticAnalyzer;
use crate::ast::{Expr, ParamConvention, Span};
use crate::error::{error_views, CompilerError, ErrorView};
use crate::text::{str_equals, views};

verus! {

broadcast use vstd::std_specs::vec::group_vec_axioms;

/// The place an argument reaches: its root binding, then each field on the
/// way down. `None` for a fresh value. An index reads from inside its
/// container, so `xs[0]` reaches `xs`.
pub open spec fn place_of(e: Expr) -> Option<Seq<Seq<char>>>
    decreases e,
{
    match e {
        Expr::Reference { path, .. } => {
            if path@.len() == 0 { None } else { Some(path@.map_values(|i: crate::ast::Ident| i.name@)) }
        },
        Expr::FieldAccess { object, field, .. } => match place_of(*object) {
            Some(p) => Some(p.push(field.name@)),
            None => None,
        },
        Expr::Group { expr, .. } => place_of(*expr),
        Expr::DictAccess { dict, .. } => place_of(*dict),
        _ => None,
    }
}

/// Whether a convention needs sole access to its argument.
pub open spec fn exclusive(c: ParamConvention) -> bool {
    c == ParamConvention::Mut || c == ParamConvention::Sink
}

/// The shorter of two places when one is a prefix of the other.
pub open spec fn overlap_of(first: Seq<Seq<char>>, second: Seq<Seq<char>>) -> Option<Seq<Seq<char>>> {
    let (shorter, longer) = if first.len() <= second.len() { (first, second) } else { (second, first) };
    if longer.take(shorter.len() as int) == shorter { Some(shorter) } else { None }
}

/// The places of the arguments that reach one, with their conventions.
pub open spec fn places(accesses: Seq<(ParamConvention, &Expr)>) -> Seq<(ParamConvention, Seq<Seq<char>>)>
    decreases accesses.len(),
{
    if accesses.len() == 0 {
        seq![]
    } else {
        places(accesses.drop_last()) + match place_of(*accesses.last().1) {
            Some(p) => seq![(accesses.last().0, p)],
            None => seq![],
        }
    }
}

/// The overlap of the pair `(i, j)` when one of the two is exclusive.
pub open spec fn pair_overlap(paths: Seq<(ParamConvention, Seq<Seq<char>>)>, i: int, j: int) -> Seq<Seq<Seq<char>>> {
    if exclusive(paths[i].0) || exclusive(paths[j].0) {
        match overlap_of(paths[i].1, paths[j].1) {
            Some(shared) => seq![shared],
            None => seq![],
        }
    } else {
        seq![]
    }
}

/// The overlaps of `i` with each later path before `j`, in order.
pub open spec fn row_overlaps(paths: Seq<(ParamConvention, Seq<Seq<char>>)>, i: int, j: int) -> Seq<Seq<Seq<char>>>
    decreases j - i,
{
    if j <= i + 1 {
        seq![]
    } else {
        row_overlaps(paths, i, j - 1) + pair_overlap(paths, i, j - 1)
    }
}

/// The overlaps of each pair `(i, j)` with `i` before `n`, pair after
/// pair in the order `i`, then `j`.
pub open spec fn all_overlaps(paths: Seq<(ParamConvention, Seq<Seq<char>>)>, n: int) -> Seq<Seq<Seq<char>>>
    decreases n,
{
    if n <= 0 {
        seq![]
    } else {
        all_overlaps(paths, n - 1) + row_overlaps(paths, n - 1, paths.len() as int)
    }
}

/// `acc` with each element of `s` that it does not hold yet appended.
pub open spec fn first_occurrences<A>(acc: Seq<A>, s: Seq<A>) -> Seq<A>
    decreases s.len(),
{
    if s.len() == 0 {
        acc
    } else {
        let prev = first_occurrences(acc, s.drop_last());
        if prev.contains(s.last()) { prev } else { prev.push(s.last()) }
    }
}

/// The segments of a place joined by dots: `p.x.z`.
pub open spec fn dotted(p: Seq<Seq<char>>) -> Seq<char>
    decreases p.len(),
{
    if p.len() == 0 {
        seq![]
    } else if p.len() == 1 {
        p[0]
    } else {
        dotted(p.drop_last()) + "."@ + p.last()
    }
}

/// The report for each place in `reported`.
pub open spec fn overlap_reports(reported: Seq<Seq<Seq<char>>>, span: Span) -> Seq<ErrorView> {
    reported.map_values(|p: Seq<Seq<char>>| ErrorView::OverlappingArguments { path: dotted(p), span })
}

proof fn lemma_first_occurrences_step<A>(acc: Seq<A>, s: Seq<A>, x: A)
    ensures
        first_occurrences(acc, s.push(x)) == (if first_occurrences(acc, s).contains(x) {
            first_occurrences(acc, s)
        } else {
            first_occurrences(acc, s).push(x)
        }),
{
    assert(s.push(x).drop_last() =~= s);
}

/// Two lists of names with the same names.
pub fn same_names(a: &Vec<String>, b: &Vec<String>) -> (r: bool)
    ensures
        r == (views(a@) == views(b@)),
{
    if a.len() != b.len() {
        assert(views(a@).len() != views(b@).len());
        return false;
    }
    let mut i: usize = 0;
    while i < a.len()
        invariant
            i <= a@.len(),
            a@.len() == b@.len(),
            forall|j: int| 0 <= j < i ==> a@[j]@ == b@[j]@,
        decreases a.len() - i,
    {
        if !str_equals(a[i].as_str(), b[i].as_str()) {
            assert(views(a@)[i as int] != views(b@)[i as int]);
            return false;
        }
        i += 1;
    }
    assert(views(a@) =~= views(b@));
    true
}

/// The views of a list of places.
pub open spec fn place_views(s: Seq<Vec<String>>) -> Seq<Seq<Seq<char>>> {
    s.map_values(|p: Vec<String>| views(p@))
}

/// True when `places` holds a place with the names of `p`.
fn holds_place(places: &Vec<Vec<String>>, p: &Vec<String>) -> (r: bool)
    ensures
        r == place_views(places@).contains(views(p@)),
{
    let mut i: usize = 0;
    while i < places.len()
        invariant
            i <= places@.len(),
            forall|j: int| 0 <= j < i ==> views(places@[j]@) != views(p@),
        decreases places.len() - i,
    {
        if same_names(&places[i], p) {
            assert(place_views(places@)[i as int] == views(p@));
            return true;
        }
        i += 1;
    }
    assert forall|j: int| 0 <= j < place_views(places@).len() implies place_views(places@)[j] != views(p@) by {
        assert(views(places@[j]@) != views(p@));
    }
    false
}

/// The segments of a place joined by dots.
fn join_dotted(p: &Vec<String>) -> (r: String)
    ensures
        r@ == dotted(views(p@)),
{
    let mut r = String::new();
    let mut i: usize = 0;
    while i < p.len()
        invariant
            i <= p@.len(),
            r@ == dotted(views(p@).take(i as int)),
        decreases p.len() - i,
    {
        proof {
            assert(views(p@).take(i + 1).drop_last() =~= views(p@).take(i as int));
            assert(views(p@).take(i + 1).last() == p@[i as int]@);
        }
        if i > 0 {
            r.append(".");
            r.append(p[i].as_str());
        } else {
            r.append(p[i].as_str());
            assert(r@ =~= views(p@).take(1)[0]);
        }
        i += 1;
    }
    assert(views(p@).take(i as int) =~= views(p@));
    r
}

impl SemanticAnalyzer {
    /// Whether a convention needs sole access to its argument.
    pub fn is_exclusive(convention: ParamConvention) -> (r: bool)
        ensures
            r == exclusive(convention),
    {
        match convention {
            ParamConvention::Mut => true,
            ParamConvention::Sink => true,
            ParamConvention::Let => false,
        }
    }

    /// The shorter of two paths when one is a prefix of the other. `p` and
    /// `p.x` overlap in `p`; `p.x` and `p.y` share a root but no place.
    pub fn overlap(first: &Vec<String>, second: &Vec<String>) -> (r: Option<Vec<String>>)
        ensures
            r is Some <==> overlap_of(views(first@), views(second@)) is Some,
            r matches Some(p) ==> overlap_of(views(first@), views(second@)) == Some(views(p@)),
    {
        let (shorter, longer) = if first.len() <= second.len() { (first, second) } else { (second, first) };
        let mut i: usize = 0;
        while i < shorter.len()
            invariant
                i <= shorter@.len(),
                shorter@.len() <= longer@.len(),
                forall|j: int| 0 <= j < i ==> shorter@[j]@ == longer@[j]@,
            decreases shorter.len() - i,
        {
            if !str_equals(shorter[i].as_str(), longer[i].as_str()) {
                assert(views(longer@).take(views(shorter@).len() as int)[i as int] != views(shorter@)[i as int]);
                return None;
            }
            i += 1;
        }
        assert(views(longer@).take(views(shorter@).len() as int) =~= views(shorter@));
        Some(crate::closures::copy_names(shorter))
    }

    /// The place an argument reaches: its root binding, then each field on
    /// the way down. `None` means a fresh value, which shares a place with
    /// nothing.
    pub fn access_path(expr: &Expr) -> (r: Option<Vec<String>>)
        ensures
            r is Some <==> place_of(*expr) is Some,
            r matches Some(p) ==> place_of(*expr) == Some(views(p@)),
        decreases *expr,
    {
        match expr {
            Expr::Reference { path, .. } => {
                if path.len() == 0 {
                    return None;
                }
                let mut out: Vec<String> = Vec::new();
                let mut i: usize = 0;
                while i < path.len()
                    invariant
                        i <= path@.len(),
                        views(out@) == path@.take(i as int).map_values(|x: crate::ast::Ident| x.name@),
                    decreases path.len() - i,
                {
                    let ghost before = out@;
                    out.push(path[i].name.clone());
                    proof {
                        assert(path@.take(i + 1) =~= path@.take(i as int).push(path@[i as int]));
                        assert(views(out@) =~= views(before).push(path@[i as int].name@));
                    }
                    assert(views(out@) =~= path@.take(i + 1).map_values(|x: crate::ast::Ident| x.name@));
                    i += 1;
                }
                assert(path@.take(i as int) =~= path@);
                Some(out)
            },
            Expr::FieldAccess { object, field, .. } => {
                match Self::access_path(object) {
                    Some(mut p) => {
                        let ghost before = p@;
                        p.push(field.name.clone());
                        assert(views(p@) =~= views(before).push(field.name@));
                        Some(p)
                    },
                    None => None,
                }
            },
            Expr::Group { expr: inner, .. } => Self::access_path(inner),
            Expr::DictAccess { dict, .. } => Self::access_path(dict),
            _ => None,
        }
    }

    /// Report each pair of arguments that reach the same place when one of
    /// the two is `mut` or `sink`. `accesses` holds every argument of one
    /// call, the receiver too, each with the convention of the parameter it
    /// fills. Each shared place is reported once.
    pub fn validate_exclusive_access(&mut self, accesses: &Vec<(ParamConvention, &Expr)>, span: Span)
        ensures
            final(self).same_state(*old(self)),
            error_views(final(self).errors@) == error_views(old(self).errors@) + overlap_reports(
                first_occurrences(Seq::<Seq<Seq<char>>>::empty(), all_overlaps(places(accesses@), places(accesses@).len() as int)),
                span,
            ),
    {
        let ghost e0 = error_views(self.errors@);
        let ghost s0 = *self;
        let mut paths: Vec<(ParamConvention, Vec<String>)> = Vec::new();
        let mut a: usize = 0;
        while a < accesses.len()
            invariant
                a <= accesses@.len(),
                paths@.map_values(|p: (ParamConvention, Vec<String>)| (p.0, views(p.1@))) == places(accesses@.take(a as int)),
            decreases accesses.len() - a,
        {
            proof { assert(accesses@.take(a + 1).drop_last() =~= accesses@.take(a as int)); }
            let ghost before = paths@;
            match Self::access_path(accesses[a].1) {
                Some(p) => {
                    paths.push((accesses[a].0, p));
                },
                None => {},
            }
            assert(paths@.map_values(|p: (ParamConvention, Vec<String>)| (p.0, views(p.1@)))
                =~= places(accesses@.take(a + 1)));
            a += 1;
        }
        assert(accesses@.take(a as int) =~= accesses@);
        let ghost pv = places(accesses@);
        let n = paths.len();
        let mut reported: Vec<Vec<String>> = Vec::new();
        let mut i: usize = 0;
        while i < n
            invariant
                n == paths@.len(),
                pv == paths@.map_values(|p: (ParamConvention, Vec<String>)| (p.0, views(p.1@))),
                pv.len() == n,
                i <= n,
                self.same_state(s0),
                place_views(reported@) == first_occurrences(Seq::<Seq<Seq<char>>>::empty(), all_overlaps(pv, i as int)),
                error_views(self.errors@) == e0 + overlap_reports(place_views(reported@), span),
            decreases n - i,
        {
            let mut j: usize = i + 1;
            while j < n
                invariant
                    n == paths@.len(),
                    pv == paths@.map_values(|p: (ParamConvention, Vec<String>)| (p.0, views(p.1@))),
                    pv.len() == n,
                    i < n,
                    i + 1 <= j <= n,
                    self.same_state(s0),
                    place_views(reported@) == first_occurrences(Seq::<Seq<Seq<char>>>::empty(),
                        all_overlaps(pv, i as int) + row_overlaps(pv, i as int, j as int)),
                    error_views(self.errors@) == e0 + overlap_reports(place_views(reported@), span),
                decreases n - j,
            {
                let ghost prefix = all_overlaps(pv, i as int) + row_overlaps(pv, i as int, j as int);
                proof {
                    assert(row_overlaps(pv, i as int, j + 1) == row_overlaps(pv, i as int, j as int) + pair_overlap(pv, i as int, j as int));
                    assert(all_overlaps(pv, i as int) + row_overlaps(pv, i as int, j + 1) =~= prefix + pair_overlap(pv, i as int, j as int));
                }
                let exclusive_pair = Self::is_exclusive(paths[i].0) || Self::is_exclusive(paths[j].0);
                if exclusive_pair {
                    match Self::overlap(&paths[i].1, &paths[j].1) {
                        Some(shared) => {
                            proof {
                                assert(pair_overlap(pv, i as int, j as int) =~= seq![views(shared@)]);
                                assert(prefix.push(views(shared@)) =~= prefix + seq![views(shared@)]);
                                lemma_first_occurrences_step(Seq::<Seq<Seq<char>>>::empty(), prefix, views(shared@));
                            }
                            if !holds_place(&reported, &shared) {
                                let text = join_dotted(&shared);
                                let ghost before_e = error_views(self.errors@);
                                let ghost before_r = reported@;
                                self.errors.push(CompilerError::OverlappingArguments { path: text, span });
                                reported.push(shared);
                                proof {
                                    assert(place_views(reported@) =~= place_views(before_r).push(views(shared@)));
                                    assert(overlap_reports(place_views(reported@), span)
                                        =~= overlap_reports(place_views(before_r), span).push(
                                            ErrorView::OverlappingArguments { path: dotted(views(shared@)), span }));
                                    assert(error_views(self.errors@) =~= before_e.push(
                                        ErrorView::OverlappingArguments { path: dotted(views(shared@)), span }));
                                }
                            }
                        },
                        None => {
                            assert(pair_overlap(pv, i as int, j as int) =~= Seq::<Seq<Seq<char>>>::empty());
                            assert(prefix + Seq::<Seq<Seq<char>>>::empty() =~= prefix);
                        },
                    }
                } else {
                    assert(pair_overlap(pv, i as int, j as int) =~= Seq::<Seq<Seq<char>>>::empty());
                    assert(prefix + Seq::<Seq<Seq<char>>>::empty() =~= prefix);
                }
                j += 1;
            }
            proof {
                assert(all_overlaps(pv, i + 1) == all_overlaps(pv, i as int) + row_overlaps(pv, i as int, n as int));
            }
            i += 1;
        }
    }
}

} // verus!

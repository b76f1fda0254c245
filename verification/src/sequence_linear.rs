//! A sequence must be consumed exactly once.
//!
//! A sequence has at most one reader, so a second read of a sequence
//! binding is `SeqUsedTwice`; a read of an outer sequence inside a body
//! that can run more than once (a `for` body, a closure argument) is a
//! read per pass and is reported the same way. A sequence must be read on
//! every path: when one branch of an `if`, one arm of a `match` or the
//! right side of `&&` or `||` reads it and another path does not, the
//! walk reports `SeqNotConsumed` at its origin, and so it does for a
//! sequence binding that nothing reads before its scope closes.
//!
//! Whether a value with no written type is a sequence is what type
//! inference says of it; the walk is given the spans of the expressions
//! that inference types as a sequence.

use vstd::prelude::*;
use vstd::string::StringExecFns;
use crate::analyzer::SemanticAnalyzer;
use crate::ast::{
    expr_span, BinaryOperator, BindingPattern, BlockStatement, Definition, Expr, File, FnParam, Ident, MatchArm,
    ParamConvention, Span, Statement, Type,
};
use crate::error::{error_views, CompilerError, ErrorView};
use crate::sem_type::{sem_of, SType, SemType};
use crate::text::str_equals;

verus! {

broadcast use vstd::std_specs::vec::group_vec_axioms;

/// One binding in scope, and whether anything has read it. Every binding
/// is recorded, not only the sequences: a plain binding that reuses a name
/// hides the sequence above it.
#[derive(Clone, Copy)]
pub struct LinearBinding {
    /// Where the binding was made, for the "never consumed" report.
    pub origin: Span,
    /// Where the first read was, once one happens.
    pub consumed_at: Option<Span>,
    pub holds_a_sequence: bool,
    /// True while the walk is in a body that can run more than once and
    /// the binding is from outside that body.
    pub outside_repeat: bool,
}

/// The frames of bindings of one function body, innermost last, each
/// binding under its name.
pub type LinearScopes = Seq<Seq<(Seq<char>, LinearBinding)>>;

pub open spec fn frame_view(f: Seq<(String, LinearBinding)>) -> Seq<(Seq<char>, LinearBinding)> {
    f.map_values(|e: (String, LinearBinding)| (e.0@, e.1))
}

pub open spec fn scopes_view(s: Seq<Vec<(String, LinearBinding)>>) -> LinearScopes {
    s.map_values(|f: Vec<(String, LinearBinding)>| frame_view(f@))
}

/// The position of the first binding called `n` in a frame.
pub open spec fn entry_index(f: Seq<(Seq<char>, LinearBinding)>, n: Seq<char>) -> Option<int>
    decreases f.len(),
{
    if f.len() == 0 {
        None
    } else if f[0].0 == n {
        Some(0)
    } else {
        match entry_index(f.drop_first(), n) {
            Some(i) => Some(i + 1),
            None => None,
        }
    }
}

/// A fresh binding made at `origin`.
pub open spec fn fresh(origin: Span, holds: bool) -> LinearBinding {
    LinearBinding { origin, consumed_at: None, holds_a_sequence: holds, outside_repeat: false }
}

/// `b` read at `at`.
pub open spec fn read_at_span(b: LinearBinding, at: Span) -> LinearBinding {
    LinearBinding { origin: b.origin, consumed_at: Some(at), holds_a_sequence: b.holds_a_sequence, outside_repeat: b.outside_repeat }
}

/// `b` with its repeat flag set to `flag`.
pub open spec fn with_repeat(b: LinearBinding, flag: bool) -> LinearBinding {
    LinearBinding { origin: b.origin, consumed_at: b.consumed_at, holds_a_sequence: b.holds_a_sequence, outside_repeat: flag }
}

/// `b` with its first read set to `at`.
pub open spec fn with_read(b: LinearBinding, at: Option<Span>) -> LinearBinding {
    LinearBinding { origin: b.origin, consumed_at: at, holds_a_sequence: b.holds_a_sequence, outside_repeat: b.outside_repeat }
}

/// Bind `n` in the innermost frame, replacing a binding of that name
/// there.
pub open spec fn bind_name(s: LinearScopes, n: Seq<char>, b: LinearBinding) -> LinearScopes {
    if s.len() == 0 {
        s
    } else {
        let f = s.last();
        s.update(s.len() - 1, match entry_index(f, n) {
            Some(i) => f.update(i, (n, b)),
            None => f.push((n, b)),
        })
    }
}

/// Read `n` from the frames up to depth `d`, innermost first: the first
/// binding of the name decides. A plain binding reads silently; a
/// sequence read before, or from outside a repeated body, is used twice.
pub open spec fn read_from(s: LinearScopes, d: int, n: Seq<char>, at: Span) -> (Seq<ErrorView>, LinearScopes)
    decreases d + 1,
{
    if d < 0 || d >= s.len() {
        (seq![], s)
    } else {
        match entry_index(s[d], n) {
            None => read_from(s, d - 1, n, at),
            Some(i) => {
                let b = s[d][i].1;
                if !b.holds_a_sequence {
                    (seq![], s)
                } else if b.consumed_at is Some || b.outside_repeat {
                    (seq![ErrorView::SeqUsedTwice { name: n, span: at }], s)
                } else {
                    (seq![], s.update(d, s[d].update(i, (n, read_at_span(b, at)))))
                }
            },
        }
    }
}

pub open spec fn read_name(s: LinearScopes, n: Seq<char>, at: Span) -> (Seq<ErrorView>, LinearScopes) {
    read_from(s, s.len() - 1, n, at)
}

/// A `SeqNotConsumed` for each sequence binding of a frame that nothing
/// read.
pub open spec fn unconsumed(f: Seq<(Seq<char>, LinearBinding)>) -> Seq<ErrorView>
    decreases f.len(),
{
    if f.len() == 0 {
        seq![]
    } else {
        unconsumed(f.drop_last()) + if f.last().1.holds_a_sequence && f.last().1.consumed_at is None {
            seq![ErrorView::SeqNotConsumed { span: f.last().1.origin }]
        } else {
            Seq::<ErrorView>::empty()
        }
    }
}

/// Close the innermost frame.
pub open spec fn close_frame(s: LinearScopes) -> (Seq<ErrorView>, LinearScopes) {
    if s.len() == 0 { (seq![], s) } else { (unconsumed(s.last()), s.drop_last()) }
}

/// Every binding marked as from outside a repeated body.
pub open spec fn mark_frame(f: Seq<(Seq<char>, LinearBinding)>) -> Seq<(Seq<char>, LinearBinding)> {
    f.map_values(|e: (Seq<char>, LinearBinding)| (e.0, with_repeat(e.1, true)))
}

pub open spec fn mark_all(s: LinearScopes) -> LinearScopes {
    s.map_values(|f: Seq<(Seq<char>, LinearBinding)>| mark_frame(f))
}

/// The bindings of a frame at depth `d` that were not marked yet.
pub open spec fn unmarked_in(f: Seq<(Seq<char>, LinearBinding)>, d: int) -> Seq<(int, Seq<char>)>
    decreases f.len(),
{
    if f.len() == 0 {
        seq![]
    } else {
        unmarked_in(f.drop_last(), d) + if !f.last().1.outside_repeat { seq![(d, f.last().0)] } else { Seq::<(int, Seq<char>)>::empty() }
    }
}

pub open spec fn unmarked(s: LinearScopes) -> Seq<(int, Seq<char>)>
    decreases s.len(),
{
    if s.len() == 0 { seq![] } else { unmarked(s.drop_last()) + unmarked_in(s.last(), s.len() - 1) }
}

/// Clear the mark of each binding of `marks`, in order.
pub open spec fn unmark(s: LinearScopes, marks: Seq<(int, Seq<char>)>) -> LinearScopes
    decreases marks.len(),
{
    if marks.len() == 0 {
        s
    } else {
        let t = unmark(s, marks.drop_last());
        let (d, n) = marks.last();
        if 0 <= d < t.len() {
            match entry_index(t[d], n) {
                Some(i) => t.update(d, t[d].update(i, (t[d][i].0, with_repeat(t[d][i].1, false)))),
                None => t,
            }
        } else {
            t
        }
    }
}

/// The first read of `n` at depth `d` that a state records.
pub open spec fn read_in(state: LinearScopes, d: int, n: Seq<char>) -> Option<Span> {
    if 0 <= d < state.len() {
        match entry_index(state[d], n) {
            Some(i) => state[d][i].1.consumed_at,
            None => None,
        }
    } else {
        None
    }
}

/// The read of the first of `states` that read `n` at depth `d`.
pub open spec fn first_read(states: Seq<LinearScopes>, d: int, n: Seq<char>) -> Option<Span>
    decreases states.len(),
{
    if states.len() == 0 {
        None
    } else {
        match first_read(states.drop_last(), d, n) {
            Some(at) => Some(at),
            None => read_in(states.last(), d, n),
        }
    }
}

/// Some state did not read `n` at depth `d`.
pub open spec fn some_unread(states: Seq<LinearScopes>, d: int, n: Seq<char>) -> bool {
    exists|j: int| 0 <= j < states.len() && #[trigger] read_in(states[j], d, n) is None
}

/// Merge one binding of the state before a set of alternatives with what
/// each alternative left.
pub open spec fn merge_entry(e: (Seq<char>, LinearBinding), states: Seq<LinearScopes>, d: int) -> (Seq<ErrorView>, (Seq<char>, LinearBinding)) {
    if e.1.consumed_at is Some {
        (seq![], e)
    } else {
        let fr = first_read(states, d, e.0);
        (if fr is Some && some_unread(states, d, e.0) {
            seq![ErrorView::SeqNotConsumed { span: e.1.origin }]
        } else {
            seq![]
        }, (e.0, with_read(e.1, fr)))
    }
}

pub open spec fn merge_frame(f: Seq<(Seq<char>, LinearBinding)>, states: Seq<LinearScopes>, d: int) -> (Seq<ErrorView>, Seq<(Seq<char>, LinearBinding)>)
    decreases f.len(),
{
    if f.len() == 0 {
        (seq![], seq![])
    } else {
        let rest = merge_frame(f.drop_last(), states, d);
        let last = merge_entry(f.last(), states, d);
        (rest.0 + last.0, rest.1.push(last.1))
    }
}

/// Merge the state before a set of alternatives with the states they
/// left: a binding that some alternative read takes the first read, and
/// a sequence that some read and some did not is reported.
pub open spec fn merge_states(before: LinearScopes, states: Seq<LinearScopes>) -> (Seq<ErrorView>, LinearScopes)
    decreases before.len(),
{
    if before.len() == 0 {
        (seq![], seq![])
    } else {
        let rest = merge_states(before.drop_last(), states);
        let last = merge_frame(before.last(), states, before.len() - 1);
        (rest.0 + last.0, rest.1.push(last.1))
    }
}

/// A written type that is a sequence.
pub open spec fn seq_type(t: Type) -> bool {
    sem_of(t) matches SType::Generic { base, .. } && base == "Seq"@
}

/// Whether a binding made from `value`, with the written type `ty`, holds
/// a sequence: the written type says, else inference does.
pub open spec fn binds_a_sequence(ty: Option<Type>, value: Expr, seqs: Seq<Span>) -> bool {
    match ty {
        Some(t) => seq_type(t),
        None => seqs.contains(expr_span(value)),
    }
}

/// What the walk of `e` reports, and the frames it leaves.
pub open spec fn linear_walk(e: Expr, s: LinearScopes, seqs: Seq<Span>) -> (Seq<ErrorView>, LinearScopes)
    decreases e, 0nat,
{
    match e {
        Expr::Reference { path, span } => if path@.len() == 1 { read_name(s, path@[0].name@, span) } else { (seq![], s) },
        Expr::Block { statements, result, .. } => {
            let a = linear_statements(statements@, s.push(seq![]), seqs);
            let b = linear_walk(*result, a.1, seqs);
            let c = close_frame(b.1);
            (a.0 + b.0 + c.0, c.1)
        },
        Expr::ForExpr { collection, body, .. } => {
            let a = linear_walk(*collection, s, seqs);
            let b = linear_repeated(*body, a.1, seqs);
            (a.0 + b.0, b.1)
        },
        Expr::MethodCall { receiver, args, .. } => {
            let a = linear_walk(*receiver, s, seqs);
            let b = linear_args(args@, a.1, seqs);
            (a.0 + b.0, b.1)
        },
        Expr::Invocation { args, .. } => linear_args(args@, s, seqs),
        Expr::BinaryOp { left, op, right, .. } => {
            let a = linear_walk(*left, s, seqs);
            if op == BinaryOperator::And || op == BinaryOperator::Or {
                let r = linear_walk(*right, a.1, seqs);
                let m = merge_states(a.1, seq![r.1, a.1]);
                (a.0 + r.0 + m.0, m.1)
            } else {
                let b = linear_walk(*right, a.1, seqs);
                (a.0 + b.0, b.1)
            }
        },
        Expr::UnaryOp { operand, .. } => linear_walk(*operand, s, seqs),
        Expr::IfExpr { condition, then_branch, else_branch, .. } => {
            let a = linear_walk(*condition, s, seqs);
            let t = linear_walk(*then_branch, a.1, seqs);
            let f = match else_branch {
                Some(x) => linear_walk(*x, a.1, seqs),
                None => (seq![], a.1),
            };
            let m = merge_states(a.1, seq![t.1, f.1]);
            (a.0 + t.0 + f.0 + m.0, m.1)
        },
        Expr::LetExpr { pattern, value, body, ty, span, .. } => {
            let a = linear_walk(*value, s, seqs);
            let framed = a.1.push(seq![]);
            let bound = match pattern {
                BindingPattern::Simple(id) => bind_name(framed, id.name@, fresh(span, binds_a_sequence(ty, *value, seqs))),
                _ => framed,
            };
            let b = linear_walk(*body, bound, seqs);
            let c = close_frame(b.1);
            (a.0 + b.0 + c.0, c.1)
        },
        Expr::Group { expr, .. } => linear_walk(*expr, s, seqs),
        Expr::MatchExpr { scrutinee, arms, .. } => {
            let a = linear_walk(*scrutinee, s, seqs);
            let outs = linear_arms(arms@, a.1, seqs);
            let m = merge_states(a.1, outs.1);
            (a.0 + outs.0 + m.0, m.1)
        },
        Expr::Array { elements, .. } => linear_list(elements@, s, seqs),
        Expr::Tuple { fields, .. } => linear_labeled(fields@, s, seqs),
        Expr::DictLiteral { entries, .. } => linear_entries(entries@, s, seqs),
        Expr::DictAccess { dict, key, .. } => {
            let a = linear_walk(*dict, s, seqs);
            let b = linear_walk(*key, a.1, seqs);
            (a.0 + b.0, b.1)
        },
        Expr::FieldAccess { object, .. } => linear_walk(*object, s, seqs),
        Expr::EnumInstantiation { data, .. } => linear_labeled(data@, s, seqs),
        Expr::InferredEnumInstantiation { data, .. } => linear_labeled(data@, s, seqs),
        Expr::ClosureExpr { body, .. } => linear_walk(*body, s, seqs),
        Expr::Literal { .. } => (seq![], s),
    }
}

/// Walk `body` as code that can run more than once: every binding in
/// scope is from outside it.
pub open spec fn linear_repeated(body: Expr, s: LinearScopes, seqs: Seq<Span>) -> (Seq<ErrorView>, LinearScopes)
    decreases body, 1nat,
{
    let marks = unmarked(s);
    let w = linear_walk(body, mark_all(s).push(seq![]), seqs);
    let c = close_frame(w.1);
    (w.0 + c.0, unmark(c.1, marks))
}

/// Walk the arguments of a call; a closure literal argument can run once
/// per element.
pub open spec fn linear_args(args: Seq<(Option<Ident>, Expr)>, s: LinearScopes, seqs: Seq<Span>) -> (Seq<ErrorView>, LinearScopes)
    decreases args, 0nat,
{
    if args.len() == 0 {
        (seq![], s)
    } else {
        let a = linear_args(args.drop_last(), s, seqs);
        let b = if args.last().1 is ClosureExpr {
            linear_repeated(args.last().1, a.1, seqs)
        } else {
            linear_walk(args.last().1, a.1, seqs)
        };
        (a.0 + b.0, b.1)
    }
}

pub open spec fn linear_list(es: Seq<Expr>, s: LinearScopes, seqs: Seq<Span>) -> (Seq<ErrorView>, LinearScopes)
    decreases es, 0nat,
{
    if es.len() == 0 {
        (seq![], s)
    } else {
        let a = linear_list(es.drop_last(), s, seqs);
        let b = linear_walk(es.last(), a.1, seqs);
        (a.0 + b.0, b.1)
    }
}

pub open spec fn linear_labeled(fs: Seq<(Ident, Expr)>, s: LinearScopes, seqs: Seq<Span>) -> (Seq<ErrorView>, LinearScopes)
    decreases fs, 0nat,
{
    if fs.len() == 0 {
        (seq![], s)
    } else {
        let a = linear_labeled(fs.drop_last(), s, seqs);
        let b = linear_walk(fs.last().1, a.1, seqs);
        (a.0 + b.0, b.1)
    }
}

pub open spec fn linear_entries(es: Seq<(Expr, Expr)>, s: LinearScopes, seqs: Seq<Span>) -> (Seq<ErrorView>, LinearScopes)
    decreases es, 0nat,
{
    if es.len() == 0 {
        (seq![], s)
    } else {
        let a = linear_entries(es.drop_last(), s, seqs);
        let k = linear_walk(es.last().0, a.1, seqs);
        let v = linear_walk(es.last().1, k.1, seqs);
        (a.0 + k.0 + v.0, v.1)
    }
}

/// Walk each arm's body from the same state `s`: the reports of all of
/// them in order, and the state each leaves.
pub open spec fn linear_arms(arms: Seq<MatchArm>, s: LinearScopes, seqs: Seq<Span>) -> (Seq<ErrorView>, Seq<LinearScopes>)
    decreases arms, 0nat,
{
    if arms.len() == 0 {
        (seq![], seq![])
    } else {
        let a = linear_arms(arms.drop_last(), s, seqs);
        let b = linear_walk(arms.last().body, s, seqs);
        (a.0 + b.0, a.1.push(b.1))
    }
}

pub open spec fn linear_statement(st: BlockStatement, s: LinearScopes, seqs: Seq<Span>) -> (Seq<ErrorView>, LinearScopes)
    decreases st, 0nat,
{
    match st {
        BlockStatement::Let { pattern, value, ty, span, .. } => {
            let a = linear_walk(value, s, seqs);
            let bound = match pattern {
                BindingPattern::Simple(id) => bind_name(a.1, id.name@, fresh(span, binds_a_sequence(ty, value, seqs))),
                _ => a.1,
            };
            (a.0, bound)
        },
        BlockStatement::Assign { target, value, .. } => {
            let a = linear_walk(target, s, seqs);
            let b = linear_walk(value, a.1, seqs);
            (a.0 + b.0, b.1)
        },
        BlockStatement::Expr(e) => {
            let a = linear_walk(e, s, seqs);
            (a.0 + if seqs.contains(expr_span(e)) {
                seq![ErrorView::SeqNotConsumed { span: expr_span(e) }]
            } else {
                Seq::<ErrorView>::empty()
            }, a.1)
        },
    }
}

pub open spec fn linear_statements(sts: Seq<BlockStatement>, s: LinearScopes, seqs: Seq<Span>) -> (Seq<ErrorView>, LinearScopes)
    decreases sts, 0nat,
{
    if sts.len() == 0 {
        (seq![], s)
    } else {
        let a = linear_statements(sts.drop_last(), s, seqs);
        let b = linear_statement(sts.last(), a.1, seqs);
        (a.0 + b.0, b.1)
    }
}

pub proof fn lemma_entry_index_first(f: Seq<(Seq<char>, LinearBinding)>, n: Seq<char>, i: int)
    requires
        0 <= i < f.len(),
        f[i].0 == n,
        forall|j: int| 0 <= j < i ==> f[j].0 != n,
    ensures
        entry_index(f, n) == Some(i),
    decreases i,
{
    if i > 0 {
        lemma_entry_index_first(f.drop_first(), n, i - 1);
    }
}

pub proof fn lemma_entry_index_none(f: Seq<(Seq<char>, LinearBinding)>, n: Seq<char>)
    requires
        forall|j: int| 0 <= j < f.len() ==> f[j].0 != n,
    ensures
        entry_index(f, n) is None,
    decreases f.len(),
{
    if f.len() > 0 {
        lemma_entry_index_none(f.drop_first(), n);
    }
}

pub proof fn lemma_entry_index_bounds(f: Seq<(Seq<char>, LinearBinding)>, n: Seq<char>)
    ensures
        entry_index(f, n) matches Some(i) ==> 0 <= i < f.len() && f[i].0 == n,
    decreases f.len(),
{
    if f.len() > 0 {
        lemma_entry_index_bounds(f.drop_first(), n);
    }
}

/// The position of the first binding called `n` in a frame.
fn find_entry(f: &Vec<(String, LinearBinding)>, n: &str) -> (r: Option<usize>)
    ensures
        r matches Some(i) ==> entry_index(frame_view(f@), n@) == Some(i as int) && i < f@.len(),
        r is None ==> entry_index(frame_view(f@), n@) is None,
{
    let mut i: usize = 0;
    while i < f.len()
        invariant
            i <= f@.len(),
            forall|j: int| 0 <= j < i ==> frame_view(f@)[j].0 != n@,
        decreases f.len() - i,
    {
        if str_equals(f[i].0.as_str(), n) {
            proof { lemma_entry_index_first(frame_view(f@), n@, i as int); }
            return Some(i);
        }
        i += 1;
    }
    proof { lemma_entry_index_none(frame_view(f@), n@); }
    None
}

/// A copy of a frame.
fn copy_frame(f: &Vec<(String, LinearBinding)>) -> (r: Vec<(String, LinearBinding)>)
    ensures
        frame_view(r@) == frame_view(f@),
{
    let mut out: Vec<(String, LinearBinding)> = Vec::new();
    let mut k: usize = 0;
    while k < f.len()
        invariant
            k <= f@.len(),
            frame_view(out@) == frame_view(f@).take(k as int),
        decreases f.len() - k,
    {
        let ghost before = out@;
        out.push((f[k].0.clone(), f[k].1));
        assert(frame_view(out@) =~= frame_view(f@).take(k + 1));
        k += 1;
    }
    assert(frame_view(f@).take(k as int) =~= frame_view(f@));
    out
}

/// A copy of the frames.
fn copy_scopes(s: &Vec<Vec<(String, LinearBinding)>>) -> (r: Vec<Vec<(String, LinearBinding)>>)
    ensures
        scopes_view(r@) == scopes_view(s@),
{
    let mut out: Vec<Vec<(String, LinearBinding)>> = Vec::new();
    let mut d: usize = 0;
    while d < s.len()
        invariant
            d <= s@.len(),
            scopes_view(out@) == scopes_view(s@).take(d as int),
        decreases s.len() - d,
    {
        let f = copy_frame(&s[d]);
        out.push(f);
        assert(scopes_view(out@) =~= scopes_view(s@).take(d + 1));
        d += 1;
    }
    assert(scopes_view(s@).take(d as int) =~= scopes_view(s@));
    out
}

/// Set the binding at position `i` of the frame at depth `d`.
fn set_binding(s: &mut Vec<Vec<(String, LinearBinding)>>, d: usize, i: usize, b: LinearBinding)
    requires
        d < old(s)@.len(),
        i < old(s)@[d as int]@.len(),
    ensures
        scopes_view(final(s)@) == scopes_view(old(s)@).update(d as int, scopes_view(old(s)@)[d as int].update(i as int, (scopes_view(old(s)@)[d as int][i as int].0, b))),
{
    let ghost v0 = scopes_view(s@);
    let ghost s0 = s@;
    s[d][i].1 = b;
    assert(s@.len() == s0.len());
    assert(s@[d as int]@ == s0[d as int]@.update(i as int, (s0[d as int]@[i as int].0, b)));
    assert(forall|j: int| 0 <= j < s0.len() && j != d ==> s@[j] == s0[j]);
    assert(frame_view(s@[d as int]@) =~= v0[d as int].update(i as int, (v0[d as int][i as int].0, b)));
    assert(scopes_view(s@) =~= v0.update(d as int, v0[d as int].update(i as int, (v0[d as int][i as int].0, b))));
}

/// Bind `n` in the innermost frame, replacing a binding of that name
/// there.
fn bind(s: &mut Vec<Vec<(String, LinearBinding)>>, n: &str, origin: Span, holds: bool)
    ensures
        scopes_view(final(s)@) == bind_name(scopes_view(old(s)@), n@, fresh(origin, holds)),
{
    let ghost v0 = scopes_view(s@);
    if s.len() == 0 {
        return;
    }
    let last = s.len() - 1;
    let b = LinearBinding { origin, consumed_at: None, holds_a_sequence: holds, outside_repeat: false };
    match find_entry(&s[last], n) {
        Some(i) => {
            let ghost s0 = s@;
            let entry = (String::from_str(n), b);
            let ghost e = entry;
            s[last][i] = entry;
            assert(s@[last as int]@ == s0[last as int]@.update(i as int, e));
            assert(forall|j: int| 0 <= j < s0.len() && j != last ==> s@[j] == s0[j]);
            assert(frame_view(s@[last as int]@) =~= frame_view(s0[last as int]@).update(i as int, (n@, b)));
            assert(scopes_view(s@) =~= v0.update(last as int, v0[last as int].update(i as int, (n@, b))));
        },
        None => {
            let ghost s0 = s@;
            s[last].push((String::from_str(n), b));
            assert(forall|j: int| 0 <= j < s0.len() && j != last ==> s@[j] == s0[j]);
            assert(frame_view(s@[last as int]@) =~= frame_view(s0[last as int]@).push((n@, b)));
            assert(scopes_view(s@) =~= v0.update(last as int, v0[last as int].push((n@, b))));
        },
    }
}

/// Mark every binding as from outside a repeated body; the positions
/// of those that were not marked yet come back.
fn mark_outside(s: &mut Vec<Vec<(String, LinearBinding)>>) -> (marks: Vec<(usize, String)>)
    ensures
        scopes_view(final(s)@) == mark_all(scopes_view(old(s)@)),
        marks_view(marks@) == unmarked(scopes_view(old(s)@)),
{
    let ghost v0 = scopes_view(s@);
    let mut marks: Vec<(usize, String)> = Vec::new();
    let mut out: Vec<Vec<(String, LinearBinding)>> = Vec::new();
    let mut d: usize = 0;
    while d < s.len()
        invariant
            d <= s@.len(),
            scopes_view(s@) == v0,
            scopes_view(out@) == mark_all(v0.take(d as int)),
            marks_view(marks@) == unmarked(v0.take(d as int)),
        decreases s.len() - d,
    {
        let f = &s[d];
        let ghost fv = frame_view(f@);
        assert(fv == v0[d as int]);
        let mut frame: Vec<(String, LinearBinding)> = Vec::new();
        let ghost m0 = marks_view(marks@);
        let mut k: usize = 0;
        while k < f.len()
            invariant
                k <= f@.len(),
                fv == frame_view(f@),
                frame_view(frame@) == mark_frame(fv.take(k as int)),
                marks_view(marks@) == m0 + unmarked_in(fv.take(k as int), d as int),
            decreases f.len() - k,
        {
            let e = &f[k];
            let ghost mb = marks@;
            if !e.1.outside_repeat {
                marks.push((d, e.0.clone()));
                assert(marks_view(marks@) =~= marks_view(mb).push((d as int, e.0@)));
            }
            proof {
                assert(fv.take(k + 1).drop_last() =~= fv.take(k as int));
                assert(fv.take(k + 1).last() == fv[k as int]);
            }
            assert(marks_view(marks@) =~= m0 + unmarked_in(fv.take(k + 1), d as int));
            let marked = LinearBinding {
                origin: e.1.origin,
                consumed_at: e.1.consumed_at,
                holds_a_sequence: e.1.holds_a_sequence,
                outside_repeat: true,
            };
            let ghost fb = frame@;
            frame.push((e.0.clone(), marked));
            assert(marked == with_repeat(e.1, true));
            assert(fv[k as int] == (e.0@, e.1));
            assert(frame_view(frame@) =~= frame_view(fb).push((e.0@, marked)));
            assert(mark_frame(fv.take(k + 1)) =~= mark_frame(fv.take(k as int)).push((fv[k as int].0, with_repeat(fv[k as int].1, true))));
            assert(frame_view(frame@) =~= mark_frame(fv.take(k + 1)));
            k += 1;
        }
        assert(fv.take(k as int) =~= fv);
        let ghost ob = out@;
        let ghost fr = frame@;
        out.push(frame);
        proof {
            assert(v0.take(d + 1).drop_last() =~= v0.take(d as int));
            assert(v0.take(d + 1).last() == fv);
            assert(scopes_view(out@) =~= scopes_view(ob).push(frame_view(fr)));
            assert(mark_all(v0.take(d + 1)) =~= mark_all(v0.take(d as int)).push(mark_frame(fv)));
        }
        assert(scopes_view(out@) =~= mark_all(v0.take(d + 1)));
        d += 1;
    }
    assert(v0.take(d as int) =~= v0);
    *s = out;
    marks
}

pub open spec fn marks_view(m: Seq<(usize, String)>) -> Seq<(int, Seq<char>)> {
    m.map_values(|x: (usize, String)| (x.0 as int, x.1@))
}

/// Clear the mark of each binding of `marks`.
fn unmark_bindings(s: &mut Vec<Vec<(String, LinearBinding)>>, marks: &Vec<(usize, String)>)
    ensures
        scopes_view(final(s)@) == unmark(scopes_view(old(s)@), marks_view(marks@)),
{
    let ghost v0 = scopes_view(s@);
    let mut k: usize = 0;
    while k < marks.len()
        invariant
            k <= marks@.len(),
            scopes_view(s@) == unmark(v0, marks_view(marks@).take(k as int)),
        decreases marks.len() - k,
    {
        proof {
            assert(marks_view(marks@).take(k + 1).drop_last() =~= marks_view(marks@).take(k as int));
            assert(marks_view(marks@).take(k + 1).last() == (marks@[k as int].0 as int, marks@[k as int].1@));
        }
        let d = marks[k].0;
        if d < s.len() {
            match find_entry(&s[d], marks[k].1.as_str()) {
                Some(i) => {
                    let b = s[d][i].1;
                    let cleared = LinearBinding {
                        origin: b.origin,
                        consumed_at: b.consumed_at,
                        holds_a_sequence: b.holds_a_sequence,
                        outside_repeat: false,
                    };
                    set_binding(s, d, i, cleared);
                },
                None => {},
            }
        }
        k += 1;
    }
    assert(marks_view(marks@).take(k as int) =~= marks_view(marks@));
}

impl SemanticAnalyzer {
    /// Record a read of `n` at `at`, and report a second one.
    pub fn read_binding(&mut self, s: &mut Vec<Vec<(String, LinearBinding)>>, n: &str, at: Span)
        ensures
            error_views(final(self).errors@) == error_views(old(self).errors@) + read_name(scopes_view(old(s)@), n@, at).0,
            scopes_view(final(s)@) == read_name(scopes_view(old(s)@), n@, at).1,
            final(self).same_state(*old(self)),
    {
        let ghost v0 = scopes_view(s@);
        let ghost e0 = error_views(self.errors@);
        let mut d: usize = s.len();
        while d > 0
            invariant
                d <= s@.len(),
                scopes_view(s@) == v0,
                error_views(self.errors@) == e0,
                self.same_state(*old(self)),
                read_name(v0, n@, at) == read_from(v0, d - 1, n@, at),
            decreases d,
        {
            let k = d - 1;
            match find_entry(&s[k], n) {
                None => {
                    d = k;
                },
                Some(i) => {
                    let b = s[k][i].1;
                    if !b.holds_a_sequence {
                        assert(error_views(self.errors@) =~= e0 + Seq::<ErrorView>::empty());
                        return;
                    }
                    if b.consumed_at.is_some() || b.outside_repeat {
                        self.report(CompilerError::SeqUsedTwice { name: String::from_str(n), span: at });
                        return;
                    }
                    let read = LinearBinding {
                        origin: b.origin,
                        consumed_at: Some(at),
                        holds_a_sequence: b.holds_a_sequence,
                        outside_repeat: b.outside_repeat,
                    };
                    proof { lemma_entry_index_bounds(v0[k as int], n@); }
                    set_binding(s, k, i, read);
                    assert(error_views(self.errors@) =~= e0 + Seq::<ErrorView>::empty());
                    return;
                },
            }
        }
        assert(error_views(self.errors@) =~= e0 + Seq::<ErrorView>::empty());
    }

    /// Close the innermost frame, and report each sequence binding of it
    /// that nothing read.
    pub fn close_scope(&mut self, s: &mut Vec<Vec<(String, LinearBinding)>>)
        ensures
            error_views(final(self).errors@) == error_views(old(self).errors@) + close_frame(scopes_view(old(s)@)).0,
            scopes_view(final(s)@) == close_frame(scopes_view(old(s)@)).1,
            final(self).same_state(*old(self)),
    {
        let ghost v0 = scopes_view(s@);
        let ghost e0 = error_views(self.errors@);
        let frame = match s.pop() {
            Some(f) => f,
            None => {
                assert(error_views(self.errors@) =~= e0 + Seq::<ErrorView>::empty());
                return;
            },
        };
        assert(scopes_view(s@) =~= v0.drop_last());
        let ghost fv = frame_view(frame@);
        assert(fv == v0.last());
        let mut k: usize = 0;
        while k < frame.len()
            invariant
                k <= frame@.len(),
                fv == frame_view(frame@),
                self.same_state(*old(self)),
                error_views(self.errors@) == e0 + unconsumed(fv.take(k as int)),
            decreases frame.len() - k,
        {
            proof {
                assert(fv.take(k + 1).drop_last() =~= fv.take(k as int));
                assert(fv.take(k + 1).last() == fv[k as int]);
            }
            let b = frame[k].1;
            if b.holds_a_sequence && b.consumed_at.is_none() {
                self.report(CompilerError::SeqNotConsumed { span: b.origin });
            } else {
                assert(error_views(self.errors@) =~= e0 + unconsumed(fv.take(k + 1)));
            }
            k += 1;
        }
        assert(fv.take(k as int) =~= fv);
    }
}

pub open spec fn states_view(states: Seq<Vec<Vec<(String, LinearBinding)>>>) -> Seq<LinearScopes> {
    states.map_values(|st: Vec<Vec<(String, LinearBinding)>>| scopes_view(st@))
}

/// The first read of `n` at depth `d` that the state records.
fn read_in_state(state: &Vec<Vec<(String, LinearBinding)>>, d: usize, n: &str) -> (r: Option<Span>)
    ensures
        r == read_in(scopes_view(state@), d as int, n@),
{
    if d < state.len() {
        match find_entry(&state[d], n) {
            Some(i) => state[d][i].1.consumed_at,
            None => None,
        }
    } else {
        None
    }
}

impl SemanticAnalyzer {
    /// Merge the frames before a set of alternatives with the frames each
    /// alternative left: a binding that some alternative read takes the
    /// first read, and a sequence that some read and some did not is
    /// reported at its origin.
    pub fn merge_alternatives(
        &mut self,
        before: &Vec<Vec<(String, LinearBinding)>>,
        states: &Vec<Vec<Vec<(String, LinearBinding)>>>,
    ) -> (r: Vec<Vec<(String, LinearBinding)>>)
        ensures
            error_views(final(self).errors@) == error_views(old(self).errors@)
                + merge_states(scopes_view(before@), states_view(states@)).0,
            scopes_view(r@) == merge_states(scopes_view(before@), states_view(states@)).1,
            final(self).same_state(*old(self)),
    {
        let ghost bv = scopes_view(before@);
        let ghost sv = states_view(states@);
        let ghost e0 = error_views(self.errors@);
        let mut out: Vec<Vec<(String, LinearBinding)>> = Vec::new();
        let mut d: usize = 0;
        while d < before.len()
            invariant
                d <= before@.len(),
                bv == scopes_view(before@),
                sv == states_view(states@),
                self.same_state(*old(self)),
                error_views(self.errors@) == e0 + merge_states(bv.take(d as int), sv).0,
                scopes_view(out@) == merge_states(bv.take(d as int), sv).1,
            decreases before.len() - d,
        {
            let f = &before[d];
            let ghost fv = frame_view(f@);
            assert(fv == bv[d as int]);
            let ghost ed = error_views(self.errors@);
            let mut frame: Vec<(String, LinearBinding)> = Vec::new();
            let mut k: usize = 0;
            while k < f.len()
                invariant
                    k <= f@.len(),
                    fv == frame_view(f@),
                    sv == states_view(states@),
                    self.same_state(*old(self)),
                    error_views(self.errors@) == ed + merge_frame(fv.take(k as int), sv, d as int).0,
                    frame_view(frame@) == merge_frame(fv.take(k as int), sv, d as int).1,
                decreases f.len() - k,
            {
                proof {
                    assert(fv.take(k + 1).drop_last() =~= fv.take(k as int));
                    assert(fv.take(k + 1).last() == fv[k as int]);
                }
                let name = &f[k].0;
                let b = f[k].1;
                let ghost eb = error_views(self.errors@);
                let ghost fb = frame@;
                if b.consumed_at.is_some() {
                    frame.push((name.clone(), b));
                    assert(error_views(self.errors@) =~= eb + Seq::<ErrorView>::empty());
                } else {
                    let mut found: Option<Span> = None;
                    let mut unread = false;
                    let mut j: usize = 0;
                    while j < states.len()
                        invariant
                            j <= states@.len(),
                            sv == states_view(states@),
                            found == first_read(sv.take(j as int), d as int, name@),
                            unread == some_unread(sv.take(j as int), d as int, name@),
                        decreases states.len() - j,
                    {
                        proof {
                            assert(sv.take(j + 1).drop_last() =~= sv.take(j as int));
                            assert(sv.take(j + 1).last() == sv[j as int]);
                        }
                        let r = read_in_state(&states[j], d, name.as_str());
                        if found.is_none() {
                            found = r;
                        }
                        proof {
                            let t = sv.take(j + 1);
                            if unread {
                                let w = choose|w: int| 0 <= w < j && #[trigger] read_in(sv.take(j as int)[w], d as int, name@) is None;
                                assert(t[w] == sv.take(j as int)[w]);
                            }
                            if r is None {
                                assert(t[j as int] == sv[j as int]);
                            }
                            if some_unread(t, d as int, name@) {
                                let w = choose|w: int| 0 <= w < t.len() && #[trigger] read_in(t[w], d as int, name@) is None;
                                if w < j {
                                    assert(sv.take(j as int)[w] == t[w]);
                                }
                            }
                        }
                        if r.is_none() {
                            unread = true;
                        }
                        j += 1;
                    }
                    assert(sv.take(j as int) =~= sv);
                    if found.is_some() && unread {
                        self.report(CompilerError::SeqNotConsumed { span: b.origin });
                    } else {
                        assert(error_views(self.errors@) =~= eb + Seq::<ErrorView>::empty());
                    }
                    let merged = LinearBinding {
                        origin: b.origin,
                        consumed_at: found,
                        holds_a_sequence: b.holds_a_sequence,
                        outside_repeat: b.outside_repeat,
                    };
                    frame.push((name.clone(), merged));
                }
                assert(frame_view(frame@) =~= frame_view(fb).push(merge_entry(fv[k as int], sv, d as int).1));
                k += 1;
            }
            assert(fv.take(k as int) =~= fv);
            let ghost ob = out@;
            let ghost fr = frame@;
            out.push(frame);
            proof {
                assert(bv.take(d + 1).drop_last() =~= bv.take(d as int));
                assert(bv.take(d + 1).last() == fv);
                assert(scopes_view(out@) =~= scopes_view(ob).push(frame_view(fr)));
            }
            d += 1;
        }
        assert(bv.take(d as int) =~= bv);
        out
    }
}

/// Open a new innermost frame.
fn open_frame(s: &mut Vec<Vec<(String, LinearBinding)>>)
    ensures
        scopes_view(final(s)@) == scopes_view(old(s)@).push(seq![]),
{
    let ghost v0 = scopes_view(s@);
    let empty: Vec<(String, LinearBinding)> = Vec::new();
    assert(frame_view(empty@) =~= seq![]);
    s.push(empty);
    assert(scopes_view(s@) =~= v0.push(seq![]));
}

/// Whether `at` is the span of an expression that inference types as a
/// sequence.
fn span_listed(seqs: &Vec<Span>, at: Span) -> (r: bool)
    ensures
        r == seqs@.contains(at),
{
    let mut k: usize = 0;
    while k < seqs.len()
        invariant
            k <= seqs@.len(),
            forall|j: int| 0 <= j < k ==> seqs@[j] != at,
        decreases seqs.len() - k,
    {
        if seqs[k] == at {
            return true;
        }
        k += 1;
    }
    false
}

/// Whether a binding made from `value`, with the written type `ty`,
/// holds a sequence.
fn binding_holds_a_sequence(ty: &Option<Type>, value: &Expr, seqs: &Vec<Span>) -> (r: bool)
    ensures
        r == binds_a_sequence(*ty, *value, seqs@),
{
    match ty {
        Some(t) => SemanticAnalyzer::is_sequence(&SemType::from_ast(t)),
        None => span_listed(seqs, value.span()),
    }
}

impl SemanticAnalyzer {
    /// Walk `body` as code that can run more than once: every binding in
    /// scope is from outside the body, so a read of an outer sequence in
    /// it is a read per pass.
    pub fn walk_repeated(&mut self, body: &Expr, s: &mut Vec<Vec<(String, LinearBinding)>>, seqs: &Vec<Span>)
        ensures
            error_views(final(self).errors@) == error_views(old(self).errors@) + linear_repeated(*body, scopes_view(old(s)@), seqs@).0,
            scopes_view(final(s)@) == linear_repeated(*body, scopes_view(old(s)@), seqs@).1,
            final(self).same_state(*old(self)),
        decreases *body, 1nat,
    {
        let ghost v0 = scopes_view(s@);
        let marks = mark_outside(s);
        let ghost sm = s@;
        open_frame(s);
        self.walk_linear(body, s, seqs);
        self.close_scope(s);
        unmark_bindings(s, &marks);
    }

    /// Walk the arguments of a call. A closure literal argument can run
    /// once per element, as the closure of `fold` does.
    pub fn walk_linear_args(&mut self, args: &Vec<(Option<Ident>, Expr)>, s: &mut Vec<Vec<(String, LinearBinding)>>, seqs: &Vec<Span>)
        ensures
            error_views(final(self).errors@) == error_views(old(self).errors@) + linear_args(args@, scopes_view(old(s)@), seqs@).0,
            scopes_view(final(s)@) == linear_args(args@, scopes_view(old(s)@), seqs@).1,
            final(self).same_state(*old(self)),
        decreases args@, 0nat,
    {
        let ghost v0 = scopes_view(s@);
        let ghost e0 = error_views(self.errors@);
        let mut k: usize = 0;
        while k < args.len()
            invariant
                k <= args@.len(),
                self.same_state(*old(self)),
                error_views(self.errors@) == e0 + linear_args(args@.take(k as int), v0, seqs@).0,
                scopes_view(s@) == linear_args(args@.take(k as int), v0, seqs@).1,
            decreases args.len() - k,
        {
            proof {
                assert(args@.take(k + 1).drop_last() =~= args@.take(k as int));
                assert(args@.take(k + 1).last() == args@[k as int]);
                assert(decreases_to!(args@ => args@[k as int]));
            }
            let arg = &args[k].1;
            match arg {
                Expr::ClosureExpr { .. } => self.walk_repeated(arg, s, seqs),
                _ => self.walk_linear(arg, s, seqs),
            }
            k += 1;
        }
        assert(args@.take(k as int) =~= args@);
    }

    /// Walk one statement of a block.
    pub fn walk_linear_statement(&mut self, stmt: &BlockStatement, s: &mut Vec<Vec<(String, LinearBinding)>>, seqs: &Vec<Span>)
        ensures
            error_views(final(self).errors@) == error_views(old(self).errors@) + linear_statement(*stmt, scopes_view(old(s)@), seqs@).0,
            scopes_view(final(s)@) == linear_statement(*stmt, scopes_view(old(s)@), seqs@).1,
            final(self).same_state(*old(self)),
        decreases *stmt, 0nat,
    {
        match stmt {
            BlockStatement::Let { pattern, value, ty, span, .. } => {
                self.walk_linear(value, s, seqs);
                let holds = binding_holds_a_sequence(ty, value, seqs);
                match pattern {
                    BindingPattern::Simple(id) => bind(s, id.name.as_str(), *span, holds),
                    _ => {},
                }
            },
            BlockStatement::Assign { target, value, .. } => {
                self.walk_linear(target, s, seqs);
                self.walk_linear(value, s, seqs);
            },
            BlockStatement::Expr(e) => {
                let ghost eb = error_views(self.errors@);
                self.walk_linear(e, s, seqs);
                let ghost ew = error_views(self.errors@);
                if span_listed(seqs, e.span()) {
                    self.report(CompilerError::SeqNotConsumed { span: e.span() });
                } else {
                    assert(error_views(self.errors@) =~= ew + Seq::<ErrorView>::empty());
                }
            },
        }
    }

    /// Walk an expression, tracking every sequence binding: each read is
    /// recorded, a second one reported, and a sequence read on some paths
    /// and not on others reported at its origin.
    #[verifier::rlimit(60)]
    pub fn walk_linear(&mut self, expr: &Expr, s: &mut Vec<Vec<(String, LinearBinding)>>, seqs: &Vec<Span>)
        ensures
            error_views(final(self).errors@) == error_views(old(self).errors@) + linear_walk(*expr, scopes_view(old(s)@), seqs@).0,
            scopes_view(final(s)@) == linear_walk(*expr, scopes_view(old(s)@), seqs@).1,
            final(self).same_state(*old(self)),
        decreases *expr, 0nat,
    {
        let ghost v0 = scopes_view(s@);
        let ghost e0 = error_views(self.errors@);
        match expr {
            Expr::Reference { path, span } => {
                if path.len() == 1 {
                    self.read_binding(s, path[0].name.as_str(), *span);
                } else {
                    assert(error_views(self.errors@) =~= e0 + Seq::<ErrorView>::empty());
                }
            },
            Expr::Block { statements, result, .. } => {
                open_frame(s);
                let ghost v1 = scopes_view(s@);
                let mut k: usize = 0;
                while k < statements.len()
                    invariant
                        k <= statements@.len(),
                        self.same_state(*old(self)),
                        error_views(self.errors@) == e0 + linear_statements(statements@.take(k as int), v1, seqs@).0,
                        scopes_view(s@) == linear_statements(statements@.take(k as int), v1, seqs@).1,
                    decreases statements.len() - k,
                {
                    proof {
                        assert(statements@.take(k + 1).drop_last() =~= statements@.take(k as int));
                        assert(statements@.take(k + 1).last() == statements@[k as int]);
                    }
                    self.walk_linear_statement(&statements[k], s, seqs);
                    k += 1;
                }
                assert(statements@.take(k as int) =~= statements@);
                self.walk_linear(result, s, seqs);
                self.close_scope(s);
            },
            Expr::ForExpr { collection, body, .. } => {
                self.walk_linear(collection, s, seqs);
                self.walk_repeated(body, s, seqs);
            },
            Expr::MethodCall { receiver, args, .. } => {
                self.walk_linear(receiver, s, seqs);
                self.walk_linear_args(args, s, seqs);
            },
            Expr::Invocation { args, .. } => {
                self.walk_linear_args(args, s, seqs);
            },
            Expr::BinaryOp { left, op, right, .. } => {
                self.walk_linear(left, s, seqs);
                let short_circuit = match op {
                    BinaryOperator::And | BinaryOperator::Or => true,
                    _ => false,
                };
                if short_circuit {
                    let before = copy_scopes(s);
                    let mut taken = copy_scopes(s);
                    self.walk_linear(right, &mut taken, seqs);
                    let skipped = copy_scopes(s);
                    let mut states: Vec<Vec<Vec<(String, LinearBinding)>>> = Vec::new();
                    states.push(taken);
                    states.push(skipped);
                    assert(states_view(states@) =~= seq![
                        linear_walk(**right, scopes_view(before@), seqs@).1,
                        scopes_view(before@),
                    ]);
                    let merged = self.merge_alternatives(&before, &states);
                    *s = merged;
                } else {
                    self.walk_linear(right, s, seqs);
                }
            },
            Expr::UnaryOp { operand, .. } => {
                self.walk_linear(operand, s, seqs);
            },
            Expr::IfExpr { condition, then_branch, else_branch, .. } => {
                self.walk_linear(condition, s, seqs);
                let before = copy_scopes(s);
                let mut taken = copy_scopes(s);
                self.walk_linear(then_branch, &mut taken, seqs);
                let mut other = copy_scopes(s);
                match else_branch {
                    Some(x) => self.walk_linear(x, &mut other, seqs),
                    None => {
                        assert(error_views(self.errors@) =~= error_views(self.errors@) + Seq::<ErrorView>::empty());
                    },
                }
                let ghost tv = scopes_view(taken@);
                let ghost ov = scopes_view(other@);
                let mut states: Vec<Vec<Vec<(String, LinearBinding)>>> = Vec::new();
                states.push(taken);
                states.push(other);
                assert(states_view(states@) =~= seq![tv, ov]);
                let merged = self.merge_alternatives(&before, &states);
                *s = merged;
            },
            Expr::LetExpr { pattern, value, body, ty, span, .. } => {
                self.walk_linear(value, s, seqs);
                let ghost v1 = scopes_view(s@);
                open_frame(s);
                let holds = binding_holds_a_sequence(ty, value, seqs);
                match pattern {
                    BindingPattern::Simple(id) => bind(s, id.name.as_str(), *span, holds),
                    _ => {},
                }
                self.walk_linear(body, s, seqs);
                self.close_scope(s);
            },
            Expr::Group { expr: inner, .. } => {
                self.walk_linear(inner, s, seqs);
            },
            Expr::MatchExpr { scrutinee, arms, .. } => {
                self.walk_linear(scrutinee, s, seqs);
                let before = copy_scopes(s);
                let ghost bv = scopes_view(before@);
                let ghost e1 = error_views(self.errors@);
                let mut states: Vec<Vec<Vec<(String, LinearBinding)>>> = Vec::new();
                let mut k: usize = 0;
                while k < arms.len()
                    invariant
                        k <= arms@.len(),
                        bv == scopes_view(before@),
                        self.same_state(*old(self)),
                        error_views(self.errors@) == e1 + linear_arms(arms@.take(k as int), bv, seqs@).0,
                        states_view(states@) == linear_arms(arms@.take(k as int), bv, seqs@).1,
                    decreases arms.len() - k,
                {
                    proof {
                        assert(arms@.take(k + 1).drop_last() =~= arms@.take(k as int));
                        assert(arms@.take(k + 1).last() == arms@[k as int]);
                        assert(decreases_to!(arms@ => arms@[k as int]));
                    }
                    let mut state = copy_scopes(&before);
                    self.walk_linear(&arms[k].body, &mut state, seqs);
                    let ghost sb = states@;
                    states.push(state);
                    assert(states_view(states@) =~= states_view(sb).push(scopes_view(states@.last()@)));
                    k += 1;
                }
                assert(arms@.take(k as int) =~= arms@);
                let merged = self.merge_alternatives(&before, &states);
                *s = merged;
            },
            Expr::Array { elements, .. } => {
                let mut k: usize = 0;
                while k < elements.len()
                    invariant
                        k <= elements@.len(),
                        self.same_state(*old(self)),
                        error_views(self.errors@) == e0 + linear_list(elements@.take(k as int), v0, seqs@).0,
                        scopes_view(s@) == linear_list(elements@.take(k as int), v0, seqs@).1,
                    decreases elements.len() - k,
                {
                    proof {
                        assert(elements@.take(k + 1).drop_last() =~= elements@.take(k as int));
                        assert(elements@.take(k + 1).last() == elements@[k as int]);
                    }
                    self.walk_linear(&elements[k], s, seqs);
                    k += 1;
                }
                assert(elements@.take(k as int) =~= elements@);
            },
            Expr::Tuple { fields, .. } => {
                self.walk_linear_labeled(fields, s, seqs);
            },
            Expr::DictLiteral { entries, .. } => {
                let mut k: usize = 0;
                while k < entries.len()
                    invariant
                        k <= entries@.len(),
                        self.same_state(*old(self)),
                        error_views(self.errors@) == e0 + linear_entries(entries@.take(k as int), v0, seqs@).0,
                        scopes_view(s@) == linear_entries(entries@.take(k as int), v0, seqs@).1,
                    decreases entries.len() - k,
                {
                    proof {
                        assert(entries@.take(k + 1).drop_last() =~= entries@.take(k as int));
                        assert(entries@.take(k + 1).last() == entries@[k as int]);
                        assert(decreases_to!(entries@ => entries@[k as int]));
                    }
                    self.walk_linear(&entries[k].0, s, seqs);
                    self.walk_linear(&entries[k].1, s, seqs);
                    k += 1;
                }
                assert(entries@.take(k as int) =~= entries@);
            },
            Expr::DictAccess { dict, key, .. } => {
                self.walk_linear(dict, s, seqs);
                self.walk_linear(key, s, seqs);
            },
            Expr::FieldAccess { object, .. } => {
                self.walk_linear(object, s, seqs);
            },
            Expr::EnumInstantiation { data, .. } => {
                self.walk_linear_labeled(data, s, seqs);
            },
            Expr::InferredEnumInstantiation { data, .. } => {
                self.walk_linear_labeled(data, s, seqs);
            },
            Expr::ClosureExpr { body, .. } => {
                self.walk_linear(body, s, seqs);
            },
            Expr::Literal { .. } => {
                assert(error_views(self.errors@) =~= e0 + Seq::<ErrorView>::empty());
            },
        }
    }

    /// Walk the values of labelled fields, in order.
    fn walk_linear_labeled(&mut self, fields: &Vec<(Ident, Expr)>, s: &mut Vec<Vec<(String, LinearBinding)>>, seqs: &Vec<Span>)
        ensures
            error_views(final(self).errors@) == error_views(old(self).errors@) + linear_labeled(fields@, scopes_view(old(s)@), seqs@).0,
            scopes_view(final(s)@) == linear_labeled(fields@, scopes_view(old(s)@), seqs@).1,
            final(self).same_state(*old(self)),
        decreases fields@, 0nat,
    {
        let ghost v0 = scopes_view(s@);
        let ghost e0 = error_views(self.errors@);
        let mut k: usize = 0;
        while k < fields.len()
            invariant
                k <= fields@.len(),
                self.same_state(*old(self)),
                error_views(self.errors@) == e0 + linear_labeled(fields@.take(k as int), v0, seqs@).0,
                scopes_view(s@) == linear_labeled(fields@.take(k as int), v0, seqs@).1,
            decreases fields.len() - k,
        {
            proof {
                assert(fields@.take(k + 1).drop_last() =~= fields@.take(k as int));
                assert(fields@.take(k + 1).last() == fields@[k as int]);
                assert(decreases_to!(fields@ => fields@[k as int]));
            }
            self.walk_linear(&fields[k].1, s, seqs);
            k += 1;
        }
        assert(fields@.take(k as int) =~= fields@);
    }
}

/// A `sink` parameter whose written type is a sequence.
pub open spec fn param_holds_a_sequence(p: FnParam) -> bool {
    p.convention == ParamConvention::Sink && (p.ty matches Some(t) && seq_type(t))
}

/// Each parameter bound in the innermost frame, in order.
pub open spec fn bind_params(ps: Seq<FnParam>, s: LinearScopes) -> LinearScopes
    decreases ps.len(),
{
    if ps.len() == 0 {
        s
    } else {
        bind_name(bind_params(ps.drop_last(), s), ps.last().name.name@, fresh(ps.last().span, param_holds_a_sequence(ps.last())))
    }
}

/// The expression whose value a body produces: a block's result,
/// however many blocks deep.
pub open spec fn tail_of(e: Expr) -> Expr
    decreases e,
{
    match e {
        Expr::Block { result, .. } => tail_of(*result),
        _ => e,
    }
}

/// What the walk of one function body reports. A function that declares
/// no return type discards the value its body ends with; if that is a
/// sequence, nothing consumes it.
pub open spec fn body_reports(params: Seq<FnParam>, body: Expr, returns_a_value: bool, seqs: Seq<Span>) -> Seq<ErrorView> {
    let w = linear_walk(body, bind_params(params, seq![seq![]]), seqs);
    let c = close_frame(w.1);
    let tail = tail_of(body);
    w.0 + c.0 + if !returns_a_value && seqs.contains(expr_span(tail)) {
        seq![ErrorView::SeqNotConsumed { span: expr_span(tail) }]
    } else {
        Seq::<ErrorView>::empty()
    }
}

pub open spec fn methods_linear_reports(fs: Seq<crate::ast::FnDef>, seqs: Seq<Span>) -> Seq<ErrorView>
    decreases fs.len(),
{
    if fs.len() == 0 {
        seq![]
    } else {
        methods_linear_reports(fs.drop_last(), seqs) + match fs.last().body {
            Some(b) => body_reports(fs.last().params@, b, fs.last().return_type is Some, seqs),
            None => Seq::<ErrorView>::empty(),
        }
    }
}

/// What the bodies of a definition, and of each nested inside it, report.
pub open spec fn definition_linear_reports(d: Definition, seqs: Seq<Span>) -> Seq<ErrorView>
    decreases d,
{
    match d {
        Definition::Function(f) => match f.body {
            Some(b) => body_reports(f.params@, b, f.return_type is Some, seqs),
            None => seq![],
        },
        Definition::Impl(i) => methods_linear_reports(i.functions@, seqs),
        Definition::Module(m) => definitions_linear_reports(m.definitions@, seqs),
        _ => seq![],
    }
}

pub open spec fn definitions_linear_reports(defs: Seq<Definition>, seqs: Seq<Span>) -> Seq<ErrorView>
    decreases defs,
{
    if defs.len() == 0 {
        seq![]
    } else {
        definitions_linear_reports(defs.drop_last(), seqs) + definition_linear_reports(defs.last(), seqs)
    }
}

pub open spec fn file_linear_reports(stmts: Seq<Statement>, seqs: Seq<Span>) -> Seq<ErrorView>
    decreases stmts.len(),
{
    if stmts.len() == 0 {
        seq![]
    } else {
        file_linear_reports(stmts.drop_last(), seqs) + match stmts.last() {
            Statement::Definition(d) => definition_linear_reports(*d, seqs),
            _ => Seq::<ErrorView>::empty(),
        }
    }
}

impl SemanticAnalyzer {
    /// The expression whose value `expr` produces: a block's result,
    /// however many blocks deep.
    pub fn tail_expression(expr: &Expr) -> (r: &Expr)
        ensures
            *r == tail_of(*expr),
        decreases *expr,
    {
        match expr {
            Expr::Block { result, .. } => Self::tail_expression(result),
            _ => expr,
        }
    }

    /// Walk one function body, tracking every sequence binding. A `sink`
    /// parameter of sequence type is a binding like any other: the callee
    /// took ownership, so it has to consume it.
    pub fn check_linear_body(&mut self, params: &Vec<FnParam>, body: &Expr, returns_a_value: bool, seqs: &Vec<Span>)
        ensures
            error_views(final(self).errors@) == error_views(old(self).errors@) + body_reports(params@, *body, returns_a_value, seqs@),
            final(self).same_state(*old(self)),
    {
        let ghost e0 = error_views(self.errors@);
        let mut scopes: Vec<Vec<(String, LinearBinding)>> = Vec::new();
        assert(scopes_view(scopes@) =~= Seq::<Seq<(Seq<char>, LinearBinding)>>::empty());
        open_frame(&mut scopes);
        let ghost s0 = scopes_view(scopes@);
        assert(s0 =~= seq![seq![]]);
        let mut k: usize = 0;
        while k < params.len()
            invariant
                k <= params@.len(),
                scopes_view(scopes@) == bind_params(params@.take(k as int), s0),
            decreases params.len() - k,
        {
            proof {
                assert(params@.take(k + 1).drop_last() =~= params@.take(k as int));
                assert(params@.take(k + 1).last() == params@[k as int]);
            }
            let p = &params[k];
            let holds = match &p.ty {
                Some(t) => {
                    let sink = match p.convention {
                        ParamConvention::Sink => true,
                        _ => false,
                    };
                    sink && Self::is_sequence(&SemType::from_ast(t))
                },
                None => false,
            };
            bind(&mut scopes, p.name.name.as_str(), p.span, holds);
            k += 1;
        }
        assert(params@.take(k as int) =~= params@);
        self.walk_linear(body, &mut scopes, seqs);
        self.close_scope(&mut scopes);
        let ghost ec = error_views(self.errors@);
        if !returns_a_value {
            let tail = Self::tail_expression(body);
            if span_listed(seqs, tail.span()) {
                self.report(CompilerError::SeqNotConsumed { span: tail.span() });
            } else {
                assert(error_views(self.errors@) =~= ec + Seq::<ErrorView>::empty());
            }
        } else {
            assert(error_views(self.errors@) =~= ec + Seq::<ErrorView>::empty());
        }
    }

    /// Walk the bodies of a definition: a function's, each method's of an
    /// impl, and those of the definitions of a nested module.
    pub fn check_linear_definition(&mut self, def: &Definition, seqs: &Vec<Span>)
        ensures
            error_views(final(self).errors@) == error_views(old(self).errors@) + definition_linear_reports(*def, seqs@),
            final(self).same_state(*old(self)),
        decreases *def,
    {
        let ghost e0 = error_views(self.errors@);
        match def {
            Definition::Function(f) => match &f.body {
                Some(body) => self.check_linear_body(&f.params, body, f.return_type.is_some(), seqs),
                None => {
                    assert(error_views(self.errors@) =~= e0 + Seq::<ErrorView>::empty());
                },
            },
            Definition::Impl(impl_def) => {
                let fs = &impl_def.functions;
                let mut k: usize = 0;
                while k < fs.len()
                    invariant
                        k <= fs@.len(),
                        self.same_state(*old(self)),
                        error_views(self.errors@) == e0 + methods_linear_reports(fs@.take(k as int), seqs@),
                    decreases fs.len() - k,
                {
                    proof {
                        assert(fs@.take(k + 1).drop_last() =~= fs@.take(k as int));
                        assert(fs@.take(k + 1).last() == fs@[k as int]);
                    }
                    let ghost eb = error_views(self.errors@);
                    match &fs[k].body {
                        Some(body) => self.check_linear_body(&fs[k].params, body, fs[k].return_type.is_some(), seqs),
                        None => {
                            assert(error_views(self.errors@) =~= eb + Seq::<ErrorView>::empty());
                        },
                    }
                    k += 1;
                }
                assert(fs@.take(k as int) =~= fs@);
            },
            Definition::Module(m) => {
                let mut k: usize = 0;
                while k < m.definitions.len()
                    invariant
                        k <= m.definitions@.len(),
                        self.same_state(*old(self)),
                        error_views(self.errors@) == e0 + definitions_linear_reports(m.definitions@.take(k as int), seqs@),
                    decreases m.definitions.len() - k,
                {
                    proof {
                        assert(m.definitions@.take(k + 1).drop_last() =~= m.definitions@.take(k as int));
                        assert(decreases_to!(*def => def->Module_0.definitions@));
                        assert(decreases_to!(def->Module_0.definitions@ => def->Module_0.definitions@[k as int]));
                    }
                    self.check_linear_definition(&m.definitions[k], seqs);
                    k += 1;
                }
                assert(m.definitions@.take(k as int) =~= m.definitions@);
            },
            _ => {
                assert(error_views(self.errors@) =~= e0 + Seq::<ErrorView>::empty());
            },
        }
    }

    /// Check that each sequence of each body of `file` is consumed exactly
    /// once. `seqs` holds the spans of the expressions that type inference
    /// types as a sequence.
    pub fn validate_sequence_linearity(&mut self, file: &File, seqs: &Vec<Span>)
        ensures
            error_views(final(self).errors@) == error_views(old(self).errors@) + file_linear_reports(file.statements@, seqs@),
            final(self).same_state(*old(self)),
    {
        let ghost e0 = error_views(self.errors@);
        let stmts = &file.statements;
        let mut k: usize = 0;
        while k < stmts.len()
            invariant
                k <= stmts@.len(),
                self.same_state(*old(self)),
                error_views(self.errors@) == e0 + file_linear_reports(stmts@.take(k as int), seqs@),
            decreases stmts.len() - k,
        {
            proof {
                assert(stmts@.take(k + 1).drop_last() =~= stmts@.take(k as int));
                assert(stmts@.take(k + 1).last() == stmts@[k as int]);
            }
            let ghost eb = error_views(self.errors@);
            match &stmts[k] {
                Statement::Definition(def) => self.check_linear_definition(def, seqs),
                _ => {
                    assert(error_views(self.errors@) =~= eb + Seq::<ErrorView>::empty());
                },
            }
            k += 1;
        }
        assert(stmts@.take(k as int) =~= stmts@);
    }
}

/// The binding that a read of `n` from depth `d` down finds.
pub open spec fn innermost_from(s: LinearScopes, d: int, n: Seq<char>) -> Option<LinearBinding>
    decreases d + 1,
{
    if d < 0 || d >= s.len() {
        None
    } else {
        match entry_index(s[d], n) {
            Some(i) => Some(s[d][i].1),
            None => innermost_from(s, d - 1, n),
        }
    }
}

/// The binding that a read of `n` finds: the first of that name in the
/// innermost frame that has one.
pub open spec fn innermost_binding(s: LinearScopes, n: Seq<char>) -> Option<LinearBinding> {
    innermost_from(s, s.len() - 1, n)
}

/// Two frames with the same names in the same order find a name at the
/// same position.
pub proof fn lemma_entry_index_same_names(f: Seq<(Seq<char>, LinearBinding)>, g: Seq<(Seq<char>, LinearBinding)>, n: Seq<char>)
    requires
        f.len() == g.len(),
        forall|j: int| 0 <= j < f.len() ==> f[j].0 == g[j].0,
    ensures
        entry_index(f, n) == entry_index(g, n),
    decreases f.len(),
{
    if f.len() > 0 {
        lemma_entry_index_same_names(f.drop_first(), g.drop_first(), n);
    }
}

/// A read from depth `d` changes no frame above `d`, and no frame count.
pub proof fn lemma_read_from_frames(s: LinearScopes, d: int, n: Seq<char>, at: Span)
    ensures
        read_from(s, d, n, at).1.len() == s.len(),
        forall|j: int| d < j < s.len() ==> #[trigger] read_from(s, d, n, at).1[j] == s[j],
    decreases d + 1,
{
    if 0 <= d < s.len() {
        if entry_index(s[d], n) is None {
            lemma_read_from_frames(s, d - 1, n, at);
        }
    }
}

} // verus!

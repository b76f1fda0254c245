//! Free-variable walks used by closure validation:
//! - `check_captures_rec`: report `UseAfterSink` for each reference whose
//!   root binding a `sink` has already taken when the closure is made.
//! - `collect_free_variables` / `collect_free_vars_rec`: the ordered list
//!   of the names that a closure body captures.

use vstd::prelude::*;
use crate::analyzer::SemanticAnalyzer;
use crate::ast::{BlockStatement, ClosureParam, Expr, Ident, MatchArm, Pattern, Span};
use crate::error::{error_views, CompilerError, ErrorView};
use crate::patterns::{ident_names, pattern_binding_names, pattern_names};
use crate::text::{list_contains, str_equals, views};

verus! {

broadcast use vstd::std_specs::vec::group_vec_axioms;

/// The names that the parameters `outer` and the scopes `scopes` bind.
pub open spec fn scope_set(outer: Seq<String>, scopes: Seq<Vec<String>>) -> Set<Seq<char>> {
    Set::new(|n: Seq<char>| views(outer).contains(n)
        || exists|i: int| 0 <= i < scopes.len() && views(#[trigger] scopes[i]@).contains(n))
}

/// The names that a `match` arm's pattern binds.
pub open spec fn arm_names(p: Pattern) -> Seq<Seq<char>> {
    match p {
        Pattern::Variant { bindings, .. } => ident_names(bindings@),
        Pattern::Wildcard => seq![],
    }
}

/// The names of a closure's parameters.
pub open spec fn closure_param_names(params: Seq<ClosureParam>) -> Seq<Seq<char>> {
    params.map_values(|p: ClosureParam| p.name.name@)
}

/// The names that the `let` statements of a block bind, in order.
pub open spec fn let_names(stmts: Seq<BlockStatement>) -> Seq<Seq<char>>
    decreases stmts.len(),
{
    if stmts.len() == 0 {
        seq![]
    } else {
        let_names(stmts.drop_last()) + match stmts.last() {
            BlockStatement::Let { pattern, .. } => ident_names(pattern_names(pattern)),
            _ => seq![],
        }
    }
}

/// A single-segment path names a capture when no scope binds it and it
/// is not `self`.
pub open spec fn path_capture(path: Seq<Ident>, bound: Set<Seq<char>>) -> Seq<Seq<char>> {
    if path.len() == 1 && !bound.contains(path[0].name@) && path[0].name@ != "self"@ {
        seq![path[0].name@]
    } else {
        seq![]
    }
}

/// Each occurrence of a captured name in `e`, in the order the walk meets
/// it, when `bound` holds the names bound around `e`.
pub open spec fn free_refs(e: Expr, bound: Set<Seq<char>>) -> Seq<Seq<char>>
    decreases e,
{
    match e {
        Expr::Reference { path, .. } => path_capture(path@, bound),
        Expr::Literal { .. } | Expr::InferredEnumInstantiation { .. } => seq![],
        Expr::Array { elements, .. } => free_refs_list(elements@, bound),
        Expr::Tuple { fields, .. } => free_refs_labeled(fields@, bound),
        Expr::Invocation { path, args, .. } => path_capture(path@, bound) + free_refs_args(args@, bound),
        Expr::EnumInstantiation { data, .. } => free_refs_labeled(data@, bound),
        Expr::BinaryOp { left, right, .. } => free_refs(*left, bound) + free_refs(*right, bound),
        Expr::UnaryOp { operand, .. } => free_refs(*operand, bound),
        Expr::ForExpr { var, collection, body, .. } => free_refs(*collection, bound)
            + free_refs(*body, bound.insert(var.name@)),
        Expr::IfExpr { condition, then_branch, else_branch, .. } => free_refs(*condition, bound)
            + free_refs(*then_branch, bound) + match else_branch {
            Some(x) => free_refs(*x, bound),
            None => seq![],
        },
        Expr::MatchExpr { scrutinee, arms, .. } => free_refs(*scrutinee, bound) + free_refs_arms(arms@, bound),
        Expr::Group { expr, .. } => free_refs(*expr, bound),
        Expr::DictLiteral { entries, .. } => free_refs_entries(entries@, bound),
        Expr::DictAccess { dict, key, .. } => free_refs(*dict, bound) + free_refs(*key, bound),
        Expr::FieldAccess { object, .. } => free_refs(*object, bound),
        Expr::ClosureExpr { params, body, .. } => free_refs(
            *body,
            bound.union(closure_param_names(params@).to_set()),
        ),
        Expr::LetExpr { pattern, value, body, .. } => free_refs(*value, bound) + free_refs(
            *body,
            bound.union(ident_names(pattern_names(pattern)).to_set()),
        ),
        Expr::MethodCall { receiver, args, .. } => free_refs(*receiver, bound) + free_refs_args(args@, bound),
        Expr::Block { statements, result, .. } => free_refs_statements(statements@, bound) + free_refs(
            *result,
            bound.union(let_names(statements@).to_set()),
        ),
    }
}

pub open spec fn free_refs_list(s: Seq<Expr>, bound: Set<Seq<char>>) -> Seq<Seq<char>>
    decreases s,
{
    if s.len() == 0 { seq![] } else { free_refs_list(s.drop_last(), bound) + free_refs(s.last(), bound) }
}

pub open spec fn free_refs_labeled(s: Seq<(Ident, Expr)>, bound: Set<Seq<char>>) -> Seq<Seq<char>>
    decreases s,
{
    if s.len() == 0 { seq![] } else { free_refs_labeled(s.drop_last(), bound) + free_refs(s.last().1, bound) }
}

pub open spec fn free_refs_args(s: Seq<(Option<Ident>, Expr)>, bound: Set<Seq<char>>) -> Seq<Seq<char>>
    decreases s,
{
    if s.len() == 0 { seq![] } else { free_refs_args(s.drop_last(), bound) + free_refs(s.last().1, bound) }
}

pub open spec fn free_refs_entries(s: Seq<(Expr, Expr)>, bound: Set<Seq<char>>) -> Seq<Seq<char>>
    decreases s,
{
    if s.len() == 0 {
        seq![]
    } else {
        free_refs_entries(s.drop_last(), bound) + free_refs(s.last().0, bound) + free_refs(s.last().1, bound)
    }
}

pub open spec fn free_refs_arms(s: Seq<MatchArm>, bound: Set<Seq<char>>) -> Seq<Seq<char>>
    decreases s,
{
    if s.len() == 0 {
        seq![]
    } else {
        free_refs_arms(s.drop_last(), bound) + free_refs(
            s.last().body,
            bound.union(arm_names(s.last().pattern).to_set()),
        )
    }
}

/// Each statement of a block sees the names bound around the block and
/// those that the block's earlier `let` statements bind.
pub open spec fn free_refs_statements(s: Seq<BlockStatement>, bound: Set<Seq<char>>) -> Seq<Seq<char>>
    decreases s,
{
    if s.len() == 0 {
        seq![]
    } else {
        let b = bound.union(let_names(s.drop_last()).to_set());
        free_refs_statements(s.drop_last(), bound) + match s.last() {
            BlockStatement::Let { value, .. } => free_refs(value, b),
            BlockStatement::Assign { target, value, .. } => free_refs(target, b) + free_refs(value, b),
            BlockStatement::Expr(x) => free_refs(x, b),
        }
    }
}

/// A reference reads a consumed binding when no scope binds its root.
pub open spec fn sink_use(path: Seq<Ident>, span: Span, bound: Set<Seq<char>>, consumed: Seq<Seq<char>>) -> Seq<ErrorView> {
    if path.len() > 0 && !bound.contains(path[0].name@) && consumed.contains(path[0].name@) {
        seq![ErrorView::UseAfterSink { name: path[0].name@, span }]
    } else {
        seq![]
    }
}

/// A `UseAfterSink` for each reference in `e` whose root binding is in
/// `consumed` and that no scope binds, in the order the walk meets it.
pub open spec fn sink_uses(e: Expr, bound: Set<Seq<char>>, consumed: Seq<Seq<char>>) -> Seq<ErrorView>
    decreases e,
{
    match e {
        Expr::Reference { path, span } => sink_use(path@, span, bound, consumed),
        Expr::Literal { .. } | Expr::InferredEnumInstantiation { .. } => seq![],
        Expr::Array { elements, .. } => sink_uses_list(elements@, bound, consumed),
        Expr::Tuple { fields, .. } => sink_uses_labeled(fields@, bound, consumed),
        Expr::Invocation { args, .. } => sink_uses_args(args@, bound, consumed),
        Expr::EnumInstantiation { data, .. } => sink_uses_labeled(data@, bound, consumed),
        Expr::BinaryOp { left, right, .. } => sink_uses(*left, bound, consumed) + sink_uses(*right, bound, consumed),
        Expr::UnaryOp { operand, .. } => sink_uses(*operand, bound, consumed),
        Expr::ForExpr { var, collection, body, .. } => sink_uses(*collection, bound, consumed)
            + sink_uses(*body, bound.insert(var.name@), consumed),
        Expr::IfExpr { condition, then_branch, else_branch, .. } => sink_uses(*condition, bound, consumed)
            + sink_uses(*then_branch, bound, consumed) + match else_branch {
            Some(x) => sink_uses(*x, bound, consumed),
            None => seq![],
        },
        Expr::MatchExpr { scrutinee, arms, .. } => sink_uses(*scrutinee, bound, consumed) + sink_uses_arms(arms@, bound, consumed),
        Expr::Group { expr, .. } => sink_uses(*expr, bound, consumed),
        Expr::DictLiteral { entries, .. } => sink_uses_entries(entries@, bound, consumed),
        Expr::DictAccess { dict, key, .. } => sink_uses(*dict, bound, consumed) + sink_uses(*key, bound, consumed),
        Expr::FieldAccess { object, .. } => sink_uses(*object, bound, consumed),
        Expr::ClosureExpr { params, body, .. } => sink_uses(
            *body,
            bound.union(closure_param_names(params@).to_set()), consumed,
        ),
        Expr::LetExpr { pattern, value, body, .. } => sink_uses(*value, bound, consumed) + sink_uses(
            *body,
            bound.union(ident_names(pattern_names(pattern)).to_set()), consumed,
        ),
        Expr::MethodCall { receiver, args, .. } => sink_uses(*receiver, bound, consumed) + sink_uses_args(args@, bound, consumed),
        Expr::Block { statements, result, .. } => sink_uses_statements(statements@, bound, consumed) + sink_uses(
            *result,
            bound.union(let_names(statements@).to_set()), consumed,
        ),
    }
}

pub open spec fn sink_uses_list(s: Seq<Expr>, bound: Set<Seq<char>>, consumed: Seq<Seq<char>>) -> Seq<ErrorView>
    decreases s,
{
    if s.len() == 0 { seq![] } else { sink_uses_list(s.drop_last(), bound, consumed) + sink_uses(s.last(), bound, consumed) }
}

pub open spec fn sink_uses_labeled(s: Seq<(Ident, Expr)>, bound: Set<Seq<char>>, consumed: Seq<Seq<char>>) -> Seq<ErrorView>
    decreases s,
{
    if s.len() == 0 { seq![] } else { sink_uses_labeled(s.drop_last(), bound, consumed) + sink_uses(s.last().1, bound, consumed) }
}

pub open spec fn sink_uses_args(s: Seq<(Option<Ident>, Expr)>, bound: Set<Seq<char>>, consumed: Seq<Seq<char>>) -> Seq<ErrorView>
    decreases s,
{
    if s.len() == 0 { seq![] } else { sink_uses_args(s.drop_last(), bound, consumed) + sink_uses(s.last().1, bound, consumed) }
}

pub open spec fn sink_uses_entries(s: Seq<(Expr, Expr)>, bound: Set<Seq<char>>, consumed: Seq<Seq<char>>) -> Seq<ErrorView>
    decreases s,
{
    if s.len() == 0 {
        seq![]
    } else {
        sink_uses_entries(s.drop_last(), bound, consumed) + sink_uses(s.last().0, bound, consumed) + sink_uses(s.last().1, bound, consumed)
    }
}

pub open spec fn sink_uses_arms(s: Seq<MatchArm>, bound: Set<Seq<char>>, consumed: Seq<Seq<char>>) -> Seq<ErrorView>
    decreases s,
{
    if s.len() == 0 {
        seq![]
    } else {
        sink_uses_arms(s.drop_last(), bound, consumed) + sink_uses(
            s.last().body,
            bound.union(arm_names(s.last().pattern).to_set()), consumed,
        )
    }
}

/// Each statement of a block sees the names bound around the block and
/// those that the block's earlier `let` statements bind.
pub open spec fn sink_uses_statements(s: Seq<BlockStatement>, bound: Set<Seq<char>>, consumed: Seq<Seq<char>>) -> Seq<ErrorView>
    decreases s,
{
    if s.len() == 0 {
        seq![]
    } else {
        let b = bound.union(let_names(s.drop_last()).to_set());
        sink_uses_statements(s.drop_last(), bound, consumed) + match s.last() {
            BlockStatement::Let { value, .. } => sink_uses(value, b, consumed),
            BlockStatement::Assign { target, value, .. } => sink_uses(target, b, consumed) + sink_uses(value, b, consumed),
            BlockStatement::Expr(x) => sink_uses(x, b, consumed),
        }
    }
}

/// `acc` with each name of `s` that it does not hold yet appended, in
/// order.
pub open spec fn dedup_into(acc: Seq<Seq<char>>, s: Seq<Seq<char>>) -> Seq<Seq<char>>
    decreases s.len(),
{
    if s.len() == 0 {
        acc
    } else {
        let prev = dedup_into(acc, s.drop_last());
        if prev.contains(s.last()) { prev } else { prev.push(s.last()) }
    }
}

pub proof fn lemma_dedup_into_concat(acc: Seq<Seq<char>>, s1: Seq<Seq<char>>, s2: Seq<Seq<char>>)
    ensures
        dedup_into(acc, s1 + s2) == dedup_into(dedup_into(acc, s1), s2),
    decreases s2.len(),
{
    if s2.len() == 0 {
        assert(s1 + s2 =~= s1);
    } else {
        lemma_dedup_into_concat(acc, s1, s2.drop_last());
        assert((s1 + s2).drop_last() =~= s1 + s2.drop_last());
        assert((s1 + s2).last() == s2.last());
    }
}

/// Whatever `dedup_into` adds, it adds once.
pub proof fn lemma_dedup_into_unique(acc: Seq<Seq<char>>, s: Seq<Seq<char>>)
    requires
        acc.no_duplicates(),
    ensures
        dedup_into(acc, s).no_duplicates(),
        forall|n: Seq<char>| dedup_into(acc, s).contains(n) <==> (acc.contains(n) || s.contains(n)),
    decreases s.len(),
{
    if s.len() > 0 {
        lemma_dedup_into_unique(acc, s.drop_last());
        let prev = dedup_into(acc, s.drop_last());
        let x = s.last();
        lemma_push_contains(prev, x);
        if !prev.contains(x) {
            assert forall|i: int, j: int| 0 <= i < j < prev.push(x).len() implies prev.push(x)[i] != prev.push(x)[j] by {
                if j == prev.len() {
                    assert(prev[i] == prev.push(x)[i]);
                }
            }
        }
        assert forall|n: Seq<char>| s.contains(n) <==> (s.drop_last().contains(n) || n == x) by {
            if s.contains(n) {
                let k = choose|k: int| 0 <= k < s.len() && s[k] == n;
                if k < s.len() - 1 {
                    assert(s.drop_last()[k] == n);
                }
            }
            if s.drop_last().contains(n) {
                let k = choose|k: int| 0 <= k < s.drop_last().len() && s.drop_last()[k] == n;
                assert(s[k] == n);
            }
            if n == x {
                assert(s[s.len() - 1] == n);
            }
        }
    }
}

/// A sequence with one more element holds that element and what it held.
pub proof fn lemma_push_contains(s: Seq<Seq<char>>, x: Seq<char>)
    ensures
        forall|n: Seq<char>| s.push(x).contains(n) <==> (s.contains(n) || n == x),
{
    assert forall|n: Seq<char>| s.push(x).contains(n) <==> (s.contains(n) || n == x) by {
        if s.contains(n) {
            let k = choose|k: int| 0 <= k < s.len() && s[k] == n;
            assert(s.push(x)[k] == n);
        }
        if n == x {
            assert(s.push(x)[s.len() as int] == n);
        }
        if s.push(x).contains(n) {
            let k = choose|k: int| 0 <= k < s.push(x).len() && s.push(x)[k] == n;
            if k < s.len() {
                assert(s[k] == n);
            }
        }
    }
}

/// Adding one name to a list that holds it changes nothing; else the name
/// goes at the end.
pub proof fn lemma_dedup_into_one(acc: Seq<Seq<char>>, n: Seq<char>)
    ensures
        dedup_into(acc, Seq::<Seq<char>>::empty()) == acc,
        dedup_into(acc, seq![n]) == (if acc.contains(n) { acc } else { acc.push(n) }),
{
    assert(seq![n].drop_last() =~= Seq::<Seq<char>>::empty());
    assert(seq![n].last() == n);
}

/// The scopes with one more scope on top bind that scope's names too.
pub proof fn lemma_scope_set_push(outer: Seq<String>, scopes: Seq<Vec<String>>, top: Vec<String>)
    ensures
        scope_set(outer, scopes.push(top)) == scope_set(outer, scopes).union(views(top@).to_set()),
{
    assert forall|n: Seq<char>| scope_set(outer, scopes.push(top)).contains(n)
        <==> scope_set(outer, scopes).union(views(top@).to_set()).contains(n) by {
        if exists|i: int| 0 <= i < scopes.push(top).len() && views(#[trigger] scopes.push(top)[i]@).contains(n) {
            let i = choose|i: int| 0 <= i < scopes.push(top).len() && views(#[trigger] scopes.push(top)[i]@).contains(n);
            if i < scopes.len() {
                assert(scopes[i] == scopes.push(top)[i]);
            }
        }
        if exists|i: int| 0 <= i < scopes.len() && views(#[trigger] scopes[i]@).contains(n) {
            let i = choose|i: int| 0 <= i < scopes.len() && views(#[trigger] scopes[i]@).contains(n);
            assert(scopes.push(top)[i] == scopes[i]);
        }
        if views(top@).contains(n) {
            assert(scopes.push(top)[scopes.len() as int] == top);
        }
    }
    assert(scope_set(outer, scopes.push(top)) =~= scope_set(outer, scopes).union(views(top@).to_set()));
}

/// True when one of `scopes` holds `name`.
pub fn any_scope_contains(scopes: &Vec<Vec<String>>, name: &str) -> (r: bool)
    ensures
        r == exists|i: int| 0 <= i < scopes@.len() && views(#[trigger] scopes@[i]@).contains(name@),
{
    let mut i: usize = 0;
    while i < scopes.len()
        invariant
            i <= scopes@.len(),
            forall|j: int| 0 <= j < i ==> !views(#[trigger] scopes@[j]@).contains(name@),
        decreases scopes.len() - i,
    {
        if list_contains(&scopes[i], name) {
            return true;
        }
        i += 1;
    }
    false
}

/// True when the closure's parameters or a scope inside its body bind
/// `name`.
pub fn is_bound(name: &str, outer_params: &Vec<String>, inner_scopes: &Vec<Vec<String>>) -> (r: bool)
    ensures
        r == scope_set(outer_params@, inner_scopes@).contains(name@),
{
    list_contains(outer_params, name) || any_scope_contains(inner_scopes, name)
}

/// The names of a closure's parameters.
pub fn closure_params_scope(params: &Vec<ClosureParam>) -> (r: Vec<String>)
    ensures
        views(r@) == closure_param_names(params@),
{
    let mut scope: Vec<String> = Vec::new();
    let mut k: usize = 0;
    while k < params.len()
        invariant
            k <= params.len(),
            views(scope@) == closure_param_names(params@.take(k as int)),
        decreases params.len() - k,
    {
        let ghost before = scope@;
        scope.push(params[k].name.name.clone());
        proof {
            assert(params@.take(k + 1) =~= params@.take(k as int).push(params@[k as int]));
            assert(views(scope@) =~= views(before).push(params@[k as int].name.name@));
        }
        assert(views(scope@) =~= closure_param_names(params@.take(k + 1)));
        k += 1;
    }
    assert(params@.take(k as int) =~= params@);
    scope
}

/// The names that a `match` arm's pattern binds.
pub fn arm_scope(pattern: &Pattern) -> (r: Vec<String>)
    ensures
        views(r@) == arm_names(*pattern),
{
    let mut scope: Vec<String> = Vec::new();
    match pattern {
        Pattern::Variant { bindings, .. } => {
            let mut k: usize = 0;
            while k < bindings.len()
                invariant
                    k <= bindings.len(),
                    views(scope@) == ident_names(bindings@.take(k as int)),
                decreases bindings.len() - k,
            {
                let ghost before = scope@;
                scope.push(bindings[k].name.clone());
                proof {
                    assert(bindings@.take(k + 1) =~= bindings@.take(k as int).push(bindings@[k as int]));
                    assert(views(scope@) =~= views(before).push(bindings@[k as int].name@));
                }
                assert(views(scope@) =~= ident_names(bindings@.take(k + 1)));
                k += 1;
            }
            assert(bindings@.take(k as int) =~= bindings@);
        },
        Pattern::Wildcard => {
            assert(views(scope@) =~= Seq::<Seq<char>>::empty());
        },
    }
    scope
}

impl SemanticAnalyzer {
    /// Collect the free variables referenced in a closure body.
    ///
    /// A free variable is a single-segment reference, or the name a call
    /// starts with, that the closure's own parameters do not bind, nor any
    /// binding introduced within the body. The list is in the order the
    /// names are first met, without duplicates, and never holds `self`.
    pub fn collect_free_variables(body: &Expr, closure_params: &Vec<String>) -> (r: Vec<String>)
        ensures
            views(r@) == dedup_into(seq![], free_refs(*body, scope_set(closure_params@, seq![]))),
            views(r@).no_duplicates(),
    {
        let mut captures: Vec<String> = Vec::new();
        let mut inner_scopes: Vec<Vec<String>> = Vec::new();
        assert(views(captures@) =~= Seq::<Seq<char>>::empty());
        assert(inner_scopes@ =~= Seq::<Vec<String>>::empty());
        Self::collect_free_vars_rec(body, closure_params, &mut inner_scopes, &mut captures);
        proof {
            lemma_dedup_into_unique(seq![], free_refs(*body, scope_set(closure_params@, seq![])));
        }
        captures
    }

    /// The captures of each expression of a list.
    fn collect_free_vars_list(
        items: &Vec<Expr>,
        outer_params: &Vec<String>,
        inner_scopes: &mut Vec<Vec<String>>,
        captures: &mut Vec<String>,
    )
        ensures
        views(final(captures)@) == dedup_into(views(old(captures)@), free_refs_list(items@, scope_set(outer_params@, old(inner_scopes)@))),
        final(inner_scopes)@ == old(inner_scopes)@,
        decreases items@, 0nat,
    {
        let ghost bound = scope_set(outer_params@, inner_scopes@);
        let ghost c0 = views(captures@);
        let mut k: usize = 0;
        while k < items.len()
            invariant
                k <= items.len(),
                inner_scopes@ == old(inner_scopes)@,
                bound == scope_set(outer_params@, inner_scopes@),
                views(captures@) == dedup_into(c0, free_refs_list(items@.take(k as int), bound)),
            decreases items.len() - k,
        {
            proof {
                assert(items@.take(k + 1).drop_last() =~= items@.take(k as int));
                assert(decreases_to!(items@ => items@[k as int]));
            }
            let ghost before = free_refs_list(items@.take(k as int), bound);
            let ghost acc = views(captures@);
            Self::collect_free_vars_rec(&items[k], outer_params, inner_scopes, captures);
            proof { lemma_dedup_into_concat(c0, before, free_refs(items@[k as int], bound)); }
            let ghost before = before + free_refs(items@[k as int], bound);
            k += 1;
        }
        assert(items@.take(k as int) =~= items@);
    }

    /// The captures of each labelled value.
    fn collect_free_vars_labeled(
        items: &Vec<(Ident, Expr)>,
        outer_params: &Vec<String>,
        inner_scopes: &mut Vec<Vec<String>>,
        captures: &mut Vec<String>,
    )
        ensures
        views(final(captures)@) == dedup_into(views(old(captures)@), free_refs_labeled(items@, scope_set(outer_params@, old(inner_scopes)@))),
        final(inner_scopes)@ == old(inner_scopes)@,
        decreases items@, 0nat,
    {
        let ghost bound = scope_set(outer_params@, inner_scopes@);
        let ghost c0 = views(captures@);
        let mut k: usize = 0;
        while k < items.len()
            invariant
                k <= items.len(),
                inner_scopes@ == old(inner_scopes)@,
                bound == scope_set(outer_params@, inner_scopes@),
                views(captures@) == dedup_into(c0, free_refs_labeled(items@.take(k as int), bound)),
            decreases items.len() - k,
        {
            proof {
                assert(items@.take(k + 1).drop_last() =~= items@.take(k as int));
                assert(decreases_to!(items@ => items@[k as int]));
            }
            let ghost before = free_refs_labeled(items@.take(k as int), bound);
            let ghost acc = views(captures@);
            Self::collect_free_vars_rec(&items[k].1, outer_params, inner_scopes, captures);
            proof { lemma_dedup_into_concat(c0, before, free_refs(items@[k as int].1, bound)); }
            let ghost before = before + free_refs(items@[k as int].1, bound);
            k += 1;
        }
        assert(items@.take(k as int) =~= items@);
    }

    /// The captures of each argument of a call.
    fn collect_free_vars_args(
        items: &Vec<(Option<Ident>, Expr)>,
        outer_params: &Vec<String>,
        inner_scopes: &mut Vec<Vec<String>>,
        captures: &mut Vec<String>,
    )
        ensures
        views(final(captures)@) == dedup_into(views(old(captures)@), free_refs_args(items@, scope_set(outer_params@, old(inner_scopes)@))),
        final(inner_scopes)@ == old(inner_scopes)@,
        decreases items@, 0nat,
    {
        let ghost bound = scope_set(outer_params@, inner_scopes@);
        let ghost c0 = views(captures@);
        let mut k: usize = 0;
        while k < items.len()
            invariant
                k <= items.len(),
                inner_scopes@ == old(inner_scopes)@,
                bound == scope_set(outer_params@, inner_scopes@),
                views(captures@) == dedup_into(c0, free_refs_args(items@.take(k as int), bound)),
            decreases items.len() - k,
        {
            proof {
                assert(items@.take(k + 1).drop_last() =~= items@.take(k as int));
                assert(decreases_to!(items@ => items@[k as int]));
            }
            let ghost before = free_refs_args(items@.take(k as int), bound);
            let ghost acc = views(captures@);
            Self::collect_free_vars_rec(&items[k].1, outer_params, inner_scopes, captures);
            proof { lemma_dedup_into_concat(c0, before, free_refs(items@[k as int].1, bound)); }
            let ghost before = before + free_refs(items@[k as int].1, bound);
            k += 1;
        }
        assert(items@.take(k as int) =~= items@);
    }

    /// The captures of each key and each value of a dictionary literal.
    fn collect_free_vars_entries(
        items: &Vec<(Expr, Expr)>,
        outer_params: &Vec<String>,
        inner_scopes: &mut Vec<Vec<String>>,
        captures: &mut Vec<String>,
    )
        ensures
        views(final(captures)@) == dedup_into(views(old(captures)@), free_refs_entries(items@, scope_set(outer_params@, old(inner_scopes)@))),
        final(inner_scopes)@ == old(inner_scopes)@,
        decreases items@, 0nat,
    {
        let ghost bound = scope_set(outer_params@, inner_scopes@);
        let ghost c0 = views(captures@);
        let mut k: usize = 0;
        while k < items.len()
            invariant
                k <= items.len(),
                inner_scopes@ == old(inner_scopes)@,
                bound == scope_set(outer_params@, inner_scopes@),
                views(captures@) == dedup_into(c0, free_refs_entries(items@.take(k as int), bound)),
            decreases items.len() - k,
        {
            proof {
                assert(items@.take(k + 1).drop_last() =~= items@.take(k as int));
                assert(decreases_to!(items@ => items@[k as int]));
            }
            let ghost before = free_refs_entries(items@.take(k as int), bound);
            let ghost acc = views(captures@);
            Self::collect_free_vars_rec(&items[k].0, outer_params, inner_scopes, captures);
            proof { lemma_dedup_into_concat(c0, before, free_refs(items@[k as int].0, bound)); }
            let ghost before = before + free_refs(items@[k as int].0, bound);
            let ghost acc = views(captures@);
            Self::collect_free_vars_rec(&items[k].1, outer_params, inner_scopes, captures);
            proof { lemma_dedup_into_concat(c0, before, free_refs(items@[k as int].1, bound)); }
            let ghost before = before + free_refs(items@[k as int].1, bound);
            k += 1;
        }
        assert(items@.take(k as int) =~= items@);
    }

    /// The captures of each arm of a `match`; an arm's pattern binds its
    /// names for the arm's body.
    fn collect_free_vars_arms(
        items: &Vec<MatchArm>,
        outer_params: &Vec<String>,
        inner_scopes: &mut Vec<Vec<String>>,
        captures: &mut Vec<String>,
    )
        ensures
            views(final(captures)@) == dedup_into(views(old(captures)@), free_refs_arms(items@, scope_set(outer_params@, old(inner_scopes)@))),
            final(inner_scopes)@ == old(inner_scopes)@,
        decreases items@, 0nat,
    {
        let ghost bound = scope_set(outer_params@, inner_scopes@);
        let ghost c0 = views(captures@);
        let ghost s0 = inner_scopes@;
        let mut k: usize = 0;
        while k < items.len()
            invariant
                k <= items.len(),
                inner_scopes@ == s0,
                s0 == old(inner_scopes)@,
                bound == scope_set(outer_params@, s0),
                views(captures@) == dedup_into(c0, free_refs_arms(items@.take(k as int), bound)),
            decreases items.len() - k,
        {
            proof {
                assert(items@.take(k + 1).drop_last() =~= items@.take(k as int));
                assert(decreases_to!(items@ => items@[k as int]));
            }
            let ghost before = free_refs_arms(items@.take(k as int), bound);
            let scope = arm_scope(&items[k].pattern);
            proof { lemma_scope_set_push(outer_params@, s0, scope); }
            inner_scopes.push(scope);
            Self::collect_free_vars_rec(&items[k].body, outer_params, inner_scopes, captures);
            inner_scopes.pop();
            proof {
                assert(inner_scopes@ =~= s0);
                lemma_dedup_into_concat(c0, before, free_refs(items@[k as int].body, bound.union(arm_names(items@[k as int].pattern).to_set())));
            }
            k += 1;
        }
        assert(items@.take(k as int) =~= items@);
    }

    /// The captures of each statement of a block, each statement seeing
    /// the names that the earlier `let` statements bind; returns the names
    /// that all its `let` statements bind.
    fn collect_free_vars_statements(
        items: &Vec<BlockStatement>,
        outer_params: &Vec<String>,
        inner_scopes: &mut Vec<Vec<String>>,
        captures: &mut Vec<String>,
    ) -> (scope: Vec<String>)
        ensures
            views(final(captures)@) == dedup_into(views(old(captures)@), free_refs_statements(items@, scope_set(outer_params@, old(inner_scopes)@))),
            final(inner_scopes)@ == old(inner_scopes)@,
            views(scope@) == let_names(items@),
        decreases items@, 0nat,
    {
        let ghost s0 = inner_scopes@;
        let ghost bound = scope_set(outer_params@, inner_scopes@);
        let ghost c0 = views(captures@);
        let mut scope: Vec<String> = Vec::new();
        assert(views(scope@) =~= let_names(items@.take(0)));
        let mut k: usize = 0;
        while k < items.len()
            invariant
                k <= items.len(),
                inner_scopes@ == s0,
                bound == scope_set(outer_params@, s0),
                views(captures@) == dedup_into(c0, free_refs_statements(items@.take(k as int), bound)),
                views(scope@) == let_names(items@.take(k as int)),
            decreases items.len() - k,
        {
            proof {
                assert(items@.take(k + 1).drop_last() =~= items@.take(k as int));
                assert(items@.take(k + 1).last() == items@[k as int]);
                assert(decreases_to!(items@ => items@[k as int]));
                lemma_scope_set_push(outer_params@, s0, scope);
            }
            let ghost before = free_refs_statements(items@.take(k as int), bound);
            let ghost b = bound.union(let_names(items@.take(k as int)).to_set());
            let ghost sc = scope;
            inner_scopes.push(scope);
            assert(scope_set(outer_params@, inner_scopes@) == b);
            match &items[k] {
                BlockStatement::Let { value, .. } => {
                    proof { assert(decreases_to!(items@[k as int] => items@[k as int]->Let_value)); }
                    Self::collect_free_vars_rec(value, outer_params, inner_scopes, captures);
                    proof { lemma_dedup_into_concat(c0, before, free_refs(*value, b)); }
                },
                BlockStatement::Assign { target, value, .. } => {
                    proof { assert(decreases_to!(items@[k as int] => items@[k as int]->target)); }
                    Self::collect_free_vars_rec(target, outer_params, inner_scopes, captures);
                    proof { lemma_dedup_into_concat(c0, before, free_refs(*target, b)); }
                    Self::collect_free_vars_rec(value, outer_params, inner_scopes, captures);
                    proof {
                        lemma_dedup_into_concat(c0, before + free_refs(*target, b), free_refs(*value, b));
                        assert(before + free_refs(*target, b) + free_refs(*value, b)
                            =~= before + (free_refs(*target, b) + free_refs(*value, b)));
                    }
                },
                BlockStatement::Expr(x) => {
                    proof { assert(decreases_to!(items@[k as int] => items@[k as int]->Expr_0)); }
                    Self::collect_free_vars_rec(x, outer_params, inner_scopes, captures);
                    proof { lemma_dedup_into_concat(c0, before, free_refs(*x, b)); }
                },
            }
            scope = inner_scopes.pop().unwrap();
            assert(scope == sc);
            assert(inner_scopes@ =~= s0);
            let ghost sbefore = views(scope@);
            if let BlockStatement::Let { pattern, .. } = &items[k] {
                let names = pattern_binding_names(pattern);
                let mut j: usize = 0;
                while j < names.len()
                    invariant
                        j <= names.len(),
                        views(scope@) == sbefore + views(names@.take(j as int)),
                    decreases names.len() - j,
                {
                    let ghost before = scope@;
                    scope.push(names[j].clone());
                    proof {
                        assert(names@.take(j + 1) =~= names@.take(j as int).push(names@[j as int]));
                        assert(views(scope@) =~= views(before).push(names@[j as int]@));
                        assert(views(names@.take(j + 1)) =~= views(names@.take(j as int)).push(names@[j as int]@));
                    }
                    assert(views(scope@) =~= sbefore + views(names@.take(j + 1)));
                    j += 1;
                }
                assert(names@.take(j as int) =~= names@);
                assert(views(scope@) =~= let_names(items@.take(k + 1)));
            } else {
                assert(views(scope@) =~= let_names(items@.take(k + 1)));
            }
            k += 1;
        }
        assert(items@.take(k as int) =~= items@);
        scope
    }

    /// The uses after a sink in each expression of a list.
    fn check_captures_list(
        items: &Vec<Expr>,
        outer_params: &Vec<String>,
        inner_scopes: &mut Vec<Vec<String>>,
        consumed: &Vec<String>,
        errors: &mut Vec<CompilerError>,
    )
        ensures
        error_views(final(errors)@) == error_views(old(errors)@) + (sink_uses_list(items@, scope_set(outer_params@, old(inner_scopes)@), views(consumed@))),
        final(inner_scopes)@ == old(inner_scopes)@,
        decreases items@, 0nat,
    {
        let ghost bound = scope_set(outer_params@, inner_scopes@);
        let ghost c0 = error_views(errors@);
        let ghost cons = views(consumed@);
        let mut k: usize = 0;
        while k < items.len()
            invariant
                k <= items.len(),
                inner_scopes@ == old(inner_scopes)@,
                bound == scope_set(outer_params@, inner_scopes@),
                error_views(errors@) == c0 + (sink_uses_list(items@.take(k as int), bound, cons)),
            decreases items.len() - k,
        {
            proof {
                assert(items@.take(k + 1).drop_last() =~= items@.take(k as int));
                assert(decreases_to!(items@ => items@[k as int]));
            }
            let ghost before = sink_uses_list(items@.take(k as int), bound, cons);
            
            Self::check_captures_rec(&items[k], outer_params, consumed, errors, inner_scopes);
            proof { assert(c0 + (before) + (sink_uses(items@[k as int], bound, cons)) =~= c0 + ((before) + (sink_uses(items@[k as int], bound, cons)))); }
            let ghost before = before + sink_uses(items@[k as int], bound, cons);
            k += 1;
        }
        assert(items@.take(k as int) =~= items@);
    }

    /// The uses after a sink in each labelled value.
    fn check_captures_labeled(
        items: &Vec<(Ident, Expr)>,
        outer_params: &Vec<String>,
        inner_scopes: &mut Vec<Vec<String>>,
        consumed: &Vec<String>,
        errors: &mut Vec<CompilerError>,
    )
        ensures
        error_views(final(errors)@) == error_views(old(errors)@) + (sink_uses_labeled(items@, scope_set(outer_params@, old(inner_scopes)@), views(consumed@))),
        final(inner_scopes)@ == old(inner_scopes)@,
        decreases items@, 0nat,
    {
        let ghost bound = scope_set(outer_params@, inner_scopes@);
        let ghost c0 = error_views(errors@);
        let ghost cons = views(consumed@);
        let mut k: usize = 0;
        while k < items.len()
            invariant
                k <= items.len(),
                inner_scopes@ == old(inner_scopes)@,
                bound == scope_set(outer_params@, inner_scopes@),
                error_views(errors@) == c0 + (sink_uses_labeled(items@.take(k as int), bound, cons)),
            decreases items.len() - k,
        {
            proof {
                assert(items@.take(k + 1).drop_last() =~= items@.take(k as int));
                assert(decreases_to!(items@ => items@[k as int]));
            }
            let ghost before = sink_uses_labeled(items@.take(k as int), bound, cons);
            
            Self::check_captures_rec(&items[k].1, outer_params, consumed, errors, inner_scopes);
            proof { assert(c0 + (before) + (sink_uses(items@[k as int].1, bound, cons)) =~= c0 + ((before) + (sink_uses(items@[k as int].1, bound, cons)))); }
            let ghost before = before + sink_uses(items@[k as int].1, bound, cons);
            k += 1;
        }
        assert(items@.take(k as int) =~= items@);
    }

    /// The uses after a sink in each argument of a call.
    fn check_captures_args(
        items: &Vec<(Option<Ident>, Expr)>,
        outer_params: &Vec<String>,
        inner_scopes: &mut Vec<Vec<String>>,
        consumed: &Vec<String>,
        errors: &mut Vec<CompilerError>,
    )
        ensures
        error_views(final(errors)@) == error_views(old(errors)@) + (sink_uses_args(items@, scope_set(outer_params@, old(inner_scopes)@), views(consumed@))),
        final(inner_scopes)@ == old(inner_scopes)@,
        decreases items@, 0nat,
    {
        let ghost bound = scope_set(outer_params@, inner_scopes@);
        let ghost c0 = error_views(errors@);
        let ghost cons = views(consumed@);
        let mut k: usize = 0;
        while k < items.len()
            invariant
                k <= items.len(),
                inner_scopes@ == old(inner_scopes)@,
                bound == scope_set(outer_params@, inner_scopes@),
                error_views(errors@) == c0 + (sink_uses_args(items@.take(k as int), bound, cons)),
            decreases items.len() - k,
        {
            proof {
                assert(items@.take(k + 1).drop_last() =~= items@.take(k as int));
                assert(decreases_to!(items@ => items@[k as int]));
            }
            let ghost before = sink_uses_args(items@.take(k as int), bound, cons);
            
            Self::check_captures_rec(&items[k].1, outer_params, consumed, errors, inner_scopes);
            proof { assert(c0 + (before) + (sink_uses(items@[k as int].1, bound, cons)) =~= c0 + ((before) + (sink_uses(items@[k as int].1, bound, cons)))); }
            let ghost before = before + sink_uses(items@[k as int].1, bound, cons);
            k += 1;
        }
        assert(items@.take(k as int) =~= items@);
    }

    /// The uses after a sink in each key and each value of a dictionary literal.
    fn check_captures_entries(
        items: &Vec<(Expr, Expr)>,
        outer_params: &Vec<String>,
        inner_scopes: &mut Vec<Vec<String>>,
        consumed: &Vec<String>,
        errors: &mut Vec<CompilerError>,
    )
        ensures
        error_views(final(errors)@) == error_views(old(errors)@) + (sink_uses_entries(items@, scope_set(outer_params@, old(inner_scopes)@), views(consumed@))),
        final(inner_scopes)@ == old(inner_scopes)@,
        decreases items@, 0nat,
    {
        let ghost bound = scope_set(outer_params@, inner_scopes@);
        let ghost c0 = error_views(errors@);
        let ghost cons = views(consumed@);
        let mut k: usize = 0;
        while k < items.len()
            invariant
                k <= items.len(),
                inner_scopes@ == old(inner_scopes)@,
                bound == scope_set(outer_params@, inner_scopes@),
                error_views(errors@) == c0 + (sink_uses_entries(items@.take(k as int), bound, cons)),
            decreases items.len() - k,
        {
            proof {
                assert(items@.take(k + 1).drop_last() =~= items@.take(k as int));
                assert(decreases_to!(items@ => items@[k as int]));
            }
            let ghost before = sink_uses_entries(items@.take(k as int), bound, cons);
            
            Self::check_captures_rec(&items[k].0, outer_params, consumed, errors, inner_scopes);
            proof { assert(c0 + (before) + (sink_uses(items@[k as int].0, bound, cons)) =~= c0 + ((before) + (sink_uses(items@[k as int].0, bound, cons)))); }
            let ghost before = before + sink_uses(items@[k as int].0, bound, cons);
            
            Self::check_captures_rec(&items[k].1, outer_params, consumed, errors, inner_scopes);
            proof { assert(c0 + (before) + (sink_uses(items@[k as int].1, bound, cons)) =~= c0 + ((before) + (sink_uses(items@[k as int].1, bound, cons)))); }
            let ghost before = before + sink_uses(items@[k as int].1, bound, cons);
            k += 1;
        }
        assert(items@.take(k as int) =~= items@);
    }

    /// The uses after a sink in each arm of a `match`; an arm's pattern binds its
    /// names for the arm's body.
    fn check_captures_arms(
        items: &Vec<MatchArm>,
        outer_params: &Vec<String>,
        inner_scopes: &mut Vec<Vec<String>>,
        consumed: &Vec<String>,
        errors: &mut Vec<CompilerError>,
    )
        ensures
            error_views(final(errors)@) == error_views(old(errors)@) + (sink_uses_arms(items@, scope_set(outer_params@, old(inner_scopes)@), views(consumed@))),
            final(inner_scopes)@ == old(inner_scopes)@,
        decreases items@, 0nat,
    {
        let ghost bound = scope_set(outer_params@, inner_scopes@);
        let ghost c0 = error_views(errors@);
        let ghost cons = views(consumed@);
        let ghost s0 = inner_scopes@;
        let mut k: usize = 0;
        while k < items.len()
            invariant
                k <= items.len(),
                inner_scopes@ == s0,
                s0 == old(inner_scopes)@,
                bound == scope_set(outer_params@, s0),
                error_views(errors@) == c0 + (sink_uses_arms(items@.take(k as int), bound, cons)),
            decreases items.len() - k,
        {
            proof {
                assert(items@.take(k + 1).drop_last() =~= items@.take(k as int));
                assert(decreases_to!(items@ => items@[k as int]));
            }
            let ghost before = sink_uses_arms(items@.take(k as int), bound, cons);
            let scope = arm_scope(&items[k].pattern);
            proof { lemma_scope_set_push(outer_params@, s0, scope); }
            inner_scopes.push(scope);
            Self::check_captures_rec(&items[k].body, outer_params, consumed, errors, inner_scopes);
            inner_scopes.pop();
            proof {
                assert(inner_scopes@ =~= s0);
                assert(c0 + (before) + (sink_uses(items@[k as int].body, bound.union(arm_names(items@[k as int].pattern).to_set()), cons)) =~= c0 + ((before) + (sink_uses(items@[k as int].body, bound.union(arm_names(items@[k as int].pattern).to_set()), cons)))); }
            k += 1;
        }
        assert(items@.take(k as int) =~= items@);
    }

    /// The uses after a sink in each statement of a block, each statement
    /// seeing the names that the earlier `let` statements bind; returns the
    /// names that all its `let` statements bind.
    fn check_captures_statements(
        items: &Vec<BlockStatement>,
        outer_params: &Vec<String>,
        inner_scopes: &mut Vec<Vec<String>>,
        consumed: &Vec<String>,
        errors: &mut Vec<CompilerError>,
    ) -> (scope: Vec<String>)
        ensures
            error_views(final(errors)@) == error_views(old(errors)@) + (sink_uses_statements(items@, scope_set(outer_params@, old(inner_scopes)@), views(consumed@))),
            final(inner_scopes)@ == old(inner_scopes)@,
            views(scope@) == let_names(items@),
        decreases items@, 0nat,
    {
        let ghost s0 = inner_scopes@;
        let ghost bound = scope_set(outer_params@, inner_scopes@);
        let ghost c0 = error_views(errors@);
        let ghost cons = views(consumed@);
        let mut scope: Vec<String> = Vec::new();
        assert(views(scope@) =~= let_names(items@.take(0)));
        let mut k: usize = 0;
        while k < items.len()
            invariant
                k <= items.len(),
                inner_scopes@ == s0,
                bound == scope_set(outer_params@, s0),
                error_views(errors@) == c0 + (sink_uses_statements(items@.take(k as int), bound, cons)),
                views(scope@) == let_names(items@.take(k as int)),
            decreases items.len() - k,
        {
            proof {
                assert(items@.take(k + 1).drop_last() =~= items@.take(k as int));
                assert(items@.take(k + 1).last() == items@[k as int]);
                assert(decreases_to!(items@ => items@[k as int]));
                lemma_scope_set_push(outer_params@, s0, scope);
            }
            let ghost before = sink_uses_statements(items@.take(k as int), bound, cons);
            let ghost b = bound.union(let_names(items@.take(k as int)).to_set());
            let ghost sc = scope;
            inner_scopes.push(scope);
            assert(scope_set(outer_params@, inner_scopes@) == b);
            match &items[k] {
                BlockStatement::Let { value, .. } => {
                    proof { assert(decreases_to!(items@[k as int] => items@[k as int]->Let_value)); }
                    Self::check_captures_rec(value, outer_params, consumed, errors, inner_scopes);
                    proof { assert(c0 + (before) + (sink_uses(*value, b, cons)) =~= c0 + ((before) + (sink_uses(*value, b, cons)))); }
                },
                BlockStatement::Assign { target, value, .. } => {
                    proof { assert(decreases_to!(items@[k as int] => items@[k as int]->target)); }
                    Self::check_captures_rec(target, outer_params, consumed, errors, inner_scopes);
                    Self::check_captures_rec(value, outer_params, consumed, errors, inner_scopes);
                    proof {
                        assert(c0 + before + sink_uses(*target, b, cons) + sink_uses(*value, b, cons)
                            =~= c0 + (before + (sink_uses(*target, b, cons) + sink_uses(*value, b, cons))));
                    }
                },
                BlockStatement::Expr(x) => {
                    proof { assert(decreases_to!(items@[k as int] => items@[k as int]->Expr_0)); }
                    Self::check_captures_rec(x, outer_params, consumed, errors, inner_scopes);
                    proof { assert(c0 + (before) + (sink_uses(*x, b, cons)) =~= c0 + ((before) + (sink_uses(*x, b, cons)))); }
                },
            }
            scope = inner_scopes.pop().unwrap();
            assert(scope == sc);
            assert(inner_scopes@ =~= s0);
            let ghost sbefore = views(scope@);
            if let BlockStatement::Let { pattern, .. } = &items[k] {
                let names = pattern_binding_names(pattern);
                let mut j: usize = 0;
                while j < names.len()
                    invariant
                        j <= names.len(),
                        views(scope@) == sbefore + views(names@.take(j as int)),
                    decreases names.len() - j,
                {
                    let ghost before = scope@;
                    scope.push(names[j].clone());
                    proof {
                        assert(names@.take(j + 1) =~= names@.take(j as int).push(names@[j as int]));
                        assert(views(scope@) =~= views(before).push(names@[j as int]@));
                        assert(views(names@.take(j + 1)) =~= views(names@.take(j as int)).push(names@[j as int]@));
                    }
                    assert(views(scope@) =~= sbefore + views(names@.take(j + 1)));
                    j += 1;
                }
                assert(names@.take(j as int) =~= names@);
                assert(views(scope@) =~= let_names(items@.take(k + 1)));
            } else {
                assert(views(scope@) =~= let_names(items@.take(k + 1)));
            }
            k += 1;
        }
        assert(items@.take(k as int) =~= items@);
        scope
    }

    /// Append to `captures` each free name of `expr` that it does not hold
    /// yet, given the closure's parameters and the scopes opened inside the
    /// closure body around `expr`.
    pub fn collect_free_vars_rec(
        expr: &Expr,
        outer_params: &Vec<String>,
        inner_scopes: &mut Vec<Vec<String>>,
        captures: &mut Vec<String>,
    )
        ensures
            views(final(captures)@) == dedup_into(views(old(captures)@), free_refs(*expr, scope_set(outer_params@, old(inner_scopes)@))),
            final(inner_scopes)@ == old(inner_scopes)@,
        decreases *expr, 1nat,
    {
        let ghost e0 = *expr;
        let ghost bound = scope_set(outer_params@, inner_scopes@);
        let ghost s0 = inner_scopes@;
        let ghost c0 = views(captures@);
        match expr {
            Expr::Reference { path, .. } => {
                Self::capture_path(path, outer_params, inner_scopes, captures);
            },
            Expr::Literal { .. } => {},
            Expr::InferredEnumInstantiation { .. } => {},
            Expr::Array { elements, .. } => {
                proof { assert(decreases_to!(e0 => e0->elements@)); }
                Self::collect_free_vars_list(elements, outer_params, inner_scopes, captures);
            },
            Expr::Tuple { fields, .. } => {
                proof { assert(decreases_to!(e0 => e0->fields@)); }
                Self::collect_free_vars_labeled(fields, outer_params, inner_scopes, captures);
            },
            Expr::Invocation { path, args, .. } => {
                // A single-segment call may call a captured closure binding,
                // so its name counts as a capture too.
                Self::capture_path(path, outer_params, inner_scopes, captures);
                let ghost mid = path_capture(path@, bound);
                proof { assert(decreases_to!(e0 => e0->Invocation_args@)); }
                Self::collect_free_vars_args(args, outer_params, inner_scopes, captures);
                proof { lemma_dedup_into_concat(c0, mid, free_refs_args(args@, bound)); }
            },
            Expr::EnumInstantiation { data, .. } => {
                proof { assert(decreases_to!(e0 => e0->EnumInstantiation_data@)); }
                Self::collect_free_vars_labeled(data, outer_params, inner_scopes, captures);
            },
            Expr::BinaryOp { left, right, .. } => {
                Self::collect_free_vars_rec(left, outer_params, inner_scopes, captures);
                Self::collect_free_vars_rec(right, outer_params, inner_scopes, captures);
                proof { lemma_dedup_into_concat(c0, free_refs(**left, bound), free_refs(**right, bound)); }
            },
            Expr::UnaryOp { operand, .. } => {
                Self::collect_free_vars_rec(operand, outer_params, inner_scopes, captures);
            },
            Expr::ForExpr { var, collection, body, .. } => {
                Self::collect_free_vars_rec(collection, outer_params, inner_scopes, captures);
                let mut scope: Vec<String> = Vec::new();
                scope.push(var.name.clone());
                proof {
                    lemma_scope_set_push(outer_params@, s0, scope);
                    assert(views(scope@) =~= seq![var.name@]);
                    assert forall|n: Seq<char>| views(scope@).to_set().contains(n) <==> n == var.name@ by {
                        if n == var.name@ {
                            assert(views(scope@)[0] == n);
                        }
                    }
                    assert(bound.union(views(scope@).to_set()) =~= bound.insert(var.name@));
                }
                inner_scopes.push(scope);
                Self::collect_free_vars_rec(body, outer_params, inner_scopes, captures);
                inner_scopes.pop();
                proof {
                    assert(inner_scopes@ =~= s0);
                    lemma_dedup_into_concat(c0, free_refs(**collection, bound), free_refs(**body, bound.insert(var.name@)));
                }
            },
            Expr::IfExpr { condition, then_branch, else_branch, .. } => {
                Self::collect_free_vars_rec(condition, outer_params, inner_scopes, captures);
                Self::collect_free_vars_rec(then_branch, outer_params, inner_scopes, captures);
                proof { lemma_dedup_into_concat(c0, free_refs(**condition, bound), free_refs(**then_branch, bound)); }
                let ghost mid = free_refs(**condition, bound) + free_refs(**then_branch, bound);
                match else_branch {
                    Some(x) => {
                        Self::collect_free_vars_rec(x, outer_params, inner_scopes, captures);
                        proof { lemma_dedup_into_concat(c0, mid, free_refs(**x, bound)); }
                    },
                    None => {
                        assert(mid + Seq::<Seq<char>>::empty() =~= mid);
                    },
                }
            },
            Expr::MatchExpr { scrutinee, arms, .. } => {
                Self::collect_free_vars_rec(scrutinee, outer_params, inner_scopes, captures);
                proof { assert(decreases_to!(e0 => e0->arms@)); }
                Self::collect_free_vars_arms(arms, outer_params, inner_scopes, captures);
                proof { lemma_dedup_into_concat(c0, free_refs(**scrutinee, bound), free_refs_arms(arms@, bound)); }
            },
            Expr::Group { expr: inner, .. } => {
                Self::collect_free_vars_rec(inner, outer_params, inner_scopes, captures);
            },
            Expr::DictLiteral { entries, .. } => {
                proof { assert(decreases_to!(e0 => e0->entries@)); }
                Self::collect_free_vars_entries(entries, outer_params, inner_scopes, captures);
            },
            Expr::DictAccess { dict, key, .. } => {
                Self::collect_free_vars_rec(dict, outer_params, inner_scopes, captures);
                Self::collect_free_vars_rec(key, outer_params, inner_scopes, captures);
                proof { lemma_dedup_into_concat(c0, free_refs(**dict, bound), free_refs(**key, bound)); }
            },
            Expr::FieldAccess { object, .. } => {
                Self::collect_free_vars_rec(object, outer_params, inner_scopes, captures);
            },
            Expr::ClosureExpr { params, body, .. } => {
                let scope = closure_params_scope(params);
                proof { lemma_scope_set_push(outer_params@, s0, scope); }
                inner_scopes.push(scope);
                Self::collect_free_vars_rec(body, outer_params, inner_scopes, captures);
                inner_scopes.pop();
                proof { assert(inner_scopes@ =~= s0); }
            },
            Expr::LetExpr { pattern, value, body, .. } => {
                Self::collect_free_vars_rec(value, outer_params, inner_scopes, captures);
                let scope = pattern_binding_names(pattern);
                proof { lemma_scope_set_push(outer_params@, s0, scope); }
                inner_scopes.push(scope);
                Self::collect_free_vars_rec(body, outer_params, inner_scopes, captures);
                inner_scopes.pop();
                proof {
                    assert(inner_scopes@ =~= s0);
                    lemma_dedup_into_concat(c0, free_refs(**value, bound),
                        free_refs(**body, bound.union(ident_names(pattern_names(*pattern)).to_set())));
                }
            },
            Expr::MethodCall { receiver, args, .. } => {
                Self::collect_free_vars_rec(receiver, outer_params, inner_scopes, captures);
                proof { assert(decreases_to!(e0 => e0->MethodCall_args@)); }
                Self::collect_free_vars_args(args, outer_params, inner_scopes, captures);
                proof { lemma_dedup_into_concat(c0, free_refs(**receiver, bound), free_refs_args(args@, bound)); }
            },
            Expr::Block { statements, result, .. } => {
                proof { assert(decreases_to!(e0 => e0->statements@)); }
                let scope = Self::collect_free_vars_statements(statements, outer_params, inner_scopes, captures);
                assert(views(scope@) =~= let_names(statements@));
                proof { lemma_scope_set_push(outer_params@, s0, scope); }
                inner_scopes.push(scope);
                Self::collect_free_vars_rec(result, outer_params, inner_scopes, captures);
                inner_scopes.pop();
                proof {
                    assert(inner_scopes@ =~= s0);
                    lemma_dedup_into_concat(c0, free_refs_statements(statements@, bound),
                        free_refs(**result, bound.union(let_names(statements@).to_set())));
                }
            },
        }
    }

    /// Append the name of a single-segment path to `captures` when it is a
    /// capture that `captures` does not hold yet.
    fn capture_path(
        path: &Vec<Ident>,
        outer_params: &Vec<String>,
        inner_scopes: &Vec<Vec<String>>,
        captures: &mut Vec<String>,
    )
        ensures
            views(final(captures)@) == dedup_into(views(old(captures)@), path_capture(path@, scope_set(outer_params@, inner_scopes@))),
    {
        let ghost bound = scope_set(outer_params@, inner_scopes@);
        let ghost c0 = views(captures@);
        proof { lemma_dedup_into_one(c0, seq![]); }
        if path.len() == 1 {
            let name = &path[0].name;
            proof { lemma_dedup_into_one(c0, name@); }
            if !is_bound(name.as_str(), outer_params, inner_scopes)
                && !list_contains(captures, name.as_str())
                && !str_equals(name.as_str(), "self")
            {
                captures.push(name.clone());
                assert(views(captures@) =~= c0.push(name@));
            }
        }
    }

    /// Walk `expr` and report `UseAfterSink` for each reference whose root
    /// binding is in `consumed` and that neither a closure parameter nor a
    /// binding introduced inside the closure body shadows.
    pub fn check_captures_rec(
        expr: &Expr,
        outer_params: &Vec<String>,
        consumed: &Vec<String>,
        errors: &mut Vec<CompilerError>,
        inner_scopes: &mut Vec<Vec<String>>,
    )
        ensures
            error_views(final(errors)@) == error_views(old(errors)@)
                + sink_uses(*expr, scope_set(outer_params@, old(inner_scopes)@), views(consumed@)),
            final(inner_scopes)@ == old(inner_scopes)@,
        decreases *expr, 1nat,
    {
        let ghost e0 = *expr;
        let ghost bound = scope_set(outer_params@, inner_scopes@);
        let ghost s0 = inner_scopes@;
        let ghost c0 = error_views(errors@);
        let ghost cons = views(consumed@);
        match expr {
            Expr::Reference { path, span } => {
                if path.len() > 0 {
                    let name = &path[0].name;
                    if !is_bound(name.as_str(), outer_params, inner_scopes)
                        && list_contains(consumed, name.as_str())
                    {
                        errors.push(CompilerError::UseAfterSink { name: name.clone(), span: *span });
                        assert(error_views(errors@) =~= c0 + seq![ErrorView::UseAfterSink { name: name@, span: *span }]);
                    } else {
                        assert(error_views(errors@) =~= c0 + Seq::<ErrorView>::empty());
                    }
                } else {
                    assert(error_views(errors@) =~= c0 + Seq::<ErrorView>::empty());
                }
            },
            Expr::Literal { .. } => {
                assert(error_views(errors@) =~= c0 + Seq::<ErrorView>::empty());
            },
            Expr::InferredEnumInstantiation { .. } => {
                assert(error_views(errors@) =~= c0 + Seq::<ErrorView>::empty());
            },
            Expr::Array { elements, .. } => {
                proof { assert(decreases_to!(e0 => e0->elements@)); }
                Self::check_captures_list(elements, outer_params, inner_scopes, consumed, errors);
            },
            Expr::Tuple { fields, .. } => {
                proof { assert(decreases_to!(e0 => e0->fields@)); }
                Self::check_captures_labeled(fields, outer_params, inner_scopes, consumed, errors);
            },
            Expr::Invocation { args, .. } => {
                proof { assert(decreases_to!(e0 => e0->Invocation_args@)); }
                Self::check_captures_args(args, outer_params, inner_scopes, consumed, errors);
            },
            Expr::EnumInstantiation { data, .. } => {
                proof { assert(decreases_to!(e0 => e0->EnumInstantiation_data@)); }
                Self::check_captures_labeled(data, outer_params, inner_scopes, consumed, errors);
            },
            Expr::BinaryOp { left, right, .. } => {
                Self::check_captures_rec(left, outer_params, consumed, errors, inner_scopes);
                Self::check_captures_rec(right, outer_params, consumed, errors, inner_scopes);
                assert(c0 + sink_uses(**left, bound, cons) + sink_uses(**right, bound, cons)
                    =~= c0 + (sink_uses(**left, bound, cons) + sink_uses(**right, bound, cons)));
            },
            Expr::UnaryOp { operand, .. } => {
                Self::check_captures_rec(operand, outer_params, consumed, errors, inner_scopes);
            },
            Expr::ForExpr { var, collection, body, .. } => {
                Self::check_captures_rec(collection, outer_params, consumed, errors, inner_scopes);
                let mut scope: Vec<String> = Vec::new();
                scope.push(var.name.clone());
                proof {
                    lemma_scope_set_push(outer_params@, s0, scope);
                    assert(views(scope@) =~= seq![var.name@]);
                    assert forall|n: Seq<char>| views(scope@).to_set().contains(n) <==> n == var.name@ by {
                        if n == var.name@ {
                            assert(views(scope@)[0] == n);
                        }
                    }
                    assert(bound.union(views(scope@).to_set()) =~= bound.insert(var.name@));
                }
                inner_scopes.push(scope);
                Self::check_captures_rec(body, outer_params, consumed, errors, inner_scopes);
                inner_scopes.pop();
                proof {
                    assert(inner_scopes@ =~= s0);
                    assert(c0 + sink_uses(**collection, bound, cons) + sink_uses(**body, bound.insert(var.name@), cons)
                        =~= c0 + (sink_uses(**collection, bound, cons) + sink_uses(**body, bound.insert(var.name@), cons)));
                }
            },
            Expr::IfExpr { condition, then_branch, else_branch, .. } => {
                Self::check_captures_rec(condition, outer_params, consumed, errors, inner_scopes);
                Self::check_captures_rec(then_branch, outer_params, consumed, errors, inner_scopes);
                let ghost mid = sink_uses(**condition, bound, cons) + sink_uses(**then_branch, bound, cons);
                assert(error_views(errors@) =~= c0 + mid);
                match else_branch {
                    Some(x) => {
                        Self::check_captures_rec(x, outer_params, consumed, errors, inner_scopes);
                        assert(c0 + mid + sink_uses(**x, bound, cons) =~= c0 + (mid + sink_uses(**x, bound, cons)));
                    },
                    None => {
                        assert(mid + Seq::<ErrorView>::empty() =~= mid);
                    },
                }
            },
            Expr::MatchExpr { scrutinee, arms, .. } => {
                Self::check_captures_rec(scrutinee, outer_params, consumed, errors, inner_scopes);
                proof { assert(decreases_to!(e0 => e0->arms@)); }
                Self::check_captures_arms(arms, outer_params, inner_scopes, consumed, errors);
                assert(c0 + sink_uses(**scrutinee, bound, cons) + sink_uses_arms(arms@, bound, cons)
                    =~= c0 + (sink_uses(**scrutinee, bound, cons) + sink_uses_arms(arms@, bound, cons)));
            },
            Expr::Group { expr: inner, .. } => {
                Self::check_captures_rec(inner, outer_params, consumed, errors, inner_scopes);
            },
            Expr::DictLiteral { entries, .. } => {
                proof { assert(decreases_to!(e0 => e0->entries@)); }
                Self::check_captures_entries(entries, outer_params, inner_scopes, consumed, errors);
            },
            Expr::DictAccess { dict, key, .. } => {
                Self::check_captures_rec(dict, outer_params, consumed, errors, inner_scopes);
                Self::check_captures_rec(key, outer_params, consumed, errors, inner_scopes);
                assert(c0 + sink_uses(**dict, bound, cons) + sink_uses(**key, bound, cons)
                    =~= c0 + (sink_uses(**dict, bound, cons) + sink_uses(**key, bound, cons)));
            },
            Expr::FieldAccess { object, .. } => {
                Self::check_captures_rec(object, outer_params, consumed, errors, inner_scopes);
            },
            Expr::ClosureExpr { params, body, .. } => {
                let scope = closure_params_scope(params);
                proof { lemma_scope_set_push(outer_params@, s0, scope); }
                inner_scopes.push(scope);
                Self::check_captures_rec(body, outer_params, consumed, errors, inner_scopes);
                inner_scopes.pop();
                proof { assert(inner_scopes@ =~= s0); }
            },
            Expr::LetExpr { pattern, value, body, .. } => {
                Self::check_captures_rec(value, outer_params, consumed, errors, inner_scopes);
                let scope = pattern_binding_names(pattern);
                proof { lemma_scope_set_push(outer_params@, s0, scope); }
                inner_scopes.push(scope);
                Self::check_captures_rec(body, outer_params, consumed, errors, inner_scopes);
                inner_scopes.pop();
                proof {
                    assert(inner_scopes@ =~= s0);
                    let b2 = bound.union(ident_names(pattern_names(*pattern)).to_set());
                    assert(c0 + sink_uses(**value, bound, cons) + sink_uses(**body, b2, cons)
                        =~= c0 + (sink_uses(**value, bound, cons) + sink_uses(**body, b2, cons)));
                }
            },
            Expr::MethodCall { receiver, args, .. } => {
                Self::check_captures_rec(receiver, outer_params, consumed, errors, inner_scopes);
                proof { assert(decreases_to!(e0 => e0->MethodCall_args@)); }
                Self::check_captures_args(args, outer_params, inner_scopes, consumed, errors);
                assert(c0 + sink_uses(**receiver, bound, cons) + sink_uses_args(args@, bound, cons)
                    =~= c0 + (sink_uses(**receiver, bound, cons) + sink_uses_args(args@, bound, cons)));
            },
            Expr::Block { statements, result, .. } => {
                proof { assert(decreases_to!(e0 => e0->statements@)); }
                let scope = Self::check_captures_statements(statements, outer_params, inner_scopes, consumed, errors);
                assert(views(scope@) =~= let_names(statements@));
                proof { lemma_scope_set_push(outer_params@, s0, scope); }
                inner_scopes.push(scope);
                Self::check_captures_rec(result, outer_params, consumed, errors, inner_scopes);
                inner_scopes.pop();
                proof {
                    assert(inner_scopes@ =~= s0);
                    let b2 = bound.union(let_names(statements@).to_set());
                    assert(c0 + sink_uses_statements(statements@, bound, cons) + sink_uses(**result, b2, cons)
                        =~= c0 + (sink_uses_statements(statements@, bound, cons) + sink_uses(**result, b2, cons)));
                }
            },
        }
    }
}

} // verus!

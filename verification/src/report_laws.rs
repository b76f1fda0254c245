//! Laws that say what a check must find, over all inputs: which pairs of
//! call arguments must be reported, which primitives are key types, which
//! duplicate parameters of an impl's methods are reported, what a `for`
//! loop does to the sequence it iterates, and which names a closure
//! captures.

use vstd::prelude::*;
use crate::ast::{Definition, Expr, ParamConvention, PrimitiveType, Span};
use crate::duplicate_names::{cat4, definition_dups, method_dups, param_dups, param_names, signature_dups, struct_field_dups, struct_field_names};
use crate::error::ErrorView;
use crate::exclusivity::{all_overlaps, dotted, first_occurrences, overlap_of, overlap_reports, pair_overlap, row_overlaps};
use crate::free_vars::{dedup_into, free_refs, free_refs_args, free_refs_entries, free_refs_labeled, free_refs_list, lemma_dedup_into_unique};
use crate::key_types::key_type_ok;
use crate::sem_type::SType;
use crate::sequence_linear::{entry_index, linear_args, linear_repeated, linear_walk, read_in, read_name, unconsumed, LinearBinding, LinearScopes};
use crate::symbols::SymbolTable;

verus! {

proof fn lemma_contains_left<A>(a: Seq<A>, b: Seq<A>, x: A)
    requires
        a.contains(x),
    ensures
        (a + b).contains(x),
{
    let k = choose|k: int| 0 <= k < a.len() && a[k] == x;
    assert((a + b)[k] == x);
}

proof fn lemma_contains_right<A>(a: Seq<A>, b: Seq<A>, x: A)
    requires
        b.contains(x),
    ensures
        (a + b).contains(x),
{
    let k = choose|k: int| 0 <= k < b.len() && b[k] == x;
    assert((a + b)[a.len() + k] == x);
}

proof fn lemma_first_occurrences_keeps<A>(acc: Seq<A>, s: Seq<A>, x: A)
    requires
        s.contains(x) || acc.contains(x),
    ensures
        first_occurrences(acc, s).contains(x),
    decreases s.len(),
{
    if s.len() > 0 {
        let prev = first_occurrences(acc, s.drop_last());
        if x == s.last() {
            if !prev.contains(x) {
                assert(prev.push(x)[prev.len() as int] == x);
            }
        } else {
            if s.contains(x) {
                let k = choose|k: int| 0 <= k < s.len() && s[k] == x;
                assert(s.drop_last()[k] == x);
            }
            lemma_first_occurrences_keeps(acc, s.drop_last(), x);
            if !prev.contains(s.last()) {
                let k = choose|k: int| 0 <= k < prev.len() && prev[k] == x;
                assert(prev.push(s.last())[k] == x);
            }
        }
    }
}

proof fn lemma_row_contains(paths: Seq<(ParamConvention, Seq<Seq<char>>)>, i: int, j: int, m: int, x: Seq<Seq<char>>)
    requires
        i < j < m,
        pair_overlap(paths, i, j).contains(x),
    ensures
        row_overlaps(paths, i, m).contains(x),
    decreases m - i,
{
    if m - 1 == j {
        lemma_contains_right(row_overlaps(paths, i, m - 1), pair_overlap(paths, i, m - 1), x);
    } else {
        lemma_row_contains(paths, i, j, m - 1, x);
        lemma_contains_left(row_overlaps(paths, i, m - 1), pair_overlap(paths, i, m - 1), x);
    }
}

proof fn lemma_all_contains(paths: Seq<(ParamConvention, Seq<Seq<char>>)>, i: int, n: int, x: Seq<Seq<char>>)
    requires
        0 <= i < n,
        row_overlaps(paths, i, paths.len() as int).contains(x),
    ensures
        all_overlaps(paths, n).contains(x),
    decreases n,
{
    if n - 1 == i {
        lemma_contains_right(all_overlaps(paths, n - 1), row_overlaps(paths, n - 1, paths.len() as int), x);
    } else {
        lemma_all_contains(paths, i, n - 1, x);
        lemma_contains_left(all_overlaps(paths, n - 1), row_overlaps(paths, n - 1, paths.len() as int), x);
    }
}

/// Two arguments of one call that reach overlapping places are reported
/// when either of them is `mut` or `sink`, whichever comes first: the
/// shared place, the shorter of the two, is among the reports.
pub proof fn law_an_exclusive_argument_conflicts_with_any_other(paths: Seq<(ParamConvention, Seq<Seq<char>>)>, i: int, j: int,
    shared: Seq<Seq<char>>, span: Span)
    requires
        0 <= i < j < paths.len(),
        paths[i].0 == ParamConvention::Mut || paths[i].0 == ParamConvention::Sink
            || paths[j].0 == ParamConvention::Mut || paths[j].0 == ParamConvention::Sink,
        (shared == paths[i].1 && shared.len() <= paths[j].1.len() && paths[j].1.take(shared.len() as int) == shared)
            || (shared == paths[j].1 && shared.len() <= paths[i].1.len() && paths[i].1.take(shared.len() as int) == shared),
    ensures
        all_overlaps(paths, paths.len() as int).contains(shared),
        overlap_reports(first_occurrences(Seq::<Seq<Seq<char>>>::empty(), all_overlaps(paths, paths.len() as int)), span)
            .contains(ErrorView::OverlappingArguments { path: dotted(shared), span }),
{
    let a = paths[i].1;
    let b = paths[j].1;
    if shared == a && shared.len() <= b.len() && b.take(shared.len() as int) == shared {
        if a.len() == b.len() {
            assert(b =~= a) by {
                assert(b.take(a.len() as int) =~= b);
            }
        }
    } else {
        if a.len() == b.len() {
            assert(a =~= b) by {
                assert(a.take(b.len() as int) =~= a);
            }
        }
    }
    assert(overlap_of(a, b) == Some(shared));
    assert(pair_overlap(paths, i, j) == seq![shared]);
    assert(pair_overlap(paths, i, j)[0] == shared);
    lemma_row_contains(paths, i, j, paths.len() as int, shared);
    lemma_all_contains(paths, i, paths.len() as int, shared);
    let all = all_overlaps(paths, paths.len() as int);
    lemma_first_occurrences_keeps(Seq::<Seq<Seq<char>>>::empty(), all, shared);
    let firsts = first_occurrences(Seq::<Seq<Seq<char>>>::empty(), all);
    let k = choose|k: int| 0 <= k < firsts.len() && firsts[k] == shared;
    assert(overlap_reports(firsts, span)[k] == ErrorView::OverlappingArguments { path: dotted(shared), span });
}

/// `String`, `I32`, `I64` and `Boolean` can be dictionary keys, in any
/// program; `F32` and `F64` cannot.
pub proof fn law_key_primitives(st: SymbolTable)
    ensures
        key_type_ok(st, SType::Primitive(PrimitiveType::String)),
        key_type_ok(st, SType::Primitive(PrimitiveType::I32)),
        key_type_ok(st, SType::Primitive(PrimitiveType::I64)),
        key_type_ok(st, SType::Primitive(PrimitiveType::Boolean)),
        !key_type_ok(st, SType::Primitive(PrimitiveType::F32)),
        !key_type_ok(st, SType::Primitive(PrimitiveType::F64)),
{
}

proof fn lemma_param_dup_reported(params: Seq<crate::ast::FnParam>, owner: Seq<char>, p: int, q: int)
    requires
        0 <= p < q < params.len(),
        params[p].name.name@ == params[q].name.name@,
    ensures
        param_dups(params, owner).contains(ErrorView::DuplicateDefinition {
            name: cat4("parameter '"@, params[q].name.name@, "' of "@, owner),
            span: params[q].span,
        }),
    decreases params.len(),
{
    let earlier = params.drop_last();
    let report = ErrorView::DuplicateDefinition {
        name: cat4("parameter '"@, params[q].name.name@, "' of "@, owner),
        span: params[q].span,
    };
    if q == params.len() - 1 {
        assert(param_names(earlier)[p] == params[q].name.name@);
        let named = seq![report];
        assert(named[0] == report);
        lemma_contains_right(param_dups(earlier, owner), named, report);
        lemma_contains_left(param_dups(earlier, owner) + named, match params.last().external_label {
            Some(l) => if crate::duplicate_names::param_labels(earlier).contains(l.name@) {
                seq![ErrorView::DuplicateDefinition { name: cat4("argument label '"@, l.name@, "' of "@, owner), span: params.last().span }]
            } else {
                seq![]
            },
            None => seq![],
        }, report);
    } else {
        lemma_param_dup_reported(earlier, owner, p, q);
        assert(earlier[q] == params[q]);
        let mid = if param_names(earlier).contains(params.last().name.name@) {
            seq![ErrorView::DuplicateDefinition {
                name: cat4("parameter '"@, params.last().name.name@, "' of "@, owner),
                span: params.last().span,
            }]
        } else {
            Seq::<ErrorView>::empty()
        };
        lemma_contains_left(param_dups(earlier, owner), mid, report);
        lemma_contains_left(param_dups(earlier, owner) + mid, match params.last().external_label {
            Some(l) => if crate::duplicate_names::param_labels(earlier).contains(l.name@) {
                seq![ErrorView::DuplicateDefinition { name: cat4("argument label '"@, l.name@, "' of "@, owner), span: params.last().span }]
            } else {
                seq![]
            },
            None => seq![],
        }, report);
    }
}

proof fn lemma_method_dups_hold(methods: Seq<crate::ast::FnDef>, k: int, x: ErrorView)
    requires
        0 <= k < methods.len(),
        param_dups(methods[k].params@, methods[k].name.name@).contains(x),
    ensures
        method_dups(methods).contains(x),
    decreases methods.len(),
{
    if k == methods.len() - 1 {
        lemma_contains_right(method_dups(methods.drop_last()), param_dups(methods.last().params@, methods.last().name.name@), x);
    } else {
        assert(methods.drop_last()[k] == methods[k]);
        lemma_method_dups_hold(methods.drop_last(), k, x);
        lemma_contains_left(method_dups(methods.drop_last()), param_dups(methods.last().params@, methods.last().name.name@), x);
    }
}

/// A method of an impl block that names two parameters alike is reported,
/// as a free function is: at the later of the two, as a parameter of that
/// method.
pub proof fn law_a_method_with_a_repeated_parameter_is_reported(d: Definition, k: int, p: int, q: int)
    requires
        d matches Definition::Impl(i) && 0 <= k < i.functions@.len() && 0 <= p < q < i.functions@[k].params@.len()
            && i.functions@[k].params@[p].name.name@ == i.functions@[k].params@[q].name.name@,
    ensures
        d matches Definition::Impl(i) && definition_dups(d).contains(ErrorView::DuplicateDefinition {
            name: cat4("parameter '"@, i.functions@[k].params@[q].name.name@, "' of "@, i.functions@[k].name.name@),
            span: i.functions@[k].params@[q].span,
        }),
{
    if let Definition::Impl(i) = d {
        let m = i.functions@[k];
        lemma_param_dup_reported(m.params@, m.name.name@, p, q);
        lemma_method_dups_hold(i.functions@, k, ErrorView::DuplicateDefinition {
            name: cat4("parameter '"@, m.params@[q].name.name@, "' of "@, m.name.name@),
            span: m.params@[q].span,
        });
    }
}

/// Reading an unread sequence of the innermost frame reports nothing and
/// records the read.
proof fn lemma_read_unread_sequence(s: LinearScopes, n: Seq<char>, at: Span)
    requires
        s.len() > 0,
        entry_index(s[s.len() - 1], n) matches Some(i) && s[s.len() - 1][i].1.holds_a_sequence
            && s[s.len() - 1][i].1.consumed_at is None && !s[s.len() - 1][i].1.outside_repeat,
    ensures
        read_name(s, n, at).0 == Seq::<ErrorView>::empty(),
        read_in(read_name(s, n, at).1, s.len() - 1, n) == Some(at),
{
    let d = s.len() - 1;
    let i = entry_index(s[d], n).unwrap();
    crate::sequence_linear::lemma_entry_index_bounds(s[d], n);
    let t = read_name(s, n, at).1;
    let b = s[d][i].1;
    let nf = s[d].update(i, (n, crate::sequence_linear::read_at_span(b, at)));
    assert(t == s.update(d, nf));
    crate::sequence_linear::lemma_entry_index_same_names(s[d], nf, n);
}

/// A `for` loop consumes the sequence it iterates: when its collection is
/// a sequence binding of the innermost frame that nothing has read, the
/// collection reads it there without a report, and the body is walked, as
/// a body that can run more than once, from that state.
pub proof fn law_a_for_loop_consumes_its_collection(e: Expr, s: LinearScopes, n: Seq<char>, at: Span, seqs: Seq<Span>)
    requires
        s.len() > 0,
        entry_index(s[s.len() - 1], n) matches Some(i) && s[s.len() - 1][i].1.holds_a_sequence
            && s[s.len() - 1][i].1.consumed_at is None && !s[s.len() - 1][i].1.outside_repeat,
        e matches Expr::ForExpr { collection, .. } && *collection matches Expr::Reference { path, span }
            && path@.len() == 1 && path@[0].name@ == n && span == at,
    ensures
        read_name(s, n, at).0 == Seq::<ErrorView>::empty(),
        read_in(read_name(s, n, at).1, s.len() - 1, n) == Some(at),
        e matches Expr::ForExpr { body, .. } && linear_walk(e, s, seqs) == linear_repeated(*body, read_name(s, n, at).1, seqs),
{
    lemma_read_unread_sequence(s, n, at);
    if let Expr::ForExpr { collection, body, .. } = e {
        let a = linear_walk(*collection, s, seqs);
        assert(a == read_name(s, n, at));
        let r = linear_repeated(*body, a.1, seqs);
        assert(a.0 + r.0 =~= r.0);
    }
}

/// A name that a method call's receiver or one of its arguments captures,
/// the call captures: a closure body that calls `list.push(item)` captures
/// `item` as well as `list`. The collected captures are these names, each
/// once.
pub proof fn law_a_method_call_captures_what_its_parts_capture(e: Expr, bound: Set<Seq<char>>, k: int, n: Seq<char>)
    requires
        e matches Expr::MethodCall { receiver, args, .. } && (free_refs(*receiver, bound).contains(n)
            || (0 <= k < args@.len() && free_refs(args@[k].1, bound).contains(n))),
    ensures
        free_refs(e, bound).contains(n),
        dedup_into(Seq::<Seq<char>>::empty(), free_refs(e, bound)).contains(n),
{
    if let Expr::MethodCall { receiver, args, .. } = e {
        if free_refs(*receiver, bound).contains(n) {
            lemma_contains_left(free_refs(*receiver, bound), free_refs_args(args@, bound), n);
        } else {
            lemma_args_capture(args@, bound, k, n);
            lemma_contains_right(free_refs(*receiver, bound), free_refs_args(args@, bound), n);
        }
    }
    lemma_dedup_into_unique(Seq::<Seq<char>>::empty(), free_refs(e, bound));
}

proof fn lemma_args_capture(args: Seq<(Option<crate::ast::Ident>, Expr)>, bound: Set<Seq<char>>, k: int, n: Seq<char>)
    requires
        0 <= k < args.len(),
        free_refs(args[k].1, bound).contains(n),
    ensures
        free_refs_args(args, bound).contains(n),
    decreases args.len(),
{
    if k == args.len() - 1 {
        lemma_contains_right(free_refs_args(args.drop_last(), bound), free_refs(args.last().1, bound), n);
    } else {
        assert(args.drop_last()[k] == args[k]);
        lemma_args_capture(args.drop_last(), bound, k, n);
        lemma_contains_left(free_refs_args(args.drop_last(), bound), free_refs(args.last().1, bound), n);
    }
}

/// A reference by one name that nothing around it binds, other than
/// `self`, is a capture.
pub proof fn law_an_unbound_reference_is_captured(e: Expr, bound: Set<Seq<char>>)
    requires
        e matches Expr::Reference { path, .. } && path@.len() == 1 && !bound.contains(path@[0].name@) && path@[0].name@ != "self"@,
    ensures
        e matches Expr::Reference { path, .. } && free_refs(e, bound).contains(path@[0].name@),
{
    if let Expr::Reference { path, .. } = e {
        assert(free_refs(e, bound)[0] == path@[0].name@);
    }
}

/// Two arguments that are both passed by `let` share what they reach
/// freely: a call whose arguments are all `let` reports no overlap.
pub proof fn law_shared_reads_do_not_conflict(paths: Seq<(ParamConvention, Seq<Seq<char>>)>)
    requires
        forall|i: int| 0 <= i < paths.len() ==> (#[trigger] paths[i]).0 == ParamConvention::Let,
    ensures
        all_overlaps(paths, paths.len() as int) == Seq::<Seq<Seq<char>>>::empty(),
{
    assert forall|i: int, m: int| 0 <= i < paths.len() && m <= paths.len() implies #[trigger] row_overlaps(paths, i, m) == Seq::<Seq<Seq<char>>>::empty() by {
        lemma_row_empty(paths, i, m);
    }
    lemma_all_empty(paths, paths.len() as int);
}

proof fn lemma_row_empty(paths: Seq<(ParamConvention, Seq<Seq<char>>)>, i: int, m: int)
    requires
        0 <= i < paths.len(),
        m <= paths.len(),
        forall|k: int| 0 <= k < paths.len() ==> (#[trigger] paths[k]).0 == ParamConvention::Let,
    ensures
        row_overlaps(paths, i, m) == Seq::<Seq<Seq<char>>>::empty(),
    decreases m - i,
{
    if m > i + 1 {
        lemma_row_empty(paths, i, m - 1);
        assert(paths[i].0 == ParamConvention::Let && paths[m - 1].0 == ParamConvention::Let);
        assert(row_overlaps(paths, i, m) =~= Seq::<Seq<Seq<char>>>::empty());
    }
}

proof fn lemma_all_empty(paths: Seq<(ParamConvention, Seq<Seq<char>>)>, n: int)
    requires
        n <= paths.len(),
        forall|i: int, m: int| 0 <= i < paths.len() && m <= paths.len() ==> #[trigger] row_overlaps(paths, i, m) == Seq::<Seq<Seq<char>>>::empty(),
    ensures
        all_overlaps(paths, n) == Seq::<Seq<Seq<char>>>::empty(),
    decreases n,
{
    if n > 0 {
        lemma_all_empty(paths, n - 1);
        assert(row_overlaps(paths, n - 1, paths.len() as int) == Seq::<Seq<Seq<char>>>::empty());
        assert(all_overlaps(paths, n) =~= Seq::<Seq<Seq<char>>>::empty());
    }
}

/// A type that is not left to inference, and is not a primitive, a struct
/// or an enum, is never a key: an array, an optional, a tuple, a
/// dictionary or a closure. A type this pass cannot compute is accepted.
pub proof fn law_compound_types_are_not_keys(st: SymbolTable, t: SType)
    ensures
        (t is Array || t is Optional || t is Tuple || t is Dictionary || t is Closure || t is Nil) ==> !key_type_ok(st, t),
        (t is Unknown || t is InferredEnum) ==> key_type_ok(st, t),
{
}

/// A free function that names two parameters alike is reported at the
/// later of the two.
pub proof fn law_a_function_with_a_repeated_parameter_is_reported(d: Definition, p: int, q: int)
    requires
        d matches Definition::Function(f) && 0 <= p < q < f.params@.len() && f.params@[p].name.name@ == f.params@[q].name.name@,
    ensures
        d matches Definition::Function(f) && definition_dups(d).contains(ErrorView::DuplicateDefinition {
            name: cat4("parameter '"@, f.params@[q].name.name@, "' of "@, f.name.name@),
            span: f.params@[q].span,
        }),
{
    if let Definition::Function(f) = d {
        lemma_param_dup_reported(f.params@, f.name.name@, p, q);
    }
}

proof fn lemma_signature_dups_hold(methods: Seq<crate::ast::FnSignature>, k: int, x: ErrorView)
    requires
        0 <= k < methods.len(),
        param_dups(methods[k].params@, methods[k].name.name@).contains(x),
    ensures
        signature_dups(methods).contains(x),
    decreases methods.len(),
{
    if k == methods.len() - 1 {
        lemma_contains_right(signature_dups(methods.drop_last()), param_dups(methods.last().params@, methods.last().name.name@), x);
    } else {
        assert(methods.drop_last()[k] == methods[k]);
        lemma_signature_dups_hold(methods.drop_last(), k, x);
        lemma_contains_left(signature_dups(methods.drop_last()), param_dups(methods.last().params@, methods.last().name.name@), x);
    }
}

/// A method that a trait declares with two parameters named alike is
/// reported at the later of the two.
pub proof fn law_a_trait_method_with_a_repeated_parameter_is_reported(d: Definition, k: int, p: int, q: int)
    requires
        d matches Definition::Trait(t) && 0 <= k < t.methods@.len() && 0 <= p < q < t.methods@[k].params@.len()
            && t.methods@[k].params@[p].name.name@ == t.methods@[k].params@[q].name.name@,
    ensures
        d matches Definition::Trait(t) && definition_dups(d).contains(ErrorView::DuplicateDefinition {
            name: cat4("parameter '"@, t.methods@[k].params@[q].name.name@, "' of "@, t.methods@[k].name.name@),
            span: t.methods@[k].params@[q].span,
        }),
{
    if let Definition::Trait(t) = d {
        let m = t.methods@[k];
        let x = ErrorView::DuplicateDefinition {
            name: cat4("parameter '"@, m.params@[q].name.name@, "' of "@, m.name.name@),
            span: m.params@[q].span,
        };
        lemma_param_dup_reported(m.params@, m.name.name@, p, q);
        lemma_signature_dups_hold(t.methods@, k, x);
        lemma_contains_right(crate::duplicate_names::field_dups(t.fields@, "' of trait "@, t.name.name@), signature_dups(t.methods@), x);
    }
}

proof fn lemma_struct_field_dup_reported(fields: Seq<crate::ast::StructField>, owner: Seq<char>, p: int, q: int)
    requires
        0 <= p < q < fields.len(),
        fields[p].name.name@ == fields[q].name.name@,
    ensures
        struct_field_dups(fields, owner).contains(ErrorView::DuplicateDefinition {
            name: cat4("field '"@, fields[q].name.name@, "' of struct "@, owner),
            span: fields[q].span,
        }),
    decreases fields.len(),
{
    let x = ErrorView::DuplicateDefinition {
        name: cat4("field '"@, fields[q].name.name@, "' of struct "@, owner),
        span: fields[q].span,
    };
    let earlier = fields.drop_last();
    let tail = if struct_field_names(earlier).contains(fields.last().name.name@) {
        seq![ErrorView::DuplicateDefinition {
            name: cat4("field '"@, fields.last().name.name@, "' of struct "@, owner),
            span: fields.last().span,
        }]
    } else {
        Seq::<ErrorView>::empty()
    };
    if q == fields.len() - 1 {
        assert(struct_field_names(earlier)[p] == fields[q].name.name@);
        assert(tail[0] == x);
        lemma_contains_right(struct_field_dups(earlier, owner), tail, x);
    } else {
        assert(earlier[q] == fields[q]);
        lemma_struct_field_dup_reported(earlier, owner, p, q);
        lemma_contains_left(struct_field_dups(earlier, owner), tail, x);
    }
}

/// A struct that names two fields alike is reported at the later of the
/// two.
pub proof fn law_a_struct_with_a_repeated_field_is_reported(d: Definition, p: int, q: int)
    requires
        d matches Definition::Struct(s) && 0 <= p < q < s.fields@.len() && s.fields@[p].name.name@ == s.fields@[q].name.name@,
    ensures
        d matches Definition::Struct(s) && definition_dups(d).contains(ErrorView::DuplicateDefinition {
            name: cat4("field '"@, s.fields@[q].name.name@, "' of struct "@, s.name.name@),
            span: s.fields@[q].span,
        }),
{
    if let Definition::Struct(s) = d {
        lemma_struct_field_dup_reported(s.fields@, s.name.name@, p, q);
    }
}

/// `c` is a part of `e` that is evaluated in the scope of `e` itself: a
/// receiver, an argument, an operand, a condition or branch, a scrutinee,
/// an element, a field or payload value, a dictionary entry or access, an
/// object whose field is read, the collection of a `for`, or the value of
/// a `let ... in`.
pub open spec fn same_scope_part(e: Expr, c: Expr) -> bool {
    match e {
        Expr::MethodCall { receiver, args, .. } => *receiver == c || exists|k: int| 0 <= k < args@.len() && #[trigger] args@[k].1 == c,
        Expr::Invocation { args, .. } => exists|k: int| 0 <= k < args@.len() && #[trigger] args@[k].1 == c,
        Expr::BinaryOp { left, right, .. } => *left == c || *right == c,
        Expr::UnaryOp { operand, .. } => *operand == c,
        Expr::Group { expr, .. } => *expr == c,
        Expr::FieldAccess { object, .. } => *object == c,
        Expr::DictAccess { dict, key, .. } => *dict == c || *key == c,
        Expr::IfExpr { condition, then_branch, else_branch, .. } => *condition == c || *then_branch == c
            || (else_branch matches Some(x) && *x == c),
        Expr::MatchExpr { scrutinee, .. } => *scrutinee == c,
        Expr::ForExpr { collection, .. } => *collection == c,
        Expr::LetExpr { value, .. } => *value == c,
        Expr::Array { elements, .. } => exists|k: int| 0 <= k < elements@.len() && #[trigger] elements@[k] == c,
        Expr::Tuple { fields, .. } => exists|k: int| 0 <= k < fields@.len() && #[trigger] fields@[k].1 == c,
        Expr::EnumInstantiation { data, .. } => exists|k: int| 0 <= k < data@.len() && #[trigger] data@[k].1 == c,
        Expr::DictLiteral { entries, .. } => exists|k: int| 0 <= k < entries@.len() && (#[trigger] entries@[k].0 == c || entries@[k].1 == c),
        _ => false,
    }
}

proof fn lemma_list_capture(es: Seq<Expr>, bound: Set<Seq<char>>, k: int, n: Seq<char>)
    requires
        0 <= k < es.len(),
        free_refs(es[k], bound).contains(n),
    ensures
        free_refs_list(es, bound).contains(n),
    decreases es.len(),
{
    if k == es.len() - 1 {
        lemma_contains_right(free_refs_list(es.drop_last(), bound), free_refs(es.last(), bound), n);
    } else {
        assert(es.drop_last()[k] == es[k]);
        lemma_list_capture(es.drop_last(), bound, k, n);
        lemma_contains_left(free_refs_list(es.drop_last(), bound), free_refs(es.last(), bound), n);
    }
}

proof fn lemma_labeled_capture(fs: Seq<(crate::ast::Ident, Expr)>, bound: Set<Seq<char>>, k: int, n: Seq<char>)
    requires
        0 <= k < fs.len(),
        free_refs(fs[k].1, bound).contains(n),
    ensures
        free_refs_labeled(fs, bound).contains(n),
    decreases fs.len(),
{
    if k == fs.len() - 1 {
        lemma_contains_right(free_refs_labeled(fs.drop_last(), bound), free_refs(fs.last().1, bound), n);
    } else {
        assert(fs.drop_last()[k] == fs[k]);
        lemma_labeled_capture(fs.drop_last(), bound, k, n);
        lemma_contains_left(free_refs_labeled(fs.drop_last(), bound), free_refs(fs.last().1, bound), n);
    }
}

proof fn lemma_entries_capture(es: Seq<(Expr, Expr)>, bound: Set<Seq<char>>, k: int, n: Seq<char>)
    requires
        0 <= k < es.len(),
        free_refs(es[k].0, bound).contains(n) || free_refs(es[k].1, bound).contains(n),
    ensures
        free_refs_entries(es, bound).contains(n),
    decreases es.len(),
{
    let front = free_refs_entries(es.drop_last(), bound);
    let key = free_refs(es.last().0, bound);
    let value = free_refs(es.last().1, bound);
    if k == es.len() - 1 {
        if key.contains(n) {
            lemma_contains_right(front, key, n);
            lemma_contains_left(front + key, value, n);
        } else {
            lemma_contains_right(front + key, value, n);
        }
    } else {
        assert(es.drop_last()[k] == es[k]);
        lemma_entries_capture(es.drop_last(), bound, k, n);
        lemma_contains_left(front, key, n);
        lemma_contains_left(front + key, value, n);
    }
}

/// A name that a part of an expression captures, where the part is
/// evaluated in the expression's own scope, the expression captures too:
/// no argument, operand, branch, element or entry is left out of the
/// captures of a closure body.
pub proof fn law_an_expression_captures_what_its_parts_capture(e: Expr, c: Expr, bound: Set<Seq<char>>, n: Seq<char>)
    requires
        same_scope_part(e, c),
        free_refs(c, bound).contains(n),
    ensures
        free_refs(e, bound).contains(n),
{
    match e {
        Expr::MethodCall { receiver, args, .. } => {
            if *receiver == c {
                lemma_contains_left(free_refs(*receiver, bound), free_refs_args(args@, bound), n);
            } else {
                let k = choose|k: int| 0 <= k < args@.len() && #[trigger] args@[k].1 == c;
                lemma_args_capture(args@, bound, k, n);
                lemma_contains_right(free_refs(*receiver, bound), free_refs_args(args@, bound), n);
            }
        },
        Expr::Invocation { path, args, .. } => {
            let k = choose|k: int| 0 <= k < args@.len() && #[trigger] args@[k].1 == c;
            lemma_args_capture(args@, bound, k, n);
            lemma_contains_right(crate::free_vars::path_capture(path@, bound), free_refs_args(args@, bound), n);
        },
        Expr::BinaryOp { left, right, .. } => {
            if *left == c {
                lemma_contains_left(free_refs(*left, bound), free_refs(*right, bound), n);
            } else {
                lemma_contains_right(free_refs(*left, bound), free_refs(*right, bound), n);
            }
        },
        Expr::DictAccess { dict, key, .. } => {
            if *dict == c {
                lemma_contains_left(free_refs(*dict, bound), free_refs(*key, bound), n);
            } else {
                lemma_contains_right(free_refs(*dict, bound), free_refs(*key, bound), n);
            }
        },
        Expr::IfExpr { condition, then_branch, else_branch, .. } => {
            let a = free_refs(*condition, bound);
            let b = free_refs(*then_branch, bound);
            let rest = match else_branch {
                Some(x) => free_refs(*x, bound),
                None => seq![],
            };
            if *condition == c {
                lemma_contains_left(a, b, n);
                lemma_contains_left(a + b, rest, n);
            } else if *then_branch == c {
                lemma_contains_right(a, b, n);
                lemma_contains_left(a + b, rest, n);
            } else {
                lemma_contains_right(a + b, rest, n);
            }
        },
        Expr::MatchExpr { scrutinee, arms, .. } => {
            lemma_contains_left(free_refs(*scrutinee, bound), crate::free_vars::free_refs_arms(arms@, bound), n);
        },
        Expr::ForExpr { var, collection, body, .. } => {
            lemma_contains_left(free_refs(*collection, bound), free_refs(*body, bound.insert(var.name@)), n);
        },
        Expr::LetExpr { pattern, value, body, .. } => {
            lemma_contains_left(free_refs(*value, bound), free_refs(*body,
                bound.union(crate::patterns::ident_names(crate::patterns::pattern_names(pattern)).to_set())), n);
        },
        Expr::Array { elements, .. } => {
            let k = choose|k: int| 0 <= k < elements@.len() && #[trigger] elements@[k] == c;
            lemma_list_capture(elements@, bound, k, n);
        },
        Expr::Tuple { fields, .. } => {
            let k = choose|k: int| 0 <= k < fields@.len() && #[trigger] fields@[k].1 == c;
            lemma_labeled_capture(fields@, bound, k, n);
        },
        Expr::EnumInstantiation { data, .. } => {
            let k = choose|k: int| 0 <= k < data@.len() && #[trigger] data@[k].1 == c;
            lemma_labeled_capture(data@, bound, k, n);
        },
        Expr::DictLiteral { entries, .. } => {
            let k = choose|k: int| 0 <= k < entries@.len() && (#[trigger] entries@[k].0 == c || entries@[k].1 == c);
            lemma_entries_capture(entries@, bound, k, n);
        },
        _ => {},
    }
}

/// The receiver of a method call is walked first: when it names an unread
/// sequence of the innermost frame, the call reads it there without a
/// report, and the arguments are walked from that state.
pub proof fn law_a_method_call_reads_its_receiver_first(e: Expr, s: LinearScopes, n: Seq<char>, at: Span, seqs: Seq<Span>)
    requires
        s.len() > 0,
        entry_index(s[s.len() - 1], n) matches Some(i) && s[s.len() - 1][i].1.holds_a_sequence
            && s[s.len() - 1][i].1.consumed_at is None && !s[s.len() - 1][i].1.outside_repeat,
        e matches Expr::MethodCall { receiver, .. } && *receiver matches Expr::Reference { path, span }
            && path@.len() == 1 && path@[0].name@ == n && span == at,
    ensures
        read_in(read_name(s, n, at).1, s.len() - 1, n) == Some(at),
        e matches Expr::MethodCall { args, .. } && linear_walk(e, s, seqs) == linear_args(args@, read_name(s, n, at).1, seqs),
{
    lemma_read_unread_sequence(s, n, at);
    if let Expr::MethodCall { receiver, args, .. } = e {
        assert(linear_walk(*receiver, s, seqs) == read_name(s, n, at));
        let r = linear_args(args@, read_name(s, n, at).1, seqs);
        assert(read_name(s, n, at).0 + r.0 =~= r.0);
    }
}

/// The left operand of an arithmetic or comparison operator is walked
/// first: when it names an unread sequence of the innermost frame, it is
/// read there without a report, and the right operand is walked from that
/// state.
pub proof fn law_an_operator_reads_its_left_operand_first(e: Expr, s: LinearScopes, n: Seq<char>, at: Span, seqs: Seq<Span>)
    requires
        s.len() > 0,
        entry_index(s[s.len() - 1], n) matches Some(i) && s[s.len() - 1][i].1.holds_a_sequence
            && s[s.len() - 1][i].1.consumed_at is None && !s[s.len() - 1][i].1.outside_repeat,
        match e {
            Expr::BinaryOp { op, .. } => op != crate::ast::BinaryOperator::And && op != crate::ast::BinaryOperator::Or,
            _ => false,
        },
        e matches Expr::BinaryOp { left, .. } && *left matches Expr::Reference { path, span } && path@.len() == 1 && path@[0].name@ == n && span == at,
    ensures
        read_in(read_name(s, n, at).1, s.len() - 1, n) == Some(at),
        e matches Expr::BinaryOp { right, .. } && linear_walk(e, s, seqs) == linear_walk(*right, read_name(s, n, at).1, seqs),
{
    lemma_read_unread_sequence(s, n, at);
    if let Expr::BinaryOp { left, right, .. } = e {
        assert(linear_walk(*left, s, seqs) == read_name(s, n, at));
        let r = linear_walk(*right, read_name(s, n, at).1, seqs);
        assert(read_name(s, n, at).0 + r.0 =~= r.0);
    }
}

/// Each sequence binding of a closing frame that nothing read is reported
/// as not consumed, at the place it was bound.
pub proof fn law_an_unread_sequence_is_reported(f: Seq<(Seq<char>, LinearBinding)>, k: int)
    requires
        0 <= k < f.len(),
        f[k].1.holds_a_sequence,
        f[k].1.consumed_at is None,
    ensures
        unconsumed(f).contains(ErrorView::SeqNotConsumed { span: f[k].1.origin }),
    decreases f.len(),
{
    let x = ErrorView::SeqNotConsumed { span: f[k].1.origin };
    let tail = if f.last().1.holds_a_sequence && f.last().1.consumed_at is None {
        seq![ErrorView::SeqNotConsumed { span: f.last().1.origin }]
    } else {
        Seq::<ErrorView>::empty()
    };
    if k == f.len() - 1 {
        assert(tail[0] == x);
        lemma_contains_right(unconsumed(f.drop_last()), tail, x);
    } else {
        assert(f.drop_last()[k] == f[k]);
        law_an_unread_sequence_is_reported(f.drop_last(), k);
        lemma_contains_left(unconsumed(f.drop_last()), tail, x);
    }
}

} // verus!

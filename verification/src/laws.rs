//! Properties that hold of the checks for every input.

use vstd::prelude::*;
use crate::ast::{Expr, FieldDef, Ident, MatchArm, Pattern, PrimitiveType, Span, StructField};
use crate::call_shape::{call_params, call_shape_error, fill_outcome, given_labels, repeated_label, ParamView};
use crate::control_flow::{arm_report, arms_outcome, match_reports, missing_variants, variant_named};
use crate::duplicate_names::{struct_field_dups, struct_field_names};
use crate::equatable::{closure_in_fields, closure_reachable, closure_via_name, closure_via_names, inner_stypes, named_fields, type_holds_closure};
use crate::error::ErrorView;
use crate::escape::{captures_of_name, reach_within, transitive_captures};
use crate::exclusivity::{first_occurrences, overlap_of};
use crate::key_types::{key_check, key_type_ok, key_types_check, non_generic_types};
use crate::symbols::extends;
use crate::sem_type::{sem_of, SType};
use crate::sequence_linear::{
    close_frame, entry_index, innermost_binding, innermost_from, lemma_entry_index_bounds, lemma_entry_index_same_names,
    lemma_read_from_frames, linear_repeated, linear_walk, mark_all, mark_frame, read_from, read_name, unconsumed, LinearScopes,
    read_at_span, with_repeat, first_read, merge_entry, merge_frame, merge_states, read_in, some_unread,
};
use crate::sequence_placement::param_seq_reports;
use crate::method_lookup::{chain_search, lemma_chain_search, parents_search, trait_declares};
use crate::generic_bounds::{bound_reports, constraint_trait, satisfies_bound};
use crate::overload_choice::{defaults_fired, in_pool, most_specific, most_specific_prefix, needs_lenient, overload_fits};
use crate::analyzer::SemanticAnalyzer;
use crate::function_calls::{function_call_consumed, function_call_reports, generic_arity_reports, last_separator, simple_name_of, ArgumentFacts};
use crate::struct_checks::positional_reports;
use crate::text::has_path_separator;
use crate::sem_type::SemType;
use crate::ast::ParamConvention;
use crate::ast::GenericConstraint;
use crate::symbols::FunctionInfo;
use crate::modules::trait_named;
use crate::struct_checks::{arg_labels, def_generic_names, field_arg_reports, field_value_fits, first_field_named, missing_field_reports, named_args, required, required_field_names, struct_field_reports};
use crate::sem_type::display_of;
use crate::symbols::{struct_named, SymbolTable};
use crate::text::views;
use crate::free_vars::{arm_names, closure_param_names, dedup_into, free_refs, free_refs_args, free_refs_arms, free_refs_entries, free_refs_labeled, free_refs_list, free_refs_statements, lemma_dedup_into_unique, let_names, path_capture};
use crate::patterns::{ident_names, pattern_names};
use crate::modules::join_path;
use crate::qualified_types::{first_separator, lemma_first_separator_bounds, split_parts};
use crate::ast::BlockStatement;
use crate::type_names::mentions_any;
use crate::value_paths::{lemma_statement_of_file_functional, same_statement_of_file, file_types, lemma_definition_fixed, lemma_file_types_kept, lemma_rewrite_fixed, rewrites, rewrites_statement_of_file, TypeScope};
use crate::ast::Statement;
use crate::block_scope::{binding_capture_views, block_closed, block_opened, consumed_after_block, entered_depth, introduced_in_block, left_depth, lemma_let_views_names, let_views, scope_views, BlockScope, MAX_EXPR_DEPTH};
use crate::analyzer::let_binding_names;

verus! {

/// An `EnumInstantiation` whose name is a type, a trait or a path stays an
/// enum instantiation of the same enum and variant: the enum wins over a
/// binding of the same name.
pub proof fn law_type_name_stays_an_enum_instantiation(old: Expr, new: Expr, t: TypeScope)
    requires
        rewrites(old, new, t),
        old matches Expr::EnumInstantiation { enum_name, .. } && !t.names_value(enum_name.name@),
    ensures
        new matches Expr::EnumInstantiation { enum_name: n2, variant: v2, .. } && (old matches Expr::EnumInstantiation {
            enum_name: n1,
            variant: v1,
            ..
        } && n1 == n2 && v1 == v2),
{
}

/// `Name.method(label: value)` on a value `Name` becomes a method call, and
/// `Name.field` becomes a path.
pub proof fn law_value_name_becomes_a_value_expression(old: Expr, new: Expr, t: TypeScope)
    requires
        rewrites(old, new, t),
        old matches Expr::EnumInstantiation { enum_name, .. } && t.names_value(enum_name.name@),
    ensures
        old matches Expr::EnumInstantiation { data, .. } && (data@.len() > 0 ==> new is MethodCall) && (data@.len() == 0
            ==> new is Reference),
{
}

/// Two places overlap, or not, whichever is named first.
pub proof fn law_overlap_is_symmetric(a: Seq<Seq<char>>, b: Seq<Seq<char>>)
    ensures
        overlap_of(a, b) == overlap_of(b, a),
{
    if a.len() == b.len() {
        if a.take(b.len() as int) == b {
            assert(a.take(a.len() as int) =~= a);
            assert(b.take(b.len() as int) =~= b);
        } else {
            assert(a.take(a.len() as int) =~= a);
            assert(b.take(b.len() as int) =~= b);
        }
    }
}

/// Each shared place of a call is reported once.
pub proof fn law_each_overlap_reported_once<A>(s: Seq<A>)
    ensures
        first_occurrences(Seq::<A>::empty(), s).no_duplicates(),
{
    lemma_first_occurrences_distinct(Seq::<A>::empty(), s);
}

proof fn lemma_first_occurrences_distinct<A>(acc: Seq<A>, s: Seq<A>)
    requires
        acc.no_duplicates(),
    ensures
        first_occurrences(acc, s).no_duplicates(),
    decreases s.len(),
{
    if s.len() > 0 {
        lemma_first_occurrences_distinct(acc, s.drop_last());
        let prev = first_occurrences(acc, s.drop_last());
        if !prev.contains(s.last()) {
            assert forall|i: int, j: int| 0 <= i < j < prev.push(s.last()).len() implies prev.push(s.last())[i]
                != prev.push(s.last())[j] by {
                if j == prev.len() {
                    assert(prev.push(s.last())[i] == prev[i]);
                }
            }
        }
    }
}

/// A struct whose fields have distinct names reports no duplicate.
pub proof fn law_distinct_fields_report_nothing(fields: Seq<StructField>, owner: Seq<char>)
    requires
        struct_field_names(fields).no_duplicates(),
    ensures
        struct_field_dups(fields, owner) == Seq::<ErrorView>::empty(),
    decreases fields.len(),
{
    if fields.len() > 0 {
        let names = struct_field_names(fields);
        assert(struct_field_names(fields.drop_last()) =~= names.drop_last());
        assert(names.last() == fields.last().name.name@);
        assert forall|i: int, j: int| 0 <= i < j < names.drop_last().len() implies names.drop_last()[i] != names.drop_last()[j] by {
            assert(names[i] != names[j]);
        }
        law_distinct_fields_report_nothing(fields.drop_last(), owner);
        assert(!names.drop_last().contains(names.last())) by {
            if names.drop_last().contains(names.last()) {
                let k = choose|k: int| 0 <= k < names.drop_last().len() && names.drop_last()[k] == names.last();
                assert(names[k] == names[names.len() - 1]);
            }
        }
    }
}

/// A type that holds a closure anywhere is not equatable.
pub proof fn law_a_closure_is_not_equatable(st: SymbolTable, t: SType)
    requires
        type_holds_closure(t),
    ensures
        closure_reachable(st, t, seq![]),
{
}

/// A struct with a field whose type holds a closure is not equatable:
/// equality reaches every field.
pub proof fn law_a_struct_holding_a_closure_is_not_equatable(st: SymbolTable, n: Seq<char>, i: int)
    requires
        struct_named(st.structs@, n) is Some,
        0 <= i < struct_named(st.structs@, n).unwrap().fields@.len(),
        type_holds_closure(sem_of(struct_named(st.structs@, n).unwrap().fields@[i].ty)),
    ensures
        closure_reachable(st, SType::Named(n), seq![]),
{
    let fields = struct_named(st.structs@, n).unwrap().fields@;
    assert(named_fields(st, n) == Some(fields));
    lemma_closure_in_some_field(st, fields, i, seq![n]);
    assert(Seq::<Seq<char>>::empty().push(n) =~= seq![n]);
    let ts = inner_stypes(SType::Named(n));
    assert(ts =~= seq![SType::Named(n)]);
    assert(ts.drop_last() =~= Seq::<SType>::empty());
    assert(closure_via_name(st, SType::Named(n), seq![]));
    assert(closure_via_names(st, ts, seq![]));
    assert(closure_reachable(st, SType::Named(n), seq![]));
}

proof fn lemma_closure_in_some_field(st: SymbolTable, fs: Seq<FieldDef>, i: int, seen: Seq<Seq<char>>)
    requires
        0 <= i < fs.len(),
        type_holds_closure(sem_of(fs[i].ty)),
    ensures
        closure_in_fields(st, fs, seen),
    decreases fs.len(),
{
    if i < fs.len() - 1 {
        assert(fs.drop_last()[i] == fs[i]);
        lemma_closure_in_some_field(st, fs.drop_last(), i, seen);
    } else {
        assert(fs.last() == fs[i]);
        assert(closure_reachable(st, sem_of(fs.last().ty), seen));
    }
}

/// A float is not a key type, and neither is a struct with a float field
/// that does not mention one of its type parameters: `NaN != NaN`.
pub proof fn law_a_float_field_is_not_a_key(st: SymbolTable, n: Seq<char>, i: int)
    requires
        struct_named(st.structs@, n) is Some,
        0 <= i < struct_named(st.structs@, n).unwrap().fields@.len(),
        sem_of(struct_named(st.structs@, n).unwrap().fields@[i].ty) == SType::Primitive(PrimitiveType::F32)
            || sem_of(struct_named(st.structs@, n).unwrap().fields@[i].ty) == SType::Primitive(PrimitiveType::F64),
        !mentions_any(struct_named(st.structs@, n).unwrap().fields@[i].ty, views(struct_named(st.structs@, n).unwrap().generics@)),
    ensures
        !key_type_ok(st, SType::Named(n)),
{
    let s = struct_named(st.structs@, n).unwrap();
    let gens = views(s.generics@);
    let ts = non_generic_types(s.fields@, gens);
    let j = lemma_non_generic_holds(s.fields@, gens, i);
    assert(Seq::<Seq<char>>::empty().push(n) =~= seq![n]);
    lemma_key_types_fail_at(st, ts, seq![n], j);
}

proof fn lemma_non_generic_holds(fs: Seq<FieldDef>, gens: Seq<Seq<char>>, i: int) -> (j: int)
    requires
        0 <= i < fs.len(),
        !mentions_any(fs[i].ty, gens),
    ensures
        0 <= j < non_generic_types(fs, gens).len(),
        non_generic_types(fs, gens)[j] == sem_of(fs[i].ty),
    decreases fs.len(),
{
    if i == fs.len() - 1 {
        non_generic_types(fs.drop_last(), gens).len() as int
    } else {
        let j = lemma_non_generic_holds(fs.drop_last(), gens, i);
        j
    }
}

proof fn lemma_key_types_fail_at(st: SymbolTable, ts: Seq<SType>, seen: Seq<Seq<char>>, j: int)
    requires
        0 <= j < ts.len(),
        ts[j] == SType::Primitive(PrimitiveType::F32) || ts[j] == SType::Primitive(PrimitiveType::F64),
    ensures
        !key_types_check(st, ts, seen).0,
    decreases j,
{
    let r = key_check(st, ts[0], seen);
    if j > 0 && r.0 && extends(r.1, seen) {
        assert(ts.drop_first()[j - 1] == ts[j]);
        lemma_key_types_fail_at(st, ts.drop_first(), r.1, j - 1);
    }
}

/// The names that a sink argument consumes include the names given, and
/// the captures of each closure among them, transitively.
pub proof fn law_transitive_captures_are_closed(cb: Seq<(String, Vec<String>)>, init: Set<Seq<char>>, n: Seq<char>, c: Seq<char>)
    requires
        init.contains(n) || transitive_captures(cb, init).contains(n),
        captures_of_name(cb, n).contains(c),
    ensures
        transitive_captures(cb, init).contains(n),
        transitive_captures(cb, init).contains(c),
{
    if init.contains(n) {
        assert(reach_within(cb, init, 0).contains(n));
    }
    let k = choose|k: nat| #[trigger] reach_within(cb, init, k).contains(n);
    assert(reach_within(cb, init, k + 1).contains(c));
}

/// A `_` arm makes a match exhaustive: no arm list with one is reported as
/// non-exhaustive.
pub proof fn law_wildcard_arm_makes_a_match_exhaustive(arms: Seq<MatchArm>, ty: Seq<char>, variants: Seq<(Seq<char>, usize, Span)>, span: Span, w: int)
    requires
        0 <= w < arms.len(),
        arms[w].pattern is Wildcard,
    ensures
        forall|j: int| 0 <= j < match_reports(arms, ty, variants, span).len()
            ==> !(#[trigger] match_reports(arms, ty, variants, span)[j] is NonExhaustiveMatch),
{
    lemma_wildcard_seen(arms, ty, variants, w);
    lemma_outcome_reports(arms, ty, variants);
}

proof fn lemma_wildcard_seen(arms: Seq<MatchArm>, ty: Seq<char>, variants: Seq<(Seq<char>, usize, Span)>, w: int)
    requires
        0 <= w < arms.len(),
        arms[w].pattern is Wildcard,
    ensures
        arms_outcome(arms, ty, variants).1,
    decreases arms.len(),
{
    if w < arms.len() - 1 {
        lemma_wildcard_seen(arms.drop_last(), ty, variants, w);
    }
}

proof fn lemma_outcome_reports(arms: Seq<MatchArm>, ty: Seq<char>, variants: Seq<(Seq<char>, usize, Span)>)
    ensures
        forall|j: int| 0 <= j < arms_outcome(arms, ty, variants).2.len()
            ==> !(#[trigger] arms_outcome(arms, ty, variants).2[j] is NonExhaustiveMatch),
    decreases arms.len(),
{
    if arms.len() > 0 {
        lemma_outcome_reports(arms.drop_last(), ty, variants);
        let before = arms_outcome(arms.drop_last(), ty, variants);
        let arm = arms.last();
        if !before.1 {
            if let Pattern::Variant { name, bindings } = arm.pattern {
                if !before.0.contains(name.name@) {
                    let added = arm_report(ty, name.name@, bindings.len(), arm.span, variants);
                    assert forall|j: int| 0 <= j < (before.2 + added).len() implies !(#[trigger] (before.2 + added)[j] is NonExhaustiveMatch) by {
                        if j >= before.2.len() {
                            assert((before.2 + added)[j] == added[j - before.2.len()]);
                        }
                    }
                }
            }
        }
    }
}

/// A match whose arms name each variant once, in any order given by the
/// variants themselves, each with as many bindings as the variant carries,
/// reports nothing.
pub proof fn law_complete_match_reports_nothing(arms: Seq<MatchArm>, ty: Seq<char>, variants: Seq<(Seq<char>, usize, Span)>, span: Span)
    requires
        arms.len() == variants.len(),
        forall|i: int| 0 <= i < arms.len() ==> ((#[trigger] arms[i]).pattern matches Pattern::Variant { name, bindings }
            && name.name@ == variants[i].0 && bindings.len() == variants[i].1),
        forall|i: int, j: int| 0 <= i < j < variants.len() ==> variants[i].0 != variants[j].0,
    ensures
        match_reports(arms, ty, variants, span) == Seq::<ErrorView>::empty(),
{
    lemma_complete_prefix(arms, ty, variants, arms.len() as int);
    assert(arms.take(arms.len() as int) =~= arms);
    let covered = variants.map_values(|v: (Seq<char>, usize, Span)| v.0);
    assert(variants.take(variants.len() as int) =~= variants);
    assert forall|i: int| 0 <= i < variants.len() implies covered.contains(#[trigger] variants[i].0) by {
        assert(covered[i] == variants[i].0);
    }
    lemma_nothing_missing(variants, covered);
}

proof fn lemma_complete_prefix(arms: Seq<MatchArm>, ty: Seq<char>, variants: Seq<(Seq<char>, usize, Span)>, k: int)
    requires
        0 <= k <= arms.len(),
        arms.len() == variants.len(),
        forall|i: int| 0 <= i < arms.len() ==> ((#[trigger] arms[i]).pattern matches Pattern::Variant { name, bindings }
            && name.name@ == variants[i].0 && bindings.len() == variants[i].1),
        forall|i: int, j: int| 0 <= i < j < variants.len() ==> variants[i].0 != variants[j].0,
    ensures
        arms_outcome(arms.take(k), ty, variants) == (
            variants.take(k).map_values(|v: (Seq<char>, usize, Span)| v.0),
            false,
            Seq::<ErrorView>::empty(),
        ),
    decreases k,
{
    if k == 0 {
        assert(arms.take(0) =~= Seq::<MatchArm>::empty());
        assert(variants.take(0).map_values(|v: (Seq<char>, usize, Span)| v.0) =~= Seq::<Seq<char>>::empty());
    } else {
        lemma_complete_prefix(arms, ty, variants, k - 1);
        assert(arms.take(k).drop_last() =~= arms.take(k - 1));
        assert(arms.take(k).last() == arms[k - 1]);
        let covered = variants.take(k - 1).map_values(|v: (Seq<char>, usize, Span)| v.0);
        assert(!covered.contains(variants[k - 1].0)) by {
            if covered.contains(variants[k - 1].0) {
                let q = choose|q: int| 0 <= q < covered.len() && covered[q] == variants[k - 1].0;
                assert(covered[q] == variants[q].0);
            }
        }
        lemma_variant_named_at(variants, k - 1);
        if let Pattern::Variant { name, bindings } = arms[k - 1].pattern {
            assert(arm_report(ty, name.name@, bindings.len(), arms[k - 1].span, variants) =~= Seq::<ErrorView>::empty());
        }
        assert(covered.push(variants[k - 1].0) =~= variants.take(k).map_values(|v: (Seq<char>, usize, Span)| v.0));
        assert(Seq::<ErrorView>::empty() + Seq::<ErrorView>::empty() =~= Seq::<ErrorView>::empty());
    }
}

proof fn lemma_variant_named_at(variants: Seq<(Seq<char>, usize, Span)>, k: int)
    requires
        0 <= k < variants.len(),
        forall|i: int, j: int| 0 <= i < j < variants.len() ==> variants[i].0 != variants[j].0,
    ensures
        variant_named(variants, variants[k].0) == Some(variants[k]),
    decreases k,
{
    if k > 0 {
        let rest = variants.drop_first();
        assert forall|i: int, j: int| 0 <= i < j < rest.len() implies rest[i].0 != rest[j].0 by {
            assert(rest[i] == variants[i + 1] && rest[j] == variants[j + 1]);
        }
        assert(rest[k - 1] == variants[k]);
        lemma_variant_named_at(rest, k - 1);
        assert(variants[0].0 != variants[k].0);
    }
}

proof fn lemma_nothing_missing(variants: Seq<(Seq<char>, usize, Span)>, covered: Seq<Seq<char>>)
    requires
        forall|i: int| 0 <= i < variants.len() ==> covered.contains(#[trigger] variants[i].0),
    ensures
        missing_variants(variants, covered) == Seq::<Seq<char>>::empty(),
    decreases variants.len(),
{
    if variants.len() > 0 {
        assert forall|i: int| 0 <= i < variants.drop_last().len() implies covered.contains(#[trigger] variants.drop_last()[i].0) by {
            assert(variants.drop_last()[i] == variants[i]);
        }
        lemma_nothing_missing(variants.drop_last(), covered);
        assert(covered.contains(variants[variants.len() - 1].0));
        assert(variants.last() == variants[variants.len() - 1]);
    }
}

/// A call that gives every parameter but `self` by position, without
/// labels, has the right shape.
pub proof fn law_positional_call_is_accepted(callee: Seq<char>, name: Seq<char>, params: Seq<ParamView>, args: Seq<(Option<Ident>, Expr)>, span: Span)
    requires
        forall|i: int| 0 <= i < args.len() ==> (#[trigger] args[i]).0 is None,
        args.len() == call_params(params).len(),
    ensures
        call_shape_error(callee, name, params, args, span) is None,
{
    let ns = call_params(params);
    lemma_no_labels(args);
    lemma_positional_fill(ns, args, args.len() as int, callee, name, span);
    assert(args.take(args.len() as int) =~= args);
    let filled = Seq::new(args.len(), |i: int| i);
    assert forall|i: int| 0 <= i < ns.len() implies filled.contains(i) by {
        assert(filled[i] == i);
    }
}

proof fn lemma_no_labels(args: Seq<(Option<Ident>, Expr)>)
    requires
        forall|i: int| 0 <= i < args.len() ==> (#[trigger] args[i]).0 is None,
    ensures
        repeated_label(args) is None,
        given_labels(args) == Seq::<Seq<char>>::empty(),
    decreases args.len(),
{
    if args.len() > 0 {
        assert forall|i: int| 0 <= i < args.drop_last().len() implies (#[trigger] args.drop_last()[i]).0 is None by {
            assert(args.drop_last()[i] == args[i]);
        }
        lemma_no_labels(args.drop_last());
        assert(args.last() == args[args.len() - 1]);
        assert(given_labels(args) =~= Seq::<Seq<char>>::empty());
    }
}

proof fn lemma_positional_fill(
    ns: Seq<(Seq<char>, Option<Seq<char>>, bool)>,
    args: Seq<(Option<Ident>, Expr)>,
    k: int,
    callee: Seq<char>,
    name: Seq<char>,
    span: Span,
)
    requires
        0 <= k <= args.len(),
        args.len() <= ns.len(),
        forall|i: int| 0 <= i < args.len() ==> (#[trigger] args[i]).0 is None,
    ensures
        fill_outcome(ns, args.take(k), callee, name, args.len(), span) == Ok::<Seq<int>, ErrorView>(Seq::new(k as nat, |i: int| i)),
    decreases k,
{
    if k > 0 {
        lemma_positional_fill(ns, args, k - 1, callee, name, span);
        assert(args.take(k).drop_last() =~= args.take(k - 1));
        assert(args.take(k).last() == args[k - 1]);
        let prev = Seq::new((k - 1) as nat, |i: int| i);
        assert(!prev.contains(k - 1)) by {
            if prev.contains(k - 1) {
                let q = choose|q: int| 0 <= q < prev.len() && prev[q] == k - 1;
                assert(prev[q] == q);
            }
        }
        assert(prev.push(k - 1) =~= Seq::new(k as nat, |i: int| i));
    } else {
        assert(args.take(0) =~= Seq::<(Option<Ident>, Expr)>::empty());
        assert(Seq::new(0, |i: int| i) =~= Seq::<int>::empty());
    }
}

/// A `sink` parameter may hold a sequence: parameters that are all `sink`
/// report nothing.
pub proof fn law_sink_parameters_may_hold_sequences(params: Seq<crate::ast::FnParam>)
    requires
        forall|i: int| 0 <= i < params.len() ==> (#[trigger] params[i]).convention == crate::ast::ParamConvention::Sink,
    ensures
        param_seq_reports(params) == Seq::<ErrorView>::empty(),
    decreases params.len(),
{
    if params.len() > 0 {
        assert forall|i: int| 0 <= i < params.drop_last().len() implies (#[trigger] params.drop_last()[i]).convention
            == crate::ast::ParamConvention::Sink by {
            assert(params.drop_last()[i] == params[i]);
        }
        law_sink_parameters_may_hold_sequences(params.drop_last());
        assert(params.last() == params[params.len() - 1]);
    }
}

/// A read of `n` that finds an unread sequence records it, and a second
/// read from depth `d` of the state it leaves is a second use.
proof fn lemma_read_twice(s: LinearScopes, d: int, n: Seq<char>, first: Span, second: Span)
    requires
        innermost_from(s, d, n) matches Some(b) && b.holds_a_sequence && b.consumed_at is None && !b.outside_repeat,
    ensures
        read_from(s, d, n, first).0 == Seq::<ErrorView>::empty(),
        read_from(read_from(s, d, n, first).1, d, n, second).0 == seq![ErrorView::SeqUsedTwice { name: n, span: second }],
    decreases d + 1,
{
    let t = read_from(s, d, n, first).1;
    match entry_index(s[d], n) {
        Some(i) => {
            lemma_entry_index_bounds(s[d], n);
            let b = s[d][i].1;
            let f = s[d].update(i, (n, read_at_span(b, first)));
            assert(t == s.update(d, f));
            lemma_entry_index_same_names(s[d], f, n);
            assert(t[d] == f);
            assert(f[i].1 == read_at_span(b, first));
        },
        None => {
            lemma_read_twice(s, d - 1, n, first, second);
            lemma_read_from_frames(s, d - 1, n, first);
            assert(t[d] == s[d]);
        },
    }
}

/// A sequence has at most one reader: a read of a sequence binding that
/// nothing has read yet passes silently, and each later read of it is
/// reported as a second use.
pub proof fn law_a_sequence_has_one_reader(s: LinearScopes, n: Seq<char>, first: Span, second: Span)
    requires
        innermost_binding(s, n) matches Some(b) && b.holds_a_sequence && b.consumed_at is None && !b.outside_repeat,
    ensures
        read_name(s, n, first).0 == Seq::<ErrorView>::empty(),
        read_name(read_name(s, n, first).1, n, second).0 == seq![ErrorView::SeqUsedTwice { name: n, span: second }],
{
    lemma_read_twice(s, s.len() - 1, n, first, second);
    lemma_read_from_frames(s, s.len() - 1, n, first);
}

/// In the marked frames, with a fresh frame on top, a read of a sequence
/// from below the fresh frame is a second use.
proof fn lemma_read_marked(s: LinearScopes, d: int, n: Seq<char>, at: Span)
    requires
        d < s.len(),
        innermost_from(s, d, n) matches Some(b) && b.holds_a_sequence,
    ensures
        read_from(mark_all(s).push(seq![]), d, n, at) == (seq![ErrorView::SeqUsedTwice { name: n, span: at }], mark_all(s).push(seq![])),
    decreases d + 1,
{
    let m = mark_all(s).push(seq![]);
    assert(m[d] == mark_frame(s[d]));
    lemma_entry_index_same_names(s[d], mark_frame(s[d]), n);
    match entry_index(s[d], n) {
        Some(i) => {
            lemma_entry_index_bounds(s[d], n);
            assert(m[d][i].1 == with_repeat(s[d][i].1, true));
        },
        None => {
            lemma_read_marked(s, d - 1, n, at);
        },
    }
}

/// A read of an outer sequence inside a body that can run more than once
/// (a loop body, a closure argument) is a read per pass, and is reported
/// as a second use whether or not anything read it before.
pub proof fn law_a_read_in_a_repeated_body_is_a_second_use(body: Expr, s: LinearScopes, n: Seq<char>, at: Span, seqs: Seq<Span>)
    requires
        body matches Expr::Reference { path, span } && path@.len() == 1 && path@[0].name@ == n && span == at,
        innermost_binding(s, n) matches Some(b) && b.holds_a_sequence,
    ensures
        linear_repeated(body, s, seqs).0 == seq![ErrorView::SeqUsedTwice { name: n, span: at }],
{
    let m = mark_all(s).push(seq![]);
    assert(entry_index(m[s.len() as int], n) is None);
    assert(read_from(m, m.len() - 1, n, at) == read_from(m, s.len() - 1, n, at));
    lemma_read_marked(s, s.len() - 1, n, at);
    assert(linear_walk(body, m, seqs) == read_name(m, n, at));
    assert(close_frame(m) == (unconsumed(seq![]), mark_all(s)));
    assert(unconsumed(seq![]) =~= Seq::<ErrorView>::empty());
    assert(seq![ErrorView::SeqUsedTwice { name: n, span: at }] + Seq::<ErrorView>::empty() =~= seq![ErrorView::SeqUsedTwice { name: n, span: at }]);
}

proof fn lemma_first_read_some(states: Seq<LinearScopes>, d: int, n: Seq<char>, j: int)
    requires
        0 <= j < states.len(),
        read_in(states[j], d, n) is Some,
    ensures
        first_read(states, d, n) is Some,
    decreases states.len(),
{
    if j < states.len() - 1 {
        lemma_first_read_some(states.drop_last(), d, n, j);
    }
}

proof fn lemma_merge_frame_reports(f: Seq<(Seq<char>, crate::sequence_linear::LinearBinding)>, states: Seq<LinearScopes>, d: int, i: int, x: ErrorView)
    requires
        0 <= i < f.len(),
        merge_entry(f[i], states, d).0 == seq![x],
    ensures
        merge_frame(f, states, d).0.contains(x),
    decreases f.len(),
{
    let rest = merge_frame(f.drop_last(), states, d);
    if i == f.len() - 1 {
        assert((rest.0 + seq![x])[rest.0.len() as int] == x);
    } else {
        lemma_merge_frame_reports(f.drop_last(), states, d, i, x);
        let k = choose|k: int| 0 <= k < rest.0.len() && rest.0[k] == x;
        assert((rest.0 + merge_entry(f.last(), states, d).0)[k] == x);
    }
}

proof fn lemma_merge_states_reports(before: LinearScopes, states: Seq<LinearScopes>, d: int, x: ErrorView)
    requires
        0 <= d < before.len(),
        merge_frame(before[d], states, d).0.contains(x),
    ensures
        merge_states(before, states).0.contains(x),
    decreases before.len(),
{
    let rest = merge_states(before.drop_last(), states);
    let last = merge_frame(before.last(), states, before.len() - 1);
    if d == before.len() - 1 {
        let k = choose|k: int| 0 <= k < last.0.len() && last.0[k] == x;
        assert((rest.0 + last.0)[rest.0.len() + k] == x);
    } else {
        assert(before.drop_last()[d] == before[d]);
        lemma_merge_states_reports(before.drop_last(), states, d, x);
        let k = choose|k: int| 0 <= k < rest.0.len() && rest.0[k] == x;
        assert((rest.0 + last.0)[k] == x);
    }
}

/// A sequence must be read on every path: when the alternatives of an
/// `if`, a `match` or a short-circuit operator join, a binding that one of
/// them read and another did not is reported at its origin.
pub proof fn law_a_sequence_read_on_some_paths_only_is_reported(before: LinearScopes, states: Seq<LinearScopes>, d: int, i: int, j: int, k: int)
    requires
        0 <= d < before.len(),
        0 <= i < before[d].len(),
        before[d][i].1.consumed_at is None,
        0 <= j < states.len(),
        read_in(states[j], d, before[d][i].0) is Some,
        0 <= k < states.len(),
        read_in(states[k], d, before[d][i].0) is None,
    ensures
        merge_states(before, states).0.contains(ErrorView::SeqNotConsumed { span: before[d][i].1.origin }),
{
    let e = before[d][i];
    lemma_first_read_some(states, d, e.0, j);
    assert(some_unread(states, d, e.0));
    let x = ErrorView::SeqNotConsumed { span: e.1.origin };
    assert(merge_entry(e, states, d).0 == seq![x]);
    lemma_merge_frame_reports(before[d], states, d, i, x);
    lemma_merge_states_reports(before, states, d, x);
}

proof fn lemma_parents_search_finds(st: SymbolTable, ps: Seq<Seq<char>>, m: Seq<char>, v: Seq<Seq<char>>, k: int)
    requires
        0 <= k < ps.len(),
        !v.contains(ps[k]),
        trait_declares(st, ps[k], m),
    ensures
        parents_search(st, ps, m, v).0,
    decreases k,
{
    let p = ps[k];
    lemma_chain_search(st, ps[0], m, v);
    let r = chain_search(st, ps[0], m, v);
    if k > 0 && !r.0 {
        assert(!r.1.contains(p)) by {
            if r.1.contains(p) {
                assert(!trait_declares(st, p, m));
            }
        }
        assert(ps.drop_first()[k - 1] == p);
        lemma_parents_search_finds(st, ps.drop_first(), m, r.1, k - 1);
    }
}

/// A trait offers the methods of the traits it is composed of: a method
/// declared by a composed trait is found on the composing one.
pub proof fn law_a_composed_trait_offers_its_methods(st: SymbolTable, t: Seq<char>, p: Seq<char>, m: Seq<char>)
    requires
        trait_named(st.traits@, t) matches Some(info) && views(info.composed_traits@).contains(p),
        p != t,
        trait_declares(st, p, m),
    ensures
        chain_search(st, t, m, seq![]).0,
{
    let info = trait_named(st.traits@, t).unwrap();
    if !views(info.methods@).contains(m) {
        let parents = views(info.composed_traits@);
        let k = choose|k: int| 0 <= k < parents.len() && parents[k] == p;
        let seen = seq![t];
        assert(seq![].push(t) =~= seen);
        assert(!seen.contains(p)) by {
            if seen.contains(p) {
                let w = choose|w: int| 0 <= w < seen.len() && seen[w] == p;
                assert(seen[w] == t);
            }
        }
        lemma_parents_search_finds(st, parents, m, seen, k);
    }
}

/// A labelled argument names a field and fits its type.
pub open spec fn arg_fits_field(def: crate::ast::StructDef, arg: (Option<Ident>, Expr), t: SType, compatible: bool) -> bool {
    match arg.0 {
        None => true,
        Some(l) => match first_field_named(def.fields@, l.name@) {
            Some(f) => mentions_any(f.ty, def_generic_names(def)) || field_value_fits(display_of(sem_of(f.ty)), t, compatible),
            None => false,
        },
    }
}

/// The labelled arguments each name a field and fit its type.
pub open spec fn args_fit_fields(def: crate::ast::StructDef, args: Seq<(Option<Ident>, Expr)>, types: Seq<SType>, compatible: Seq<bool>) -> bool {
    forall|k: int| 0 <= k < args.len() ==> #[trigger] arg_fits_field(def, args[k], types[k], compatible[k])
}

proof fn lemma_no_field_arg_reports(def: crate::ast::StructDef, args: Seq<(Option<Ident>, Expr)>, owner: Seq<char>, types: Seq<SType>, compatible: Seq<bool>)
    requires
        args_fit_fields(def, args, types, compatible),
    ensures
        field_arg_reports(def, args, owner, types, compatible) == Seq::<ErrorView>::empty(),
    decreases args.len(),
{
    if args.len() > 0 {
        assert forall|k: int| 0 <= k < args.drop_last().len() implies #[trigger] arg_fits_field(def, args.drop_last()[k], types[k], compatible[k]) by {
            assert(args.drop_last()[k] == args[k]);
            assert(arg_fits_field(def, args[k], types[k], compatible[k]));
        }
        assert(arg_fits_field(def, args[args.len() - 1], types[args.len() - 1], compatible[args.len() - 1]));
        lemma_no_field_arg_reports(def, args.drop_last(), owner, types, compatible);
        assert(args.last() == args[args.len() - 1]);
        assert(Seq::<ErrorView>::empty() + Seq::<ErrorView>::empty() =~= Seq::<ErrorView>::empty());
    }
}

proof fn lemma_required_given(fields: Seq<StructField>, given: Seq<Seq<char>>, owner: Seq<char>, span: Span)
    requires
        forall|i: int| 0 <= i < fields.len() && required(#[trigger] fields[i]) ==> given.contains(fields[i].name.name@),
    ensures
        missing_field_reports(required_field_names(fields), given, owner, span) == Seq::<ErrorView>::empty(),
        forall|j: int| 0 <= j < required_field_names(fields).len() ==> given.contains(#[trigger] required_field_names(fields)[j]),
    decreases fields.len(),
{
    if fields.len() > 0 {
        let rest = fields.drop_last();
        assert forall|i: int| 0 <= i < rest.len() && required(#[trigger] rest[i]) implies given.contains(rest[i].name.name@) by {
            assert(rest[i] == fields[i]);
        }
        lemma_required_given(rest, given, owner, span);
        let req = required_field_names(fields);
        let before = required_field_names(rest);
        let last = fields[fields.len() - 1];
        if required(last) {
            assert(req == before + seq![last.name.name@]);
            assert(given.contains(last.name.name@));
            assert forall|j: int| 0 <= j < req.len() implies given.contains(#[trigger] req[j]) by {
                if j < before.len() {
                    assert(req[j] == before[j]);
                }
            }
            assert(req.drop_last() =~= before);
            assert(missing_field_reports(req, given, owner, span) =~= Seq::<ErrorView>::empty());
        } else {
            assert(req =~= before);
        }
    }
}

/// An instantiation whose labelled arguments each name a field of its
/// struct with a value that fits the field's type, and that names each
/// field that has no default value and is not optional, reports nothing.
pub proof fn law_a_complete_instantiation_reports_nothing(def: crate::ast::StructDef, args: Seq<(Option<Ident>, Expr)>, owner: Seq<char>,
    span: Span, types: Seq<SType>, compatible: Seq<bool>)
    requires
        args_fit_fields(def, args, types, compatible),
        forall|i: int| 0 <= i < def.fields@.len() && required(#[trigger] def.fields@[i]) ==> arg_labels(named_args(args)).contains(def.fields@[i].name.name@),
    ensures
        struct_field_reports(Some(def), args, owner, span, types, compatible) == Seq::<ErrorView>::empty(),
{
    lemma_no_field_arg_reports(def, args, owner, types, compatible);
    lemma_required_given(def.fields@, arg_labels(named_args(args)), owner, span);
    assert(Seq::<ErrorView>::empty() + Seq::<ErrorView>::empty() =~= Seq::<ErrorView>::empty());
}

/// When some overload fits a call exactly, every overload the call is
/// resolved to fits it exactly: a lenient literal match never competes
/// with an exact one.
pub proof fn law_an_exact_fit_excludes_lenient_ones(
    ovs: Seq<FunctionInfo>,
    args: Seq<(Option<Ident>, Expr)>,
    inferred: Seq<SType>,
    sats: Seq<Seq<bool>>,
    shaped: Seq<bool>,
    j: int,
    k: int,
)
    requires
        0 <= j < ovs.len(),
        0 <= k < ovs.len(),
        overload_fits(ovs[j], args, false, inferred, sats[j], shaped[j]),
        most_specific(ovs, args, inferred, sats, shaped, k),
    ensures
        overload_fits(ovs[k], args, false, inferred, sats[k], shaped[k]),
{
    assert(!needs_lenient(ovs, args, inferred, sats, shaped));
}

/// The overloads a call is resolved to all leave the same number of
/// parameters to their defaults: the fewest that any fitting overload
/// leaves.
pub proof fn law_chosen_overloads_fire_equally_many_defaults(
    ovs: Seq<FunctionInfo>,
    args: Seq<(Option<Ident>, Expr)>,
    inferred: Seq<SType>,
    sats: Seq<Seq<bool>>,
    shaped: Seq<bool>,
    j: int,
    k: int,
)
    requires
        0 <= j < ovs.len(),
        0 <= k < ovs.len(),
        most_specific(ovs, args, inferred, sats, shaped, j),
        most_specific(ovs, args, inferred, sats, shaped, k),
    ensures
        defaults_fired(ovs[j], args.len()) == defaults_fired(ovs[k], args.len()),
{
    assert(in_pool(ovs, args, inferred, sats, shaped, j));
    assert(in_pool(ovs, args, inferred, sats, shaped, k));
}

/// Among the first `n` overloads, one that fits fires no more defaults
/// than any other that fits, when one fits at all.
proof fn lemma_fewest_defaults(
    ovs: Seq<FunctionInfo>,
    args: Seq<(Option<Ident>, Expr)>,
    inferred: Seq<SType>,
    sats: Seq<Seq<bool>>,
    shaped: Seq<bool>,
    n: int,
    j: int,
) -> (k: int)
    requires
        0 <= j < n <= ovs.len(),
        in_pool(ovs, args, inferred, sats, shaped, j),
    ensures
        0 <= k < n,
        in_pool(ovs, args, inferred, sats, shaped, k),
        forall|i: int| 0 <= i < n && #[trigger] in_pool(ovs, args, inferred, sats, shaped, i)
            ==> defaults_fired(ovs[k], args.len()) <= defaults_fired(ovs[i], args.len()),
    decreases n,
{
    if n - 1 == j {
        if exists|i: int| 0 <= i < n - 1 && #[trigger] in_pool(ovs, args, inferred, sats, shaped, i) {
            let i0 = choose|i: int| 0 <= i < n - 1 && #[trigger] in_pool(ovs, args, inferred, sats, shaped, i);
            let m = lemma_fewest_defaults(ovs, args, inferred, sats, shaped, n - 1, i0);
            if defaults_fired(ovs[m], args.len()) <= defaults_fired(ovs[j], args.len()) { m } else { j }
        } else {
            j
        }
    } else {
        let m = lemma_fewest_defaults(ovs, args, inferred, sats, shaped, n - 1, j);
        if in_pool(ovs, args, inferred, sats, shaped, n - 1)
            && defaults_fired(ovs[n - 1], args.len()) < defaults_fired(ovs[m], args.len()) {
            n - 1
        } else {
            m
        }
    }
}

proof fn lemma_prefix_keeps_most_specific(
    ovs: Seq<FunctionInfo>,
    args: Seq<(Option<Ident>, Expr)>,
    inferred: Seq<SType>,
    sats: Seq<Seq<bool>>,
    shaped: Seq<bool>,
    n: int,
    k: int,
)
    requires
        0 <= k < n,
        most_specific(ovs, args, inferred, sats, shaped, k),
    ensures
        most_specific_prefix(ovs, args, inferred, sats, shaped, n).len() > 0,
    decreases n,
{
    if k < n - 1 {
        lemma_prefix_keeps_most_specific(ovs, args, inferred, sats, shaped, n - 1, k);
    }
}

/// A call that fits some overload, exactly or leniently, is resolved to
/// at least one: it is never reported as fitting none.
pub proof fn law_a_fitting_call_is_resolved(
    ovs: Seq<FunctionInfo>,
    args: Seq<(Option<Ident>, Expr)>,
    inferred: Seq<SType>,
    sats: Seq<Seq<bool>>,
    shaped: Seq<bool>,
    j: int,
)
    requires
        0 <= j < ovs.len(),
        in_pool(ovs, args, inferred, sats, shaped, j),
    ensures
        most_specific_prefix(ovs, args, inferred, sats, shaped, ovs.len() as int).len() > 0,
{
    let k = lemma_fewest_defaults(ovs, args, inferred, sats, shaped, ovs.len() as int, j);
    assert(most_specific(ovs, args, inferred, sats, shaped, k));
    lemma_prefix_keeps_most_specific(ovs, args, inferred, sats, shaped, ovs.len() as int, k);
}

/// An argument whose type satisfies every bound of its generic parameter
/// is not reported.
pub proof fn law_an_argument_meeting_every_bound_is_not_reported(a: SemanticAnalyzer, cs: Seq<GenericConstraint>, t: SType, span: Span)
    requires
        forall|i: int| 0 <= i < cs.len() ==> satisfies_bound(a, t, #[trigger] constraint_trait(cs[i])),
    ensures
        bound_reports(a, cs, t, span) == Seq::<ErrorView>::empty(),
    decreases cs.len(),
{
    if cs.len() > 0 {
        assert forall|i: int| 0 <= i < cs.drop_last().len() implies satisfies_bound(a, t, #[trigger] constraint_trait(cs.drop_last()[i])) by {
            assert(cs.drop_last()[i] == cs[i]);
        }
        law_an_argument_meeting_every_bound_is_not_reported(a, cs.drop_last(), t, span);
        assert(satisfies_bound(a, t, constraint_trait(cs[cs.len() - 1])));
        assert(Seq::<ErrorView>::empty() + Seq::<ErrorView>::empty() =~= Seq::<ErrorView>::empty());
    }
}

/// A label may appear once in a call, whatever the callee is: a call
/// that repeats one reports that, and nothing of its callee, and
/// consumes nothing.
pub proof fn law_a_repeated_label_stops_a_call(
    a: SemanticAnalyzer,
    name: Seq<char>,
    type_args: Seq<crate::ast::Type>,
    args: Seq<(Option<Ident>, Expr)>,
    ovs: Seq<FunctionInfo>,
    closure: Option<Seq<(ParamConvention, SemType)>>,
    binding: Option<SType>,
    facts: ArgumentFacts,
    span: Span,
)
    requires
        repeated_label(args) is Some,
    ensures
        function_call_reports(a, name, type_args, args, ovs, closure, binding, facts, span) == generic_arity_reports(a, name, ovs, type_args, span)
            + seq![ErrorView::DuplicateDefinition { name: "argument '"@ + repeated_label(args).unwrap().name@ + "'"@, span: repeated_label(args).unwrap().span }],
        function_call_consumed(a, name, args, ovs, closure, facts, span) == Set::<Seq<char>>::empty(),
{
}

proof fn lemma_last_separator_is_last(s: Seq<char>)
    ensures
        last_separator(s) matches Some(i) ==> 0 <= i && i + 2 <= s.len()
            && forall|j: int| i < j && j + 1 < s.len() ==> !(#[trigger] s[j] == ':' && s[j + 1] == ':'),
        last_separator(s) is None ==> forall|j: int| 0 <= j && j + 1 < s.len() ==> !(#[trigger] s[j] == ':' && s[j + 1] == ':'),
    decreases s.len(),
{
    if s.len() >= 2 && !(s[s.len() - 2] == ':' && s[s.len() - 1] == ':') {
        lemma_last_separator_is_last(s.drop_last());
        assert forall|j: int| 0 <= j && j + 1 < s.len() - 1 implies #[trigger] s[j] == s.drop_last()[j] && s[j + 1] == s.drop_last()[j + 1] by {}
    }
}

/// The name a call reports a function by holds no module path: no `::`
/// is left in it.
pub proof fn law_a_simple_name_has_no_path(s: Seq<char>)
    ensures
        !has_path_separator(simple_name_of(s)),
{
    lemma_last_separator_is_last(s);
    let r = simple_name_of(s);
    if let Some(i) = last_separator(s) {
        assert forall|j: int| 0 <= j && j + 1 < r.len() implies !(#[trigger] r[j] == ':' && r[j + 1] == ':') by {
            assert(r[j] == s[i + 2 + j] && r[j + 1] == s[i + 2 + j + 1]);
        }
    }
}

/// An instantiation whose arguments all carry labels reports no
/// positional argument.
pub proof fn law_labelled_arguments_are_not_positional(args: Seq<(Option<Ident>, Expr)>, owner: Seq<char>)
    requires
        forall|i: int| 0 <= i < args.len() ==> (#[trigger] args[i]).0 is Some,
    ensures
        positional_reports(args, owner) == Seq::<ErrorView>::empty(),
    decreases args.len(),
{
    if args.len() > 0 {
        assert forall|i: int| 0 <= i < args.drop_last().len() implies (#[trigger] args.drop_last()[i]).0 is Some by {
            assert(args.drop_last()[i] == args[i]);
        }
        law_labelled_arguments_are_not_positional(args.drop_last(), owner);
        assert(args[args.len() - 1].0 is Some);
        assert(Seq::<ErrorView>::empty() + Seq::<ErrorView>::empty() =~= Seq::<ErrorView>::empty());
    }
}

/// No name of `s` is `self` or bound by `bound`.
pub open spec fn all_free(s: Seq<Seq<char>>, bound: Set<Seq<char>>) -> bool {
    forall|i: int| 0 <= i < s.len() ==> (#[trigger] s[i]) != "self"@ && !bound.contains(s[i])
}

proof fn lemma_all_free_concat(a: Seq<Seq<char>>, b: Seq<Seq<char>>, bound: Set<Seq<char>>)
    requires
        all_free(a, bound),
        all_free(b, bound),
    ensures
        all_free(a + b, bound),
{
    assert forall|i: int| 0 <= i < (a + b).len() implies (#[trigger] (a + b)[i]) != "self"@ && !bound.contains((a + b)[i]) by {
        if i < a.len() {
            assert((a + b)[i] == a[i]);
        } else {
            assert((a + b)[i] == b[i - a.len()]);
        }
    }
}

proof fn lemma_all_free_wider(s: Seq<Seq<char>>, inner: Set<Seq<char>>, bound: Set<Seq<char>>)
    requires
        all_free(s, inner),
        bound.subset_of(inner),
    ensures
        all_free(s, bound),
{
}

/// Each name that the walk of `e` captures is neither `self` nor bound
/// around `e` or inside it.
pub proof fn lemma_free_refs_free(e: Expr, bound: Set<Seq<char>>)
    ensures
        all_free(free_refs(e, bound), bound),
    decreases e,
{
    match e {
        Expr::Reference { path, .. } => {},
        Expr::Literal { .. } | Expr::InferredEnumInstantiation { .. } => {},
        Expr::Array { elements, .. } => {
            assert(decreases_to!(e => elements@));
            lemma_free_refs_list(elements@, bound);
        },
        Expr::Tuple { fields, .. } => {
            assert(decreases_to!(e => fields@));
            lemma_free_refs_labeled(fields@, bound);
        },
        Expr::Invocation { path, args, .. } => {
            assert(decreases_to!(e => args@));
            lemma_free_refs_args(args@, bound);
            lemma_all_free_concat(path_capture(path@, bound), free_refs_args(args@, bound), bound);
        },
        Expr::EnumInstantiation { data, .. } => {
            assert(decreases_to!(e => data@));
            lemma_free_refs_labeled(data@, bound);
        },
        Expr::BinaryOp { left, right, .. } => {
            lemma_free_refs_free(*left, bound);
            lemma_free_refs_free(*right, bound);
            lemma_all_free_concat(free_refs(*left, bound), free_refs(*right, bound), bound);
        },
        Expr::UnaryOp { operand, .. } => {
            lemma_free_refs_free(*operand, bound);
        },
        Expr::ForExpr { var, collection, body, .. } => {
            lemma_free_refs_free(*collection, bound);
            lemma_free_refs_free(*body, bound.insert(var.name@));
            lemma_all_free_wider(free_refs(*body, bound.insert(var.name@)), bound.insert(var.name@), bound);
            lemma_all_free_concat(free_refs(*collection, bound), free_refs(*body, bound.insert(var.name@)), bound);
        },
        Expr::IfExpr { condition, then_branch, else_branch, .. } => {
            lemma_free_refs_free(*condition, bound);
            lemma_free_refs_free(*then_branch, bound);
            lemma_all_free_concat(free_refs(*condition, bound), free_refs(*then_branch, bound), bound);
            let rest = match else_branch {
                Some(x) => free_refs(*x, bound),
                None => seq![],
            };
            if let Some(x) = else_branch {
                lemma_free_refs_free(*x, bound);
            }
            lemma_all_free_concat(free_refs(*condition, bound) + free_refs(*then_branch, bound), rest, bound);
        },
        Expr::MatchExpr { scrutinee, arms, .. } => {
            assert(decreases_to!(e => arms@));
            lemma_free_refs_free(*scrutinee, bound);
            lemma_free_refs_arms(arms@, bound);
            lemma_all_free_concat(free_refs(*scrutinee, bound), free_refs_arms(arms@, bound), bound);
        },
        Expr::Group { expr, .. } => {
            lemma_free_refs_free(*expr, bound);
        },
        Expr::DictLiteral { entries, .. } => {
            assert(decreases_to!(e => entries@));
            lemma_free_refs_entries(entries@, bound);
        },
        Expr::DictAccess { dict, key, .. } => {
            lemma_free_refs_free(*dict, bound);
            lemma_free_refs_free(*key, bound);
            lemma_all_free_concat(free_refs(*dict, bound), free_refs(*key, bound), bound);
        },
        Expr::FieldAccess { object, .. } => {
            lemma_free_refs_free(*object, bound);
        },
        Expr::ClosureExpr { params, body, .. } => {
            let inner = bound.union(closure_param_names(params@).to_set());
            lemma_free_refs_free(*body, inner);
            lemma_all_free_wider(free_refs(*body, inner), inner, bound);
        },
        Expr::LetExpr { pattern, value, body, .. } => {
            let inner = bound.union(ident_names(pattern_names(pattern)).to_set());
            lemma_free_refs_free(*value, bound);
            lemma_free_refs_free(*body, inner);
            lemma_all_free_wider(free_refs(*body, inner), inner, bound);
            lemma_all_free_concat(free_refs(*value, bound), free_refs(*body, inner), bound);
        },
        Expr::MethodCall { receiver, args, .. } => {
            assert(decreases_to!(e => args@));
            lemma_free_refs_free(*receiver, bound);
            lemma_free_refs_args(args@, bound);
            lemma_all_free_concat(free_refs(*receiver, bound), free_refs_args(args@, bound), bound);
        },
        Expr::Block { statements, result, .. } => {
            assert(decreases_to!(e => statements@));
            let inner = bound.union(let_names(statements@).to_set());
            lemma_free_refs_statements(statements@, bound);
            lemma_free_refs_free(*result, inner);
            lemma_all_free_wider(free_refs(*result, inner), inner, bound);
            lemma_all_free_concat(free_refs_statements(statements@, bound), free_refs(*result, inner), bound);
        },
    }
}

proof fn lemma_free_refs_list(s: Seq<Expr>, bound: Set<Seq<char>>)
    ensures
        all_free(free_refs_list(s, bound), bound),
    decreases s,
{
    if s.len() > 0 {
        assert(decreases_to!(s => s.last()));
        lemma_free_refs_list(s.drop_last(), bound);
        lemma_free_refs_free(s.last(), bound);
        lemma_all_free_concat(free_refs_list(s.drop_last(), bound), free_refs(s.last(), bound), bound);
    }
}

proof fn lemma_free_refs_labeled(s: Seq<(Ident, Expr)>, bound: Set<Seq<char>>)
    ensures
        all_free(free_refs_labeled(s, bound), bound),
    decreases s,
{
    if s.len() > 0 {
        assert(decreases_to!(s => s.last()));
        lemma_free_refs_labeled(s.drop_last(), bound);
        lemma_free_refs_free(s.last().1, bound);
        lemma_all_free_concat(free_refs_labeled(s.drop_last(), bound), free_refs(s.last().1, bound), bound);
    }
}

proof fn lemma_free_refs_args(s: Seq<(Option<Ident>, Expr)>, bound: Set<Seq<char>>)
    ensures
        all_free(free_refs_args(s, bound), bound),
    decreases s,
{
    if s.len() > 0 {
        assert(decreases_to!(s => s.last()));
        lemma_free_refs_args(s.drop_last(), bound);
        lemma_free_refs_free(s.last().1, bound);
        lemma_all_free_concat(free_refs_args(s.drop_last(), bound), free_refs(s.last().1, bound), bound);
    }
}

proof fn lemma_free_refs_entries(s: Seq<(Expr, Expr)>, bound: Set<Seq<char>>)
    ensures
        all_free(free_refs_entries(s, bound), bound),
    decreases s,
{
    if s.len() > 0 {
        assert(decreases_to!(s => s.last()));
        lemma_free_refs_entries(s.drop_last(), bound);
        lemma_free_refs_free(s.last().0, bound);
        lemma_free_refs_free(s.last().1, bound);
        lemma_all_free_concat(free_refs_entries(s.drop_last(), bound), free_refs(s.last().0, bound), bound);
        lemma_all_free_concat(free_refs_entries(s.drop_last(), bound) + free_refs(s.last().0, bound), free_refs(s.last().1, bound), bound);
    }
}

proof fn lemma_free_refs_arms(s: Seq<MatchArm>, bound: Set<Seq<char>>)
    ensures
        all_free(free_refs_arms(s, bound), bound),
    decreases s,
{
    if s.len() > 0 {
        assert(decreases_to!(s => s.last()));
        let inner = bound.union(arm_names(s.last().pattern).to_set());
        lemma_free_refs_arms(s.drop_last(), bound);
        lemma_free_refs_free(s.last().body, inner);
        lemma_all_free_wider(free_refs(s.last().body, inner), inner, bound);
        lemma_all_free_concat(free_refs_arms(s.drop_last(), bound), free_refs(s.last().body, inner), bound);
    }
}

proof fn lemma_free_refs_statements(s: Seq<BlockStatement>, bound: Set<Seq<char>>)
    ensures
        all_free(free_refs_statements(s, bound), bound),
    decreases s,
{
    if s.len() > 0 {
        assert(decreases_to!(s => s.last()));
        let b = bound.union(let_names(s.drop_last()).to_set());
        lemma_free_refs_statements(s.drop_last(), bound);
        let here = match s.last() {
            BlockStatement::Let { value, .. } => free_refs(value, b),
            BlockStatement::Assign { target, value, .. } => free_refs(target, b) + free_refs(value, b),
            BlockStatement::Expr(x) => free_refs(x, b),
        };
        match s.last() {
            BlockStatement::Let { value, .. } => {
                lemma_free_refs_free(value, b);
            },
            BlockStatement::Assign { target, value, .. } => {
                lemma_free_refs_free(target, b);
                lemma_free_refs_free(value, b);
                lemma_all_free_concat(free_refs(target, b), free_refs(value, b), b);
            },
            BlockStatement::Expr(x) => {
                lemma_free_refs_free(x, b);
            },
        }
        lemma_all_free_wider(here, b, bound);
        lemma_all_free_concat(free_refs_statements(s.drop_last(), bound), here, bound);
    }
}

proof fn lemma_dedup_into_prefix(acc: Seq<Seq<char>>, s: Seq<Seq<char>>)
    ensures
        acc.len() <= dedup_into(acc, s).len(),
        dedup_into(acc, s).take(acc.len() as int) == acc,
    decreases s.len(),
{
    if s.len() == 0 {
        assert(acc.take(acc.len() as int) =~= acc);
    } else {
        lemma_dedup_into_prefix(acc, s.drop_last());
        let prev = dedup_into(acc, s.drop_last());
        if !prev.contains(s.last()) {
            assert(prev.push(s.last()).take(acc.len() as int) =~= prev.take(acc.len() as int));
        }
    }
}

/// The free-variable walk of a closure body extends the captures found
/// so far: it keeps them, in order, at the front; it adds no name twice;
/// and each name it adds occurs in the body, is not `self`, and is bound
/// neither by the closure's parameters nor by the scopes around the body
/// or inside it.
pub proof fn law_captures_extend_without_duplicates(old: Seq<Seq<char>>, body: Expr, bound: Set<Seq<char>>)
    requires
        old.no_duplicates(),
    ensures
        dedup_into(old, free_refs(body, bound)).take(old.len() as int) == old,
        dedup_into(old, free_refs(body, bound)).no_duplicates(),
        forall|n: Seq<char>| #[trigger] dedup_into(old, free_refs(body, bound)).contains(n) && !old.contains(n)
            ==> free_refs(body, bound).contains(n) && n != "self"@ && !bound.contains(n),
{
    let found = free_refs(body, bound);
    lemma_dedup_into_prefix(old, found);
    lemma_dedup_into_unique(old, found);
    lemma_free_refs_free(body, bound);
    assert forall|n: Seq<char>| #[trigger] dedup_into(old, found).contains(n) && !old.contains(n)
        implies found.contains(n) && n != "self"@ && !bound.contains(n) by {
        let i = choose|i: int| 0 <= i < found.len() && found[i] == n;
        assert(found[i] != "self"@ && !bound.contains(found[i]));
    }
}

/// Joining the parts of a qualified name with `::` gives back the name.
pub proof fn law_split_parts_rejoin(s: Seq<char>)
    ensures
        join_path(split_parts(s)) == s,
    decreases s.len(),
{
    reveal_strlit("::");
    lemma_first_separator_bounds(s);
    match first_separator(s) {
        Some(i) => {
            if 0 <= i && i + 2 <= s.len() {
                let a = s.subrange(0, i);
                let b = s.subrange(i + 2, s.len() as int);
                law_split_parts_rejoin(b);
                lemma_split_parts_nonempty(b);
                lemma_join_front(a, split_parts(b));
                assert(split_parts(s) == seq![a] + split_parts(b));
                assert(a + "::"@ + b =~= s);
            }
        },
        None => {},
    }
}

proof fn lemma_split_parts_nonempty(s: Seq<char>)
    ensures
        split_parts(s).len() >= 1,
{
}

proof fn lemma_join_front(a: Seq<char>, ps: Seq<Seq<char>>)
    requires
        ps.len() >= 1,
    ensures
        join_path(seq![a] + ps) == a + "::"@ + join_path(ps),
    decreases ps.len(),
{
    let whole = seq![a] + ps;
    assert(whole.drop_last() =~= seq![a] + ps.drop_last());
    assert(whole.last() == ps.last());
    assert(whole.len() >= 2);
    assert(join_path(whole) == join_path(whole.drop_last()) + "::"@ + whole.last());
    if ps.len() == 1 {
        assert(seq![a] + ps.drop_last() =~= seq![a]);
        assert(join_path(seq![a]) == a);
        assert(join_path(ps) == ps[0]);
        assert(ps.last() == ps[0]);
    } else {
        lemma_join_front(a, ps.drop_last());
        assert(join_path(ps) == join_path(ps.drop_last()) + "::"@ + ps.last());
        assert(a + "::"@ + join_path(ps.drop_last()) + "::"@ + ps.last() =~= a + "::"@ + (join_path(ps.drop_last()) + "::"@ + ps.last()));
    }
}

/// Leaving an expression undoes entering it: the walk comes back to the
/// depth it had, whether or not the expression was allowed in.
pub proof fn law_leaving_an_expression_restores_the_depth(d: usize)
    ensures
        left_depth(entered_depth(d)) == if d == usize::MAX { (usize::MAX - 1) as usize } else { d },
        d < MAX_EXPR_DEPTH ==> left_depth(entered_depth(d)) == d,
{
}

/// A block forgets only the bindings it introduced: a binding given away
/// before the block, or given away inside it and bound outside it (or not
/// bound locally at all), is still given away after it; a binding the
/// block introduced and gave away, and that was not given away before, is
/// forgotten with the block.
pub proof fn law_a_block_keeps_what_it_gave_away_outside(saved: Seq<Seq<char>>, cur: Seq<Seq<char>>,
    cur_lets: Seq<(String, SemType)>, saved_lets: Seq<(String, SemType)>, n: Seq<char>)
    ensures
        saved.contains(n) ==> consumed_after_block(saved, cur, cur_lets, saved_lets).contains(n),
        cur.contains(n) && let_binding_names(saved_lets).contains(n) ==> consumed_after_block(saved, cur, cur_lets, saved_lets).contains(n),
        cur.contains(n) && !let_binding_names(cur_lets).contains(n) ==> consumed_after_block(saved, cur, cur_lets, saved_lets).contains(n),
        !saved.contains(n) && introduced_in_block(cur_lets, saved_lets, n) ==> !consumed_after_block(saved, cur, cur_lets, saved_lets).contains(n),
        !saved.contains(n) && !cur.contains(n) ==> !consumed_after_block(saved, cur, cur_lets, saved_lets).contains(n),
{
}

/// Rewriting value paths a second time has nothing left to do: the
/// rewritten statements declare the same types as the original ones, so a
/// second pass checks names against the same scope, and under it each
/// rewritten statement is its own rewrite.
pub proof fn law_a_rewritten_file_is_its_own_rewrite(old: Seq<Statement>, new: Seq<Statement>, st: SymbolTable)
    requires
        new.len() == old.len(),
        forall|i: int| 0 <= i < old.len() ==> rewrites_statement_of_file(#[trigger] old[i], new[i],
            TypeScope { symbols: st, in_file: file_types(old) }),
    ensures
        file_types(new) == file_types(old),
        forall|i: int| 0 <= i < new.len() ==> rewrites_statement_of_file(#[trigger] new[i], new[i],
            TypeScope { symbols: st, in_file: file_types(new) }),
{
    let t = TypeScope { symbols: st, in_file: file_types(old) };
    lemma_file_types_kept(old, new, t);
    assert forall|i: int| 0 <= i < new.len() implies rewrites_statement_of_file(#[trigger] new[i], new[i],
        TypeScope { symbols: st, in_file: file_types(new) }) by {
        assert(rewrites_statement_of_file(old[i], new[i], t));
        match old[i] {
            Statement::Use(_) => {},
            Statement::Let(b) => {
                if let Statement::Let(n) = new[i] {
                    lemma_rewrite_fixed(b.value, n.value, t);
                }
            },
            Statement::Definition(d) => {
                if let Statement::Definition(n) = new[i] {
                    lemma_definition_fixed(*d, *n, t);
                }
            },
        }
    }
}

/// A block leaks none of its locals: whatever runs between opening it and
/// closing it, the local bindings, the recorded closure captures and the
/// inference frames after it are those before it; and a name is given
/// away after it exactly when it was given away before it, or was given
/// away inside it and is not a binding the block introduced.
pub proof fn law_a_block_leaks_none_of_its_locals(entry: SemanticAnalyzer, saved: BlockScope, opened: SemanticAnalyzer,
    inner: SemanticAnalyzer, exit: SemanticAnalyzer, n: Seq<char>)
    requires
        block_opened(entry, saved, opened),
        block_closed(inner, saved, exit),
    ensures
        let_views(exit.local_let_bindings@) == let_views(entry.local_let_bindings@),
        binding_capture_views(exit.closure_binding_captures@) == binding_capture_views(entry.closure_binding_captures@),
        scope_views(exit.inference_scopes@) == scope_views(entry.inference_scopes@),
        views(exit.consumed_bindings@).contains(n) <==> (views(entry.consumed_bindings@).contains(n)
            || (views(inner.consumed_bindings@).contains(n)
                && !(let_binding_names(inner.local_let_bindings@).contains(n) && !let_binding_names(entry.local_let_bindings@).contains(n)))),
{
    lemma_let_views_names(saved.lets@, entry.local_let_bindings@);
    assert(views(exit.consumed_bindings@).to_set().contains(n) == views(exit.consumed_bindings@).contains(n));
}

/// Rewriting value paths a second time changes nothing: when `mid` is
/// the rewrite of `old`, and `new` the rewrite of `mid` under the scope a
/// second pass builds from `mid`, each statement of `new` is the same as
/// the statement of `mid` at its place: the same constructors, equal plain
/// fields, and the same sub-expressions and lists element by element.
pub proof fn law_rewriting_value_paths_twice_changes_nothing(old: Seq<Statement>, mid: Seq<Statement>, new: Seq<Statement>, st: SymbolTable)
    requires
        mid.len() == old.len(),
        forall|i: int| 0 <= i < old.len() ==> rewrites_statement_of_file(#[trigger] old[i], mid[i],
            TypeScope { symbols: st, in_file: file_types(old) }),
        new.len() == mid.len(),
        forall|i: int| 0 <= i < mid.len() ==> rewrites_statement_of_file(#[trigger] mid[i], new[i],
            TypeScope { symbols: st, in_file: file_types(mid) }),
    ensures
        forall|i: int| 0 <= i < mid.len() ==> same_statement_of_file(#[trigger] new[i], mid[i]),
{
    law_a_rewritten_file_is_its_own_rewrite(old, mid, st);
    let t = TypeScope { symbols: st, in_file: file_types(mid) };
    assert forall|i: int| 0 <= i < mid.len() implies same_statement_of_file(#[trigger] new[i], mid[i]) by {
        assert(rewrites_statement_of_file(mid[i], new[i], t));
        assert(rewrites_statement_of_file(mid[i], mid[i], t));
        lemma_statement_of_file_functional(mid[i], new[i], mid[i], t);
    }
}

} // verus!

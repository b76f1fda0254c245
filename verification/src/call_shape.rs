//! The shape of the arguments of a call: the labels and the count.
//!
//! A call gives each argument by position or by label. A position fills
//! the parameter at that position. A label names a parameter by its
//! external label or by its name. The call must give each parameter that
//! has no default, it must not give a parameter twice, and each label
//! must name a parameter. A receiver parameter `self` takes no argument.

use vstd::prelude::*;
use vstd::string::StringExecFns;
use crate::analyzer::SemanticAnalyzer;
use crate::ast::{expr_span, Expr, FnParam, GenericParam, Ident, ParamConvention, Span, Type};
use crate::error::{error_views, CompilerError, ErrorView};
use crate::sem_type::{display_of, sem_of, SType, SemType};
use crate::symbols::ParamInfo;
use crate::text::{lemma_views_push, list_contains, str_equals, views};
use crate::type_names::{mentions_any, type_mentions_any};

verus! {

broadcast use vstd::std_specs::vec::group_vec_axioms;

/// What overload resolution reads of a parameter.
pub struct ParamView<'a> {
    pub name: &'a str,
    pub external_label: Option<&'a str>,
    pub ty: Option<&'a Type>,
    /// True when the parameter declares a default value.
    pub has_default: bool,
}

impl<'a> ParamView<'a> {
    /// The view of a symbol-table parameter.
    pub fn of_param_info(p: &'a ParamInfo) -> (r: ParamView<'a>)
        ensures
            r.name@ == p.name.name@,
            r.external_label is Some <==> p.external_label is Some,
            r.external_label matches Some(l) ==> l@ == p.external_label.unwrap().name@,
            r.ty is Some <==> p.ty is Some,
            r.ty matches Some(t) ==> *t == p.ty.unwrap(),
            r.has_default == p.default is Some,
    {
        ParamView {
            name: p.name.name.as_str(),
            external_label: match &p.external_label {
                Some(l) => Some(l.name.as_str()),
                None => None,
            },
            ty: match &p.ty {
                Some(t) => Some(t),
                None => None,
            },
            has_default: p.default.is_some(),
        }
    }

    /// The view of a parameter as the source writes it.
    pub fn of_fn_param(p: &'a FnParam) -> (r: ParamView<'a>)
        ensures
            r.name@ == p.name.name@,
            r.external_label is Some <==> p.external_label is Some,
            r.external_label matches Some(l) ==> l@ == p.external_label.unwrap().name@,
            r.ty is Some <==> p.ty is Some,
            r.ty matches Some(t) ==> *t == p.ty.unwrap(),
            r.has_default == p.default is Some,
    {
        ParamView {
            name: p.name.name.as_str(),
            external_label: match &p.external_label {
                Some(l) => Some(l.name.as_str()),
                None => None,
            },
            ty: match &p.ty {
                Some(t) => Some(t),
                None => None,
            },
            has_default: p.default.is_some(),
        }
    }
}

/// A parameter as the shape check reads it: its name, its external
/// label, and whether it has a default.
pub open spec fn param_view(p: ParamView) -> (Seq<char>, Option<Seq<char>>, bool) {
    (p.name@, match p.external_label {
        Some(l) => Some(l@),
        None => None,
    }, p.has_default)
}

/// The parameters that take an argument: all but `self`, in order.
pub open spec fn call_params(ps: Seq<ParamView>) -> Seq<(Seq<char>, Option<Seq<char>>, bool)>
    decreases ps.len(),
{
    if ps.len() == 0 {
        seq![]
    } else {
        call_params(ps.drop_last()) + if ps.last().name@ == "self"@ {
            Seq::<(Seq<char>, Option<Seq<char>>, bool)>::empty()
        } else {
            seq![param_view(ps.last())]
        }
    }
}

/// The labels that the arguments give, in order.
pub open spec fn given_labels(args: Seq<(Option<Ident>, Expr)>) -> Seq<Seq<char>>
    decreases args.len(),
{
    if args.len() == 0 {
        seq![]
    } else {
        given_labels(args.drop_last()) + match args.last().0 {
            Some(l) => seq![l.name@],
            None => Seq::<Seq<char>>::empty(),
        }
    }
}

/// The first label that an earlier argument gave already.
pub open spec fn repeated_label(args: Seq<(Option<Ident>, Expr)>) -> Option<Ident>
    decreases args.len(),
{
    if args.len() == 0 {
        None
    } else {
        match repeated_label(args.drop_last()) {
            Some(l) => Some(l),
            None => match args.last().0 {
                Some(l) => if given_labels(args.drop_last()).contains(l.name@) { Some(l) } else { None },
                None => None,
            },
        }
    }
}

/// The position of the first parameter that the label `l` names, by its
/// external label or by its name.
pub open spec fn label_index(ns: Seq<(Seq<char>, Option<Seq<char>>, bool)>, l: Seq<char>) -> Option<int>
    decreases ns.len(),
{
    if ns.len() == 0 {
        None
    } else {
        match label_index(ns.drop_last(), l) {
            Some(i) => Some(i),
            None => if ns.last().1 == Some(l) || ns.last().0 == l { Some(ns.len() - 1) } else { None },
        }
    }
}

/// The positions of the parameters that the arguments fill, one per
/// argument, or the first problem with them. `total` is the number of
/// arguments of the whole call.
pub open spec fn fill_outcome(
    ns: Seq<(Seq<char>, Option<Seq<char>>, bool)>,
    args: Seq<(Option<Ident>, Expr)>,
    callee: Seq<char>,
    name: Seq<char>,
    total: nat,
    span: Span,
) -> Result<Seq<int>, ErrorView>
    decreases args.len(),
{
    if args.len() == 0 {
        Ok(seq![])
    } else {
        match fill_outcome(ns, args.drop_last(), callee, name, total, span) {
            Err(e) => Err(e),
            Ok(filled) => {
                let index = match args.last().0 {
                    None => Some(args.len() - 1),
                    Some(l) => label_index(ns, l.name@),
                };
                match index {
                    None => Err(ErrorView::NoMatchingOverload { function: name, span }),
                    Some(i) => if i >= ns.len() {
                        Err(ErrorView::ArgumentCountMismatch { callee, expected: ns.len() as usize, actual: total as usize, span })
                    } else if filled.contains(i) {
                        Err(ErrorView::DuplicateDefinition { name: "argument '"@ + ns[i].0 + "'"@, span })
                    } else {
                        Ok(filled.push(i))
                    },
                }
            },
        }
    }
}

/// How many parameters have no default.
pub open spec fn required_count(ns: Seq<(Seq<char>, Option<Seq<char>>, bool)>) -> nat
    decreases ns.len(),
{
    if ns.len() == 0 { 0 } else { required_count(ns.drop_last()) + if ns.last().2 { 0nat } else { 1nat } }
}

/// The first problem with the shape of a call of a function whose
/// parameters are `params`, or `None` when it has none.
pub open spec fn call_shape_error(callee: Seq<char>, name: Seq<char>, params: Seq<ParamView>, args: Seq<(Option<Ident>, Expr)>, span: Span) -> Option<ErrorView> {
    shape_error_of(callee, name, call_params(params), args, span)
}

/// The parameters of a symbol-table function that take an argument, as
/// the shape check reads them.
pub open spec fn info_call_params(ps: Seq<ParamInfo>) -> Seq<(Seq<char>, Option<Seq<char>>, bool)>
    decreases ps.len(),
{
    if ps.len() == 0 {
        seq![]
    } else {
        info_call_params(ps.drop_last()) + if ps.last().name.name@ == "self"@ {
            Seq::<(Seq<char>, Option<Seq<char>>, bool)>::empty()
        } else {
            seq![(ps.last().name.name@, match ps.last().external_label {
                Some(l) => Some(l.name@),
                None => None,
            }, ps.last().default is Some)]
        }
    }
}

/// The first problem with the shape of a call of a function whose
/// parameters that take an argument are `ns`.
pub open spec fn shape_error_of(callee: Seq<char>, name: Seq<char>, ns: Seq<(Seq<char>, Option<Seq<char>>, bool)>, args: Seq<(Option<Ident>, Expr)>, span: Span) -> Option<ErrorView> {
    match repeated_label(args) {
        Some(l) => Some(ErrorView::DuplicateDefinition { name: "argument '"@ + l.name@ + "'"@, span: l.span }),
        None => if args.len() > ns.len() {
            Some(ErrorView::ArgumentCountMismatch { callee, expected: ns.len() as usize, actual: args.len() as usize, span })
        } else {
            match fill_outcome(ns, args, callee, name, args.len(), span) {
                Err(e) => Some(e),
                Ok(filled) => if exists|i: int| 0 <= i < ns.len() && !(#[trigger] ns[i]).2 && !filled.contains(i) {
                    Some(ErrorView::ArgumentCountMismatch { callee, expected: required_count(ns) as usize, actual: args.len() as usize, span })
                } else {
                    None
                },
            }
        },
    }
}

/// The views of the parameters of a symbol-table function.
pub fn info_param_views(params: &Vec<ParamInfo>) -> (r: Vec<ParamView<'_>>)
    ensures
        call_params(r@) == info_call_params(params@),
{
    let mut out: Vec<ParamView> = Vec::new();
    let mut i: usize = 0;
    while i < params.len()
        invariant
            i <= params@.len(),
            call_params(out@) == info_call_params(params@.take(i as int)),
        decreases params.len() - i,
    {
        let v = ParamView::of_param_info(&params[i]);
        let ghost before = out@;
        out.push(v);
        proof {
            assert(out@.drop_last() =~= before);
            assert(params@.take(i + 1).drop_last() =~= params@.take(i as int));
            assert(params@.take(i + 1).last() == params@[i as int]);
            assert(param_view(v) == (params@[i as int].name.name@, match params@[i as int].external_label {
                Some(l) => Some(l.name@),
                None => None,
            }, params@[i as int].default is Some));
        }
        i += 1;
    }
    assert(params@.take(i as int) =~= params@);
    out
}

/// An error found at a prefix of the arguments is the error of all of them.
proof fn lemma_fill_error_stays(
    ns: Seq<(Seq<char>, Option<Seq<char>>, bool)>,
    args: Seq<(Option<Ident>, Expr)>,
    k: int,
    callee: Seq<char>,
    name: Seq<char>,
    total: nat,
    span: Span,
)
    requires
        0 <= k <= args.len(),
        fill_outcome(ns, args.take(k), callee, name, total, span) is Err,
    ensures
        fill_outcome(ns, args, callee, name, total, span) == fill_outcome(ns, args.take(k), callee, name, total, span),
    decreases args.len() - k,
{
    if k < args.len() {
        assert(args.take(k + 1).drop_last() =~= args.take(k));
        lemma_fill_error_stays(ns, args, k + 1, callee, name, total, span);
    } else {
        assert(args.take(k) =~= args);
    }
}

/// The positions as integers.
pub open spec fn positions(v: Seq<usize>) -> Seq<int> {
    v.map_values(|x: usize| x as int)
}

fn holds_position(v: &Vec<usize>, x: usize) -> (r: bool)
    ensures
        r == positions(v@).contains(x as int),
{
    let mut i: usize = 0;
    while i < v.len()
        invariant
            i <= v@.len(),
            forall|j: int| 0 <= j < i ==> v@[j] != x,
        decreases v.len() - i,
    {
        if v[i] == x {
            assert(positions(v@)[i as int] == x as int);
            return true;
        }
        i += 1;
    }
    assert forall|j: int| 0 <= j < positions(v@).len() implies positions(v@)[j] != x as int by {
        assert(v@[j] != x);
    }
    false
}

/// The views of a list of borrowed parameter views.
pub open spec fn borrowed_views(s: Seq<&ParamView>) -> Seq<(Seq<char>, Option<Seq<char>>, bool)> {
    s.map_values(|p: &ParamView| param_view(*p))
}

/// The position of the first parameter of `ns` that the label `label`
/// names.
fn find_label_index(ns: &Vec<&ParamView>, label: &str) -> (r: Option<usize>)
    ensures
        r is None <==> label_index(borrowed_views(ns@), label@) is None,
        r matches Some(i) ==> label_index(borrowed_views(ns@), label@) == Some(i as int),
{
    let ghost bs = borrowed_views(ns@);
    let mut i: usize = 0;
    while i < ns.len()
        invariant
            i <= ns@.len(),
            bs == borrowed_views(ns@),
            label_index(bs.take(i as int), label@) is None,
        decreases ns.len() - i,
    {
        proof {
            assert(bs.take(i + 1).drop_last() =~= bs.take(i as int));
            assert(bs.take(i + 1).last() == param_view(*ns@[i as int]));
        }
        let p = ns[i];
        let by_label = match p.external_label {
            Some(l) => str_equals(l, label),
            None => false,
        };
        if by_label || str_equals(p.name, label) {
            proof { lemma_label_index_prefix(bs, i as int + 1, label@); }
            return Some(i);
        }
        i += 1;
    }
    assert(bs.take(i as int) =~= bs);
    None
}

/// A label found among the first `k` parameters is found there among
/// all of them.
proof fn lemma_label_index_prefix(ns: Seq<(Seq<char>, Option<Seq<char>>, bool)>, k: int, l: Seq<char>)
    requires
        0 <= k <= ns.len(),
        label_index(ns.take(k), l) is Some,
    ensures
        label_index(ns, l) == label_index(ns.take(k), l),
    decreases ns.len() - k,
{
    if k < ns.len() {
        assert(ns.take(k + 1).drop_last() =~= ns.take(k));
        lemma_label_index_prefix(ns, k + 1, l);
    } else {
        assert(ns.take(k) =~= ns);
    }
}

impl SemanticAnalyzer {
    /// A label may appear once in a call. Return false, and report the
    /// label, when one appears twice.
    pub fn check_repeated_labels(&mut self, args: &Vec<(Option<Ident>, Expr)>) -> (r: bool)
        ensures
            final(self).same_state(*old(self)),
            r == repeated_label(args@) is None,
            error_views(final(self).errors@) == error_views(old(self).errors@) + match repeated_label(args@) {
                Some(l) => seq![ErrorView::DuplicateDefinition { name: "argument '"@ + l.name@ + "'"@, span: l.span }],
                None => Seq::<ErrorView>::empty(),
            },
    {
        let ghost s0 = *self;
        let mut seen: Vec<String> = Vec::new();
        let mut k: usize = 0;
        while k < args.len()
            invariant
                k <= args@.len(),
                *self == s0,
                repeated_label(args@.take(k as int)) is None,
                views(seen@) == given_labels(args@.take(k as int)),
            decreases args.len() - k,
        {
            proof {
                assert(args@.take(k + 1).drop_last() =~= args@.take(k as int));
                assert(args@.take(k + 1).last() == args@[k as int]);
            }
            if let Some(label) = &args[k].0 {
                if list_contains(&seen, label.name.as_str()) {
                    proof { lemma_repeated_label_stays(args@, k as int + 1); }
                    let mut message = String::from_str("argument '");
                    message.append(label.name.as_str());
                    message.append("'");
                    self.report(CompilerError::DuplicateDefinition { name: message, span: label.span });
                    return false;
                }
                let ghost sb = seen@;
                let copy = label.name.clone();
                seen.push(copy);
                proof { lemma_views_push(sb, copy); }
            } else {
                assert(views(seen@) =~= given_labels(args@.take(k + 1)));
            }
            k += 1;
        }
        assert(args@.take(k as int) =~= args@);
        assert(error_views(self.errors@) =~= error_views(self.errors@) + Seq::<ErrorView>::empty());
        true
    }

    /// Check the labels and the count of `args` against `params`. `callee`
    /// names the function in a message, for example `Function 'f'`; `name`
    /// is its bare name. Return false when the shape is wrong: the check
    /// reports the first problem only, because the later ones follow from
    /// it.
    pub fn validate_call_shape(&mut self, callee: &str, name: &str, params: &Vec<ParamView>, args: &Vec<(Option<Ident>, Expr)>, span: Span) -> (r: bool)
        ensures
            final(self).same_state(*old(self)),
            r == call_shape_error(callee@, name@, params@, args@, span) is None,
            error_views(final(self).errors@) == error_views(old(self).errors@) + match call_shape_error(callee@, name@, params@, args@, span) {
                Some(e) => seq![e],
                None => Seq::<ErrorView>::empty(),
            },
    {
        let ghost ns = call_params(params@);
        let mut non_self: Vec<&ParamView> = Vec::new();
        let mut i: usize = 0;
        while i < params.len()
            invariant
                i <= params@.len(),
                borrowed_views(non_self@) == call_params(params@.take(i as int)),
            decreases params.len() - i,
        {
            proof {
                assert(params@.take(i + 1).drop_last() =~= params@.take(i as int));
                assert(params@.take(i + 1).last() == params@[i as int]);
            }
            let ghost nb = non_self@;
            if !str_equals(params[i].name, "self") {
                non_self.push(&params[i]);
                assert(borrowed_views(non_self@) =~= borrowed_views(nb).push(param_view(params@[i as int])));
            } else {
                assert(borrowed_views(non_self@) =~= borrowed_views(nb) + Seq::<(Seq<char>, Option<Seq<char>>, bool)>::empty());
            }
            i += 1;
        }
        assert(params@.take(i as int) =~= params@);
        assert(borrowed_views(non_self@) == ns);

        if !self.check_repeated_labels(args) {
            return false;
        }
        if args.len() > non_self.len() {
            self.report(CompilerError::ArgumentCountMismatch {
                callee: String::from_str(callee),
                expected: non_self.len(),
                actual: args.len(),
                span,
            });
            return false;
        }
        let mut filled: Vec<usize> = Vec::new();
        assert(args@.take(0) =~= Seq::<(Option<Ident>, Expr)>::empty());
        assert(positions(filled@) =~= Seq::<int>::empty());
        let ghost s1 = *self;
        let mut k: usize = 0;
        while k < args.len()
            invariant
                k <= args@.len(),
                args@.len() <= non_self@.len(),
                borrowed_views(non_self@) == ns,
                *self == s1,
                fill_outcome(ns, args@.take(k as int), callee@, name@, args@.len(), span) == Ok::<Seq<int>, ErrorView>(positions(filled@)),
                forall|j: int| 0 <= j < filled@.len() ==> filled@[j] < non_self@.len(),
            decreases args.len() - k,
        {
            proof {
                assert(args@.take(k + 1).drop_last() =~= args@.take(k as int));
                assert(args@.take(k + 1).last() == args@[k as int]);
                assert(args@.take(k + 1).len() - 1 == k);
            }
            let index: usize = match &args[k].0 {
                None => k,
                Some(label) => match find_label_index(&non_self, label.name.as_str()) {
                    Some(found) => found,
                    None => {
                        proof { lemma_fill_error_stays(ns, args@, k as int + 1, callee@, name@, args@.len(), span); }
                        self.report(CompilerError::NoMatchingOverload { function: String::from_str(name), span });
                        return false;
                    },
                },
            };
            if index >= non_self.len() {
                proof { lemma_fill_error_stays(ns, args@, k as int + 1, callee@, name@, args@.len(), span); }
                self.report(CompilerError::ArgumentCountMismatch {
                    callee: String::from_str(callee),
                    expected: non_self.len(),
                    actual: args.len(),
                    span,
                });
                return false;
            }
            if holds_position(&filled, index) {
                proof { lemma_fill_error_stays(ns, args@, k as int + 1, callee@, name@, args@.len(), span); }
                let mut message = String::from_str("argument '");
                message.append(non_self[index].name);
                message.append("'");
                self.report(CompilerError::DuplicateDefinition { name: message, span });
                return false;
            }
            let ghost fb = filled@;
            filled.push(index);
            assert(positions(filled@) =~= positions(fb).push(index as int));
            k += 1;
        }
        assert(args@.take(k as int) =~= args@);
        let mut required: usize = 0;
        let mut missing = false;
        let mut j: usize = 0;
        while j < non_self.len()
            invariant
                j <= non_self@.len(),
                *self == s1,
                borrowed_views(non_self@) == ns,
                required == required_count(ns.take(j as int)),
                required <= j,
                missing == exists|i: int| 0 <= i < j && !(#[trigger] ns[i]).2 && !positions(filled@).contains(i),
            decreases non_self.len() - j,
        {
            proof {
                assert(ns.take(j + 1).drop_last() =~= ns.take(j as int));
                assert(ns[j as int] == param_view(*non_self@[j as int]));
            }
            if !non_self[j].has_default {
                required += 1;
                if !holds_position(&filled, j) {
                    missing = true;
                }
            }
            j += 1;
        }
        assert(ns.take(j as int) =~= ns);
        if missing {
            self.report(CompilerError::ArgumentCountMismatch {
                callee: String::from_str(callee),
                expected: required,
                actual: args.len(),
                span,
            });
            return false;
        }
        assert(error_views(self.errors@) =~= error_views(self.errors@) + Seq::<ErrorView>::empty());
        true
    }

    /// Check the arguments of a call through a closure-typed binding whose
    /// parameters are `params`: a closure type has no parameter names, so
    /// each label is reported; the call gives exactly one argument per
    /// parameter; and each argument whose parameter has a type must fit
    /// it. `arg_types[i]` is the type inference gives argument `i`, and
    /// `fits[i]` whether that type satisfies the parameter's.
    pub fn validate_closure_call_shape(
        &mut self,
        params: &Vec<(ParamConvention, SemType)>,
        args: &Vec<(Option<Ident>, Expr)>,
        arg_types: &Vec<SemType>,
        fits: &Vec<bool>,
        span: Span,
    )
        requires
            arg_types@.len() == args@.len(),
            fits@.len() == args@.len(),
        ensures
            final(self).same_state(*old(self)),
            error_views(final(self).errors@) == error_views(old(self).errors@) + closure_label_reports(args@) + if args@.len() != params@.len() {
                seq![ErrorView::ArgumentCountMismatch { callee: "This closure"@, expected: params@.len() as usize, actual: args@.len() as usize, span }]
            } else {
                closure_arg_type_reports(params@, args@, type_views(arg_types@), fits@, args@.len() as int)
            },
    {
        let ghost e0 = error_views(self.errors@);
        let ghost s0 = *self;
        let mut k: usize = 0;
        while k < args.len()
            invariant
                k <= args@.len(),
                self.same_state(s0),
                error_views(self.errors@) == e0 + closure_label_reports(args@.take(k as int)),
            decreases args.len() - k,
        {
            proof {
                assert(args@.take(k + 1).drop_last() =~= args@.take(k as int));
                assert(args@.take(k + 1).last() == args@[k as int]);
            }
            if let Some(label) = &args[k].0 {
                self.report(CompilerError::LabelledClosureArgument { label: label.name.clone(), span: label.span });
            } else {
                assert(error_views(self.errors@) =~= error_views(self.errors@) + Seq::<ErrorView>::empty());
            }
            k += 1;
        }
        assert(args@.take(k as int) =~= args@);
        if args.len() != params.len() {
            self.report(CompilerError::ArgumentCountMismatch {
                callee: String::from_str("This closure"),
                expected: params.len(),
                actual: args.len(),
                span,
            });
            return;
        }
        let ghost e1 = error_views(self.errors@);
        let mut i: usize = 0;
        while i < args.len()
            invariant
                i <= args@.len(),
                args@.len() == params@.len(),
                arg_types@.len() == args@.len(),
                fits@.len() == args@.len(),
                self.same_state(s0),
                error_views(self.errors@) == e1 + closure_arg_type_reports(params@, args@, type_views(arg_types@), fits@, i as int),
            decreases args.len() - i,
        {
            let declared = &params[i].1;
            if !declared.is_indeterminate() && !fits[i] {
                let expected = declared.display();
                let found = arg_types[i].display();
                self.report(CompilerError::TypeMismatch { expected, found, span: args[i].1.span() });
            } else {
                assert(error_views(self.errors@) =~= error_views(self.errors@) + Seq::<ErrorView>::empty());
            }
            i += 1;
        }
    }

    /// With no type arguments written, each type parameter of `function`
    /// must be fixed by an argument: some parameter whose type mentions it
    /// and that the call gives (it has no default, or the call names it by
    /// its label or name).
    pub fn check_type_params_given(
        &mut self,
        function: &str,
        params: &Vec<ParamInfo>,
        generics: &Vec<GenericParam>,
        type_args: &Vec<Type>,
        args: &Vec<(Option<Ident>, Expr)>,
        span: Span,
    )
        ensures
            final(self).same_state(*old(self)),
            error_views(final(self).errors@) == error_views(old(self).errors@) + if type_args@.len() > 0 {
                Seq::<ErrorView>::empty()
            } else {
                unfixed_reports(generics@, params@, args@, function@, span)
            },
    {
        if type_args.len() > 0 {
            assert(error_views(self.errors@) =~= error_views(self.errors@) + Seq::<ErrorView>::empty());
            return;
        }
        let ghost e0 = error_views(self.errors@);
        let ghost s0 = *self;
        let mut g: usize = 0;
        while g < generics.len()
            invariant
                g <= generics@.len(),
                self.same_state(s0),
                error_views(self.errors@) == e0 + unfixed_reports(generics@.take(g as int), params@, args@, function@, span),
            decreases generics.len() - g,
        {
            proof {
                assert(generics@.take(g + 1).drop_last() =~= generics@.take(g as int));
                assert(generics@.take(g + 1).last() == generics@[g as int]);
            }
            let mut name: Vec<String> = Vec::new();
            name.push(generics[g].name.name.clone());
            assert(views(name@) =~= seq![generics@[g as int].name.name@]);
            let mut mentioned = false;
            let mut p: usize = 0;
            while p < params.len()
                invariant
                    p <= params@.len(),
                    views(name@) == seq![generics@[g as int].name.name@],
                    mentioned == exists|i: int| 0 <= i < p && #[trigger] fixes(params@[i], args@, generics@[g as int].name.name@),
                decreases params.len() - p,
            {
                let param = &params[p];
                let given = param.default.is_none() || labelled_by(args, match &param.external_label {
                    Some(l) => l.name.as_str(),
                    None => param.name.name.as_str(),
                });
                let names_it = match &param.ty {
                    Some(ty) => type_mentions_any(ty, &name),
                    None => false,
                };
                if given && names_it {
                    mentioned = true;
                }
                assert(fixes(params@[p as int], args@, generics@[g as int].name.name@) == (given && names_it));
                p += 1;
            }
            if !mentioned {
                self.report(CompilerError::UninferableMethodTypeParameter {
                    param: generics[g].name.name.clone(),
                    method: String::from_str(function),
                    span,
                });
            } else {
                assert(error_views(self.errors@) =~= error_views(self.errors@) + Seq::<ErrorView>::empty());
            }
            g += 1;
        }
        assert(generics@.take(g as int) =~= generics@);
    }
}

/// The views of a list of types.
pub open spec fn type_views(ts: Seq<SemType>) -> Seq<SType> {
    ts.map_values(|t: SemType| t@)
}

/// A `TypeMismatch` for each of the first `n` arguments whose parameter
/// has a type that the argument's type, `found[i]`, does not satisfy
/// (`fits[i]` false).
pub open spec fn closure_arg_type_reports(
    params: Seq<(ParamConvention, SemType)>,
    args: Seq<(Option<Ident>, Expr)>,
    found: Seq<SType>,
    fits: Seq<bool>,
    n: int,
) -> Seq<ErrorView>
    decreases n,
{
    if n <= 0 {
        seq![]
    } else {
        let i = n - 1;
        closure_arg_type_reports(params, args, found, fits, i) + if !(params[i].1@ is Unknown || params[i].1@ is InferredEnum) && !fits[i] {
            seq![ErrorView::TypeMismatch { expected: display_of(params[i].1@), found: display_of(found[i]), span: expr_span(args[i].1) }]
        } else {
            Seq::<ErrorView>::empty()
        }
    }
}

/// A `LabelledClosureArgument` for each labelled argument.
pub open spec fn closure_label_reports(args: Seq<(Option<Ident>, Expr)>) -> Seq<ErrorView>
    decreases args.len(),
{
    if args.len() == 0 {
        seq![]
    } else {
        closure_label_reports(args.drop_last()) + match args.last().0 {
            Some(l) => seq![ErrorView::LabelledClosureArgument { label: l.name@, span: l.span }],
            None => Seq::<ErrorView>::empty(),
        }
    }
}

/// The parameter `p` fixes the type parameter `g` in a call with the
/// arguments `args`: its type mentions `g`, and the call gives it.
pub open spec fn fixes(p: ParamInfo, args: Seq<(Option<Ident>, Expr)>, g: Seq<char>) -> bool {
    let label = match p.external_label {
        Some(l) => l.name@,
        None => p.name.name@,
    };
    &&& (p.default is None || given_labels(args).contains(label))
    &&& (p.ty matches Some(t) && mentions_any(t, seq![g]))
}

/// An `UninferableMethodTypeParameter` for each of `generics` that no
/// parameter fixes.
pub open spec fn unfixed_reports(generics: Seq<GenericParam>, params: Seq<ParamInfo>, args: Seq<(Option<Ident>, Expr)>, function: Seq<char>, span: Span) -> Seq<ErrorView>
    decreases generics.len(),
{
    if generics.len() == 0 {
        seq![]
    } else {
        let g = generics.last().name.name@;
        unfixed_reports(generics.drop_last(), params, args, function, span) + if exists|i: int| 0 <= i < params.len() && #[trigger] fixes(params[i], args, g) {
            Seq::<ErrorView>::empty()
        } else {
            seq![ErrorView::UninferableMethodTypeParameter { param: g, method: function, span }]
        }
    }
}

/// True when some argument has the label `label`.
fn labelled_by(args: &Vec<(Option<Ident>, Expr)>, label: &str) -> (r: bool)
    ensures
        r == given_labels(args@).contains(label@),
{
    let mut seen: Vec<String> = Vec::new();
    let mut k: usize = 0;
    while k < args.len()
        invariant
            k <= args@.len(),
            views(seen@) == given_labels(args@.take(k as int)),
        decreases args.len() - k,
    {
        proof {
            assert(args@.take(k + 1).drop_last() =~= args@.take(k as int));
            assert(args@.take(k + 1).last() == args@[k as int]);
        }
        if let Some(l) = &args[k].0 {
            let ghost sb = seen@;
            let copy = l.name.clone();
            seen.push(copy);
            proof { lemma_views_push(sb, copy); }
        } else {
            assert(views(seen@) =~= given_labels(args@.take(k + 1)));
        }
        k += 1;
    }
    assert(args@.take(k as int) =~= args@);
    list_contains(&seen, label)
}

/// A repeated label found among the first `k` arguments is the repeated
/// label of all of them.
proof fn lemma_repeated_label_stays(args: Seq<(Option<Ident>, Expr)>, k: int)
    requires
        0 <= k <= args.len(),
        repeated_label(args.take(k)) is Some,
    ensures
        repeated_label(args) == repeated_label(args.take(k)),
    decreases args.len() - k,
{
    if k < args.len() {
        assert(args.take(k + 1).drop_last() =~= args.take(k));
        lemma_repeated_label_stays(args, k + 1);
    } else {
        assert(args.take(k) =~= args);
    }
}

/// The parameters that take an argument, with their types: all but
/// `self`.
pub open spec fn arg_views(ps: Seq<ParamView>) -> Seq<ParamView>
    decreases ps.len(),
{
    if ps.len() == 0 {
        seq![]
    } else {
        arg_views(ps.drop_last()) + if ps.last().name@ == "self"@ { Seq::<ParamView>::empty() } else { seq![ps.last()] }
    }
}

/// The first parameter of `ns` that the label `l` names.
pub open spec fn view_labelled(ns: Seq<ParamView>, l: Seq<char>) -> Option<ParamView>
    decreases ns.len(),
{
    if ns.len() == 0 {
        None
    } else {
        match view_labelled(ns.drop_last(), l) {
            Some(p) => Some(p),
            None => if (ns.last().external_label matches Some(x) && x@ == l) || ns.last().name@ == l {
                Some(ns.last())
            } else {
                None
            },
        }
    }
}

/// The declared type of the parameter that the argument at `index` with
/// `label` fills; `Unknown` when none fits or it has no type.
pub open spec fn argument_type(params: Seq<ParamView>, index: int, label: Option<Ident>) -> SType {
    let ns = arg_views(params);
    let chosen = match label {
        None => if 0 <= index < ns.len() { Some(ns[index]) } else { None },
        Some(l) => view_labelled(ns, l.name@),
    };
    match chosen {
        Some(p) => match p.ty {
            Some(t) => sem_of(*t),
            None => SType::Unknown,
        },
        None => SType::Unknown,
    }
}

/// A declared type and an inferred one have the same outermost
/// constructor, as far as a declared type that names a type parameter
/// says anything about it. An indeterminate inferred type agrees with
/// everything.
pub open spec fn shapes_agree(declared: Type, inferred: SType) -> bool {
    if inferred is Unknown || inferred is InferredEnum {
        true
    } else {
        match declared {
            Type::Closure { params, .. } => inferred is Closure && inferred->params.len() == params@.len(),
            Type::Array(_) => inferred is Array,
            Type::Dictionary { .. } => inferred is Dictionary,
            Type::Tuple(_) => inferred is Tuple,
            _ => true,
        }
    }
}

impl SemanticAnalyzer {
    /// The declared type of the parameter among `params` that the argument
    /// at `index` with `label` fills: by position without a label, else the
    /// parameter the label names. `Unknown` when no parameter fits, or
    /// when it has no type.
    pub fn expected_argument(params: &Vec<ParamView>, index: usize, label: Option<&Ident>) -> (r: SemType)
        ensures
            r@ == argument_type(params@, index as int, match label {
                Some(l) => Some(*l),
                None => None,
            }),
    {
        let mut non_self: Vec<&ParamView> = Vec::new();
        let mut i: usize = 0;
        while i < params.len()
            invariant
                i <= params@.len(),
                non_self@.map_values(|p: &ParamView| *p) == arg_views(params@.take(i as int)),
            decreases params.len() - i,
        {
            proof {
                assert(params@.take(i + 1).drop_last() =~= params@.take(i as int));
                assert(params@.take(i + 1).last() == params@[i as int]);
            }
            let ghost nb = non_self@;
            if !str_equals(params[i].name, "self") {
                non_self.push(&params[i]);
                assert(non_self@.map_values(|p: &ParamView| *p) =~= nb.map_values(|p: &ParamView| *p).push(params@[i as int]));
            } else {
                assert(non_self@.map_values(|p: &ParamView| *p) =~= nb.map_values(|p: &ParamView| *p) + Seq::<ParamView>::empty());
            }
            i += 1;
        }
        assert(params@.take(i as int) =~= params@);
        let ghost ns = arg_views(params@);
        let chosen: Option<&ParamView> = match label {
            None => if index < non_self.len() { Some(non_self[index]) } else { None },
            Some(l) => {
                let mut found: Option<&ParamView> = None;
                let mut k: usize = 0;
                while k < non_self.len()
                    invariant
                        k <= non_self@.len(),
                        ns == non_self@.map_values(|p: &ParamView| *p),
                        found matches Some(p) ==> view_labelled(ns, l.name@) == Some(*p),
                        found is None ==> view_labelled(ns.take(k as int), l.name@) is None,
                    decreases non_self.len() - k,
                {
                    if found.is_some() {
                        break;
                    }
                    proof {
                        assert(ns.take(k + 1).drop_last() =~= ns.take(k as int));
                        assert(ns.take(k + 1).last() == *non_self@[k as int]);
                    }
                    let p = non_self[k];
                    let by_label = match p.external_label {
                        Some(x) => str_equals(x, l.name.as_str()),
                        None => false,
                    };
                    if by_label || str_equals(p.name, l.name.as_str()) {
                        proof { lemma_view_labelled_prefix(ns, k as int + 1, l.name@); }
                        found = Some(p);
                    }
                    k += 1;
                }
                if found.is_none() {
                    assert(ns.take(k as int) =~= ns);
                }
                found
            },
        };
        match chosen {
            Some(p) => match p.ty {
                Some(t) => SemType::from_ast(t),
                None => SemType::Unknown,
            },
            None => SemType::Unknown,
        }
    }

    /// Whether a declared type and an inferred one have the same outer
    /// shape; the comparison stops at the outermost constructor.
    pub fn outer_shapes_agree(declared: &Type, inferred: &SemType) -> (r: bool)
        ensures
            r == shapes_agree(*declared, inferred@),
    {
        if inferred.is_indeterminate() {
            return true;
        }
        match declared {
            Type::Closure { params, .. } => match inferred {
                SemType::Closure { params: found, .. } => {
                    proof { crate::sem_type::lemma_view_params_len(found@); }
                    found.len() == params.len()
                },
                _ => false,
            },
            Type::Array(_) => match inferred {
                SemType::Array(_) => true,
                _ => false,
            },
            Type::Dictionary { .. } => match inferred {
                SemType::Dictionary { .. } => true,
                _ => false,
            },
            Type::Tuple(_) => match inferred {
                SemType::Tuple(_) => true,
                _ => false,
            },
            _ => true,
        }
    }
}

proof fn lemma_view_labelled_prefix(ns: Seq<ParamView>, k: int, l: Seq<char>)
    requires
        0 <= k <= ns.len(),
        view_labelled(ns.take(k), l) is Some,
    ensures
        view_labelled(ns, l) == view_labelled(ns.take(k), l),
    decreases ns.len() - k,
{
    if k < ns.len() {
        assert(ns.take(k + 1).drop_last() =~= ns.take(k));
        lemma_view_labelled_prefix(ns, k + 1, l);
    } else {
        assert(ns.take(k) =~= ns);
    }
}

} // verus!

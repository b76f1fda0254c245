//! Checks of a `let` binding against its annotation, given what the
//! analysis of its value says, and what a module-level `let` records of a
//! binding that holds a closure value.

use vstd::prelude::*;
use vstd::string::StringExecFns;
use vstd::string::StrSliceExecFns;
use crate::analyzer::{lookup_names, SemanticAnalyzer};
use crate::ast::{ClosureParam, Expr, LetBinding, Literal, ParamConvention, Span, Type};
use crate::block_scope::lemma_lookup_in_front;
use crate::closure_expr::lemma_param_scope;
use crate::closures::copy_names;
use crate::error::{error_views, CompilerError, ErrorView};
use crate::expr_checks::{destructuring_reports, name_dup_reports};
use crate::free_vars::{closure_param_names, closure_params_scope, dedup_into, free_refs, scope_set};
use crate::patterns::{ident_names, pattern_binding_names, pattern_names};
use crate::sem_type::{display_of, sem_of, SType, SemType};
use crate::text::views;
use crate::type_validation::{type_params_in_scope, type_reports};

verus! {

broadcast use vstd::std_specs::vec::group_vec_axioms;

/// The expression is the literal `nil`.
pub open spec fn is_nil_literal(e: Expr) -> bool {
    e matches Expr::Literal { value: Literal::Nil, .. }
}

/// What an immutable `let` annotated `ty` with the value `value` reports:
/// an array of optional elements, given as a literal with at least one
/// element and no `nil`, could have plain elements.
pub open spec fn optional_element_reports(ty: Type, value: Expr, mutable: bool, span: Span) -> Seq<ErrorView> {
    if mutable {
        seq![]
    } else {
        match ty {
            Type::Array(element) => match *element {
                Type::Optional(inner) => match value {
                    Expr::Array { elements, .. } => if elements@.len() > 0
                        && forall|i: int| 0 <= i < elements@.len() ==> !is_nil_literal(#[trigger] elements@[i]) {
                        seq![ErrorView::PointlessOptionalElement {
                            declared: display_of(sem_of(ty)),
                            suggested: "["@ + display_of(sem_of(*inner)) + "]"@,
                            span,
                        }]
                    } else {
                        seq![]
                    },
                    _ => seq![],
                },
                _ => seq![],
            },
            _ => seq![],
        }
    }
}

/// True when some element of `elements` is the literal `nil`.
fn holds_nil(elements: &Vec<Expr>) -> (r: bool)
    ensures
        r == exists|i: int| 0 <= i < elements@.len() && is_nil_literal(#[trigger] elements@[i]),
{
    let mut k: usize = 0;
    while k < elements.len()
        invariant
            k <= elements@.len(),
            forall|i: int| 0 <= i < k ==> !is_nil_literal(#[trigger] elements@[i]),
        decreases elements.len() - k,
    {
        match &elements[k] {
            Expr::Literal { value: Literal::Nil, .. } => {
                assert(is_nil_literal(elements@[k as int]));
                return true;
            },
            _ => {},
        }
        k += 1;
    }
    false
}

impl SemanticAnalyzer {
    /// Report an immutable array annotated with optional elements whose
    /// literal holds no `nil`: its elements could be plain. A mutable
    /// binding may take `nil` later, and an empty literal says nothing.
    pub fn check_optional_elements_are_used(&mut self, type_ann: &Type, value: &Expr, mutable: bool, span: Span)
        ensures
            final(self).same_state(*old(self)),
            error_views(final(self).errors@) == error_views(old(self).errors@)
                + optional_element_reports(*type_ann, *value, mutable, span),
    {
        let ghost e0 = error_views(self.errors@);
        proof {
            assert(e0 =~= e0 + Seq::<ErrorView>::empty());
        }
        if mutable {
            return;
        }
        let element = match type_ann {
            Type::Array(element) => element,
            _ => return,
        };
        let inner = match &**element {
            Type::Optional(inner) => inner,
            _ => return,
        };
        let elements = match value {
            Expr::Array { elements, .. } => elements,
            _ => return,
        };
        if elements.len() == 0 || holds_nil(elements) {
            return;
        }
        let declared = SemType::from_ast(type_ann).display();
        let mut suggested = String::from_str("[");
        suggested.append(SemType::from_ast(inner).display().as_str());
        suggested.append("]");
        self.report(CompilerError::PointlessOptionalElement { declared, suggested, span });
    }
}

/// What the analysis of a `let` value says of it: its type, whether it
/// satisfies the declared type, and, for a closure literal bound under a
/// closure annotation of as many parameters, the type of its body with the
/// declared parameter types in scope and whether that satisfies the return
/// type the literal or the annotation gives.
pub struct LetFacts {
    pub value_type: SemType,
    pub fits: bool,
    pub closure_body_type: SemType,
    pub closure_body_fits: bool,
}

/// A declared type that reads as optional: it ends with `?`.
pub open spec fn declared_optional(d: Seq<char>) -> bool {
    d.len() > 0 && d.last() == '?'
}

/// What a value of type `vt` reports against the annotation `ann`: `nil`
/// for a type that is not optional, or a value that does not satisfy it;
/// a closure literal under a closure type is left to its own check.
pub open spec fn let_annotation_reports(ann: Type, value: Expr, vt: SType, fits: bool, span: Span) -> Seq<ErrorView> {
    let declared = display_of(sem_of(ann));
    if vt is Nil && !declared_optional(declared) {
        seq![ErrorView::NilAssignedToNonOptional { expected: declared, span }]
    } else if !(ann is Closure && value is ClosureExpr) && !fits {
        seq![ErrorView::TypeMismatch { expected: declared, found: display_of(vt), span }]
    } else {
        seq![]
    }
}

/// A `.variant` bound with no annotation names no enum.
pub open spec fn inferred_enum_reports(ann: Option<Type>, value: Expr, vt: SType) -> Seq<ErrorView> {
    if ann is None && vt is InferredEnum {
        seq![ErrorView::CannotInferEnumType {
            variant: match value {
                Expr::InferredEnumInstantiation { variant, .. } => variant.name@,
                _ => Seq::<char>::empty(),
            },
            span: crate::ast::expr_span(value),
        }]
    } else {
        seq![]
    }
}

/// A closure literal under a closure annotation with as many parameters:
/// its body must satisfy the return type the literal declares, or else
/// the annotation's.
pub open spec fn closure_annotation_reports(ann: Option<Type>, value: Expr, body_ty: SType, body_fits: bool, span: Span) -> Seq<ErrorView> {
    match ann {
        Some(Type::Closure { params: declared, ret }) => match value {
            Expr::ClosureExpr { params, return_type, .. } => if params@.len() == declared@.len() && !body_fits {
                seq![ErrorView::TypeMismatch {
                    expected: match return_type {
                        Some(r) => display_of(sem_of(r)),
                        None => display_of(sem_of(*ret)),
                    },
                    found: display_of(body_ty),
                    span,
                }]
            } else {
                seq![]
            },
            _ => seq![],
        },
        _ => seq![],
    }
}

/// What a module-level `let` reports: its annotation as a type, the value
/// against the annotation, optional elements never used, a `.variant` with
/// no enum, a closure literal against a closure annotation, and the
/// pattern against the value.
pub open spec fn let_statement_reports(a: SemanticAnalyzer, b: LetBinding, f: LetFacts) -> Seq<ErrorView> {
    (match b.type_annotation {
        Some(t) => type_reports(a.symbols, type_params_in_scope(a), t, b.span)
            + let_annotation_reports(t, b.value, f.value_type@, f.fits, b.span)
            + optional_element_reports(t, b.value, b.mutable, b.span),
        None => Seq::<ErrorView>::empty(),
    })
        + inferred_enum_reports(b.type_annotation, b.value, f.value_type@)
        + closure_annotation_reports(b.type_annotation, b.value, f.closure_body_type@, f.closure_body_fits, b.span)
        + name_dup_reports(pattern_names(b.pattern))
        + destructuring_reports(a, b.pattern, b.value, f.value_type@, b.span)
}

/// The conventions a module-level `let` records for its bindings: those
/// its closure annotation declares, or, with no annotation, those of the
/// closure literal it binds.
pub open spec fn let_conventions(ann: Option<Type>, value: Expr) -> Option<Seq<ParamConvention>> {
    match ann {
        Some(Type::Closure { params, .. }) => Some(params@.map_values(|p: (ParamConvention, Type)| p.0)),
        Some(_) => None,
        None => match value {
            Expr::ClosureExpr { params, .. } => Some(params@.map_values(|p: ClosureParam| p.convention)),
            _ => None,
        },
    }
}

/// What a closure literal bound by a `let` captures.
pub open spec fn let_captures(value: Expr) -> Option<Seq<Seq<char>>> {
    match value {
        Expr::ClosureExpr { params, body, .. } => Some(dedup_into(seq![], free_refs(*body, closure_param_names(params@).to_set()))),
        _ => None,
    }
}

/// The conventions recorded first for `name`.
pub open spec fn lookup_conventions(entries: Seq<(String, Vec<ParamConvention>)>, name: Seq<char>) -> Option<Seq<ParamConvention>>
    decreases entries.len(),
{
    if entries.len() == 0 {
        None
    } else if entries[0].0@ == name {
        Some(entries[0].1@)
    } else {
        lookup_conventions(entries.drop_first(), name)
    }
}

/// What a lookup gives after a `let` records `recorded` for each name it
/// binds, when it records anything.
pub open spec fn after_recording<T>(before: Option<T>, binds: bool, recorded: Option<T>) -> Option<T> {
    if binds && recorded is Some { recorded } else { before }
}

proof fn lemma_conventions_in_front(entries: Seq<(String, Vec<ParamConvention>)>, entry: (String, Vec<ParamConvention>), m: Seq<char>)
    ensures
        lookup_conventions(seq![entry] + entries, m) == if entry.0@ == m { Some(entry.1@) } else { lookup_conventions(entries, m) },
{
    assert((seq![entry] + entries).drop_first() =~= entries);
}

/// A copy of a list of conventions.
fn copy_conventions(cs: &Vec<ParamConvention>) -> (r: Vec<ParamConvention>)
    ensures
        r@ == cs@,
{
    let mut out: Vec<ParamConvention> = Vec::new();
    let mut k: usize = 0;
    while k < cs.len()
        invariant
            k <= cs@.len(),
            out@ == cs@.take(k as int),
        decreases cs.len() - k,
    {
        out.push(cs[k]);
        assert(out@ =~= cs@.take(k + 1));
        k += 1;
    }
    assert(cs@.take(k as int) =~= cs@);
    out
}

/// True when the text `d` ends with `?`.
fn ends_with_question(d: &String) -> (r: bool)
    ensures
        r == declared_optional(d@),
{
    let n = d.as_str().unicode_len();
    if n == 0 {
        return false;
    }
    d.as_str().get_char(n - 1) == '?'
}

impl SemanticAnalyzer {
    /// Check a `let` value of type `vt` against the annotation `ann`.
    pub fn check_let_annotation(&mut self, ann: &Type, value: &Expr, vt: &SemType, fits: bool, span: Span)
        ensures
            final(self).same_state(*old(self)),
            error_views(final(self).errors@) == error_views(old(self).errors@) + let_annotation_reports(*ann, *value, vt@, fits, span),
    {
        let ghost e0 = error_views(self.errors@);
        let declared = SemType::from_ast(ann).display();
        let is_nil = match vt {
            SemType::Nil => true,
            _ => false,
        };
        if is_nil && !ends_with_question(&declared) {
            self.report(CompilerError::NilAssignedToNonOptional { expected: declared, span });
            return;
        }
        let closure_pair = match (ann, value) {
            (Type::Closure { .. }, Expr::ClosureExpr { .. }) => true,
            _ => false,
        };
        if !closure_pair && !fits {
            self.report(CompilerError::TypeMismatch { expected: declared, found: vt.display(), span });
        } else {
            assert(error_views(self.errors@) =~= e0 + Seq::<ErrorView>::empty());
        }
    }

    /// Report a `.variant` bound with no annotation: nothing names its enum.
    pub fn check_inferred_enum_has_a_context(&mut self, ann: Option<&Type>, value: &Expr, vt: &SemType)
        ensures
            final(self).same_state(*old(self)),
            error_views(final(self).errors@) == error_views(old(self).errors@) + inferred_enum_reports(
                match ann { Some(t) => Some(*t), None => None }, *value, vt@),
    {
        let ghost e0 = error_views(self.errors@);
        let inferred_enum = match vt {
            SemType::InferredEnum => true,
            _ => false,
        };
        if ann.is_some() || !inferred_enum {
            assert(error_views(self.errors@) =~= e0 + Seq::<ErrorView>::empty());
            return;
        }
        let variant = match value {
            Expr::InferredEnumInstantiation { variant, .. } => variant.name.clone(),
            _ => String::new(),
        };
        self.report(CompilerError::CannotInferEnumType { variant, span: value.span() });
    }

    /// Check a closure literal bound under a closure annotation of as many
    /// parameters: `body_ty` is the type of its body with the declared
    /// parameter types in scope, and `body_fits` whether it satisfies the
    /// return type.
    pub fn check_closure_literal_against_annotation(&mut self, ann: Option<&Type>, value: &Expr, body_ty: &SemType, body_fits: bool, span: Span)
        ensures
            final(self).same_state(*old(self)),
            error_views(final(self).errors@) == error_views(old(self).errors@) + closure_annotation_reports(
                match ann { Some(t) => Some(*t), None => None }, *value, body_ty@, body_fits, span),
    {
        let ghost e0 = error_views(self.errors@);
        if let Some(Type::Closure { params: declared, ret }) = ann {
            if let Expr::ClosureExpr { params, return_type, .. } = value {
                if params.len() == declared.len() && !body_fits {
                    let expected = match return_type {
                        Some(r) => SemType::from_ast(r).display(),
                        None => SemType::from_ast(ret).display(),
                    };
                    self.report(CompilerError::TypeMismatch { expected, found: body_ty.display(), span });
                    return;
                }
            }
        }
        assert(error_views(self.errors@) =~= e0 + Seq::<ErrorView>::empty());
    }

    /// Record, for each name that a module-level `let` binds, the
    /// conventions of the closure it holds and, for a closure literal,
    /// what that literal captures: for the module and for the function
    /// scope. A binding of anything else records nothing.
    pub fn record_closure_bindings(&mut self, b: &LetBinding)
        ensures
            forall|n: Seq<char>| #[trigger] lookup_conventions(final(self).closure_binding_conventions@, n) == after_recording(
                lookup_conventions(old(self).closure_binding_conventions@, n), ident_names(pattern_names(b.pattern)).contains(n),
                let_conventions(b.type_annotation, b.value)),
            forall|n: Seq<char>| #[trigger] lookup_names(final(self).closure_binding_captures@, n) == after_recording(
                lookup_names(old(self).closure_binding_captures@, n),
                ident_names(pattern_names(b.pattern)).contains(n) && let_conventions(b.type_annotation, b.value) is Some,
                let_captures(b.value)),
            forall|n: Seq<char>| #[trigger] lookup_names(final(self).fn_scope_closure_captures@, n) == after_recording(
                lookup_names(old(self).fn_scope_closure_captures@, n),
                ident_names(pattern_names(b.pattern)).contains(n) && let_conventions(b.type_annotation, b.value) is Some,
                let_captures(b.value)),
            final(self).errors == old(self).errors,
            final(self).same_state((SemanticAnalyzer {
                closure_binding_conventions: final(self).closure_binding_conventions,
                closure_binding_captures: final(self).closure_binding_captures,
                fn_scope_closure_captures: final(self).fn_scope_closure_captures,
                ..*old(self)
            })),
    {
        let ghost s0 = *self;
        let ghost conv_spec = let_conventions(b.type_annotation, b.value);
        let conventions: Vec<ParamConvention> = match (&b.type_annotation, &b.value) {
            (Some(Type::Closure { params, .. }), _) => {
                let mut out: Vec<ParamConvention> = Vec::new();
                let mut k: usize = 0;
                while k < params.len()
                    invariant
                        k <= params@.len(),
                        out@ == params@.take(k as int).map_values(|p: (ParamConvention, Type)| p.0),
                    decreases params.len() - k,
                {
                    out.push(params[k].0);
                    assert(out@ =~= params@.take(k + 1).map_values(|p: (ParamConvention, Type)| p.0));
                    k += 1;
                }
                assert(params@.take(k as int) =~= params@);
                out
            },
            (None, Expr::ClosureExpr { params, .. }) => {
                let mut out: Vec<ParamConvention> = Vec::new();
                let mut k: usize = 0;
                while k < params.len()
                    invariant
                        k <= params@.len(),
                        out@ == params@.take(k as int).map_values(|p: ClosureParam| p.convention),
                    decreases params.len() - k,
                {
                    out.push(params[k].convention);
                    assert(out@ =~= params@.take(k + 1).map_values(|p: ClosureParam| p.convention));
                    k += 1;
                }
                assert(params@.take(k as int) =~= params@);
                out
            },
            _ => {
                assert(conv_spec is None);
                return;
            },
        };
        assert(conv_spec == Some(conventions@));
        let captures: Option<Vec<String>> = match &b.value {
            Expr::ClosureExpr { params, body, .. } => {
                let scope = closure_params_scope(params);
                proof { lemma_param_scope(scope@, params@); }
                Some(Self::collect_free_variables(body, &scope))
            },
            _ => None,
        };
        let ghost caps_spec = let_captures(b.value);
        assert(match captures { Some(c) => caps_spec == Some(views(c@)), None => caps_spec is None });
        let names = pattern_binding_names(&b.pattern);
        let ghost bound = views(names@);
        let mut k: usize = 0;
        while k < names.len()
            invariant
                k <= names@.len(),
                bound == views(names@),
                bound == ident_names(pattern_names(b.pattern)),
                conv_spec == Some(conventions@),
                match captures { Some(c) => caps_spec == Some(views(c@)), None => caps_spec is None },
                forall|n: Seq<char>| #[trigger] lookup_conventions(self.closure_binding_conventions@, n) == after_recording(
                    lookup_conventions(s0.closure_binding_conventions@, n), bound.take(k as int).contains(n), conv_spec),
                forall|n: Seq<char>| #[trigger] lookup_names(self.closure_binding_captures@, n) == after_recording(
                    lookup_names(s0.closure_binding_captures@, n), bound.take(k as int).contains(n), caps_spec),
                forall|n: Seq<char>| #[trigger] lookup_names(self.fn_scope_closure_captures@, n) == after_recording(
                    lookup_names(s0.fn_scope_closure_captures@, n), bound.take(k as int).contains(n), caps_spec),
                self.errors == s0.errors,
                self.same_state((SemanticAnalyzer {
                    closure_binding_conventions: self.closure_binding_conventions,
                    closure_binding_captures: self.closure_binding_captures,
                    fn_scope_closure_captures: self.fn_scope_closure_captures,
                    ..s0
                })),
            decreases names.len() - k,
        {
            let name = &names[k];
            assert(bound[k as int] == name@);
            let ghost cb = self.closure_binding_conventions@;
            let entry = (name.clone(), copy_conventions(&conventions));
            self.closure_binding_conventions.insert(0, entry);
            assert(self.closure_binding_conventions@ =~= seq![entry] + cb);
            let ghost c1 = self.closure_binding_captures@;
            let ghost c2 = self.fn_scope_closure_captures@;
            match &captures {
                Some(c) => {
                    let e1 = (name.clone(), copy_names(c));
                    self.closure_binding_captures.insert(0, e1);
                    assert(self.closure_binding_captures@ =~= seq![e1] + c1);
                    let e2 = (name.clone(), copy_names(c));
                    self.fn_scope_closure_captures.insert(0, e2);
                    assert(self.fn_scope_closure_captures@ =~= seq![e2] + c2);
                    proof {
                        assert forall|n: Seq<char>| #[trigger] lookup_names(self.closure_binding_captures@, n) == after_recording(
                            lookup_names(s0.closure_binding_captures@, n), bound.take(k + 1).contains(n), caps_spec) by {
                            lemma_lookup_in_front(c1, e1, n);
                            crate::block_scope::lemma_take_push_contains(bound, k as int, n);
                        }
                        assert forall|n: Seq<char>| #[trigger] lookup_names(self.fn_scope_closure_captures@, n) == after_recording(
                            lookup_names(s0.fn_scope_closure_captures@, n), bound.take(k + 1).contains(n), caps_spec) by {
                            lemma_lookup_in_front(c2, e2, n);
                            crate::block_scope::lemma_take_push_contains(bound, k as int, n);
                        }
                    }
                },
                None => {},
            }
            proof {
                assert forall|n: Seq<char>| #[trigger] lookup_conventions(self.closure_binding_conventions@, n) == after_recording(
                    lookup_conventions(s0.closure_binding_conventions@, n), bound.take(k + 1).contains(n), conv_spec) by {
                    lemma_conventions_in_front(cb, entry, n);
                    crate::block_scope::lemma_take_push_contains(bound, k as int, n);
                }
                if captures is None {
                    assert forall|n: Seq<char>| #[trigger] lookup_names(self.closure_binding_captures@, n) == after_recording(
                        lookup_names(s0.closure_binding_captures@, n), bound.take(k + 1).contains(n), caps_spec) by {}
                    assert forall|n: Seq<char>| #[trigger] lookup_names(self.fn_scope_closure_captures@, n) == after_recording(
                        lookup_names(s0.fn_scope_closure_captures@, n), bound.take(k + 1).contains(n), caps_spec) by {}
                }
            }
            k += 1;
        }
        assert(bound.take(k as int) =~= bound);
    }

    /// Check a module-level `let` once its value has been walked, given
    /// what the analysis of the value says: the annotation as a type, the
    /// value against it, optional elements never used, a `.variant` with
    /// no enum, a closure literal against a closure annotation; then
    /// record a binding that holds a closure; then check the pattern
    /// against the value.
    pub fn validate_let_statement(&mut self, binding: &LetBinding, facts: &LetFacts)
        ensures
            error_views(final(self).errors@) == error_views(old(self).errors@) + let_statement_reports(*old(self), *binding, *facts),
            forall|n: Seq<char>| #[trigger] lookup_conventions(final(self).closure_binding_conventions@, n) == after_recording(
                lookup_conventions(old(self).closure_binding_conventions@, n), ident_names(pattern_names(binding.pattern)).contains(n),
                let_conventions(binding.type_annotation, binding.value)),
            forall|n: Seq<char>| #[trigger] lookup_names(final(self).closure_binding_captures@, n) == after_recording(
                lookup_names(old(self).closure_binding_captures@, n),
                ident_names(pattern_names(binding.pattern)).contains(n) && let_conventions(binding.type_annotation, binding.value) is Some,
                let_captures(binding.value)),
            forall|n: Seq<char>| #[trigger] lookup_names(final(self).fn_scope_closure_captures@, n) == after_recording(
                lookup_names(old(self).fn_scope_closure_captures@, n),
                ident_names(pattern_names(binding.pattern)).contains(n) && let_conventions(binding.type_annotation, binding.value) is Some,
                let_captures(binding.value)),
            final(self).same_state((SemanticAnalyzer {
                closure_binding_conventions: final(self).closure_binding_conventions,
                closure_binding_captures: final(self).closure_binding_captures,
                fn_scope_closure_captures: final(self).fn_scope_closure_captures,
                ..*old(self)
            })),
    {
        let ghost a0 = *self;
        let ghost e0 = error_views(self.errors@);
        let span = binding.span;
        match &binding.type_annotation {
            Some(t) => {
                self.validate_type(t, span);
                self.check_let_annotation(t, &binding.value, &facts.value_type, facts.fits, span);
                self.check_optional_elements_are_used(t, &binding.value, binding.mutable, span);
            },
            None => {
                assert(error_views(self.errors@) =~= e0 + Seq::<ErrorView>::empty());
            },
        }
        let ann: Option<&Type> = match &binding.type_annotation {
            Some(t) => Some(t),
            None => None,
        };
        self.check_inferred_enum_has_a_context(ann, &binding.value, &facts.value_type);
        self.check_closure_literal_against_annotation(ann, &binding.value, &facts.closure_body_type, facts.closure_body_fits, span);
        let ghost e1 = error_views(self.errors@);
        self.record_closure_bindings(binding);
        let ghost a1 = *self;
        assert(a1.symbols == a0.symbols);
        self.validate_destructuring_pattern(&binding.pattern, &binding.value, &facts.value_type, span);
        assert(destructuring_reports(a1, binding.pattern, binding.value, facts.value_type@, span)
            == destructuring_reports(a0, binding.pattern, binding.value, facts.value_type@, span));
    }
}

} // verus!

//! Match exhaustiveness, and the payload fields of an enum variant.
//!
//! A `match` runs over an enum, or over an optional, which behaves as the
//! two-variant enum `.some(value)` / `.none`. Each arm names a variant
//! once, binds as many payloads as the variant carries, and comes before
//! any `_` arm; together the arms cover every variant unless one of them
//! is `_`.

use vstd::prelude::*;
use vstd::string::StringExecFns;
use crate::analyzer::SemanticAnalyzer;
use crate::ast::{Definition, EnumDef, EnumVariant, Expr, FieldDef, File, Ident, MatchArm, Pattern, Span, Statement};
use crate::duplicate_names::field_names;
use crate::error::{error_views, CompilerError, ErrorView};
use crate::sem_type::{display_of, sem_of, SType, SemType};
use crate::ast::expr_span;
use crate::call_shape::type_views;
use crate::closures::copy_names;
use crate::type_names::{mentions_any, type_mentions_any};
use crate::type_validation::generics_of;
use crate::symbols::SymbolTable;
use crate::symbols::{enum_named, VariantInfo};
use crate::text::{lemma_views_push, list_contains, str_equals, views};

verus! {

broadcast use vstd::std_specs::vec::group_vec_axioms;

/// A variant as the checks read it: name, number of payloads, span.
pub open spec fn variant_view(v: VariantInfo) -> (Seq<char>, usize, Span) {
    (v.name@, v.arity, v.span)
}

pub open spec fn variant_views(s: Seq<VariantInfo>) -> Seq<(Seq<char>, usize, Span)> {
    s.map_values(|v: VariantInfo| variant_view(v))
}

/// The first variant called `name`.
pub open spec fn variant_named(variants: Seq<(Seq<char>, usize, Span)>, name: Seq<char>) -> Option<(Seq<char>, usize, Span)>
    decreases variants.len(),
{
    if variants.len() == 0 {
        None
    } else if variants[0].0 == name {
        Some(variants[0])
    } else {
        variant_named(variants.drop_first(), name)
    }
}

/// What an arm naming `variant` with `count` bindings reports.
pub open spec fn arm_report(enum_name: Seq<char>, variant: Seq<char>, count: usize, span: Span, variants: Seq<(Seq<char>, usize, Span)>) -> Seq<ErrorView> {
    match variant_named(variants, variant) {
        Some(v) => if v.1 != count {
            seq![ErrorView::VariantArityMismatch { variant, expected: v.1, actual: count, span }]
        } else {
            seq![]
        },
        None => seq![ErrorView::UnknownEnumVariant { variant, enum_name, span }],
    }
}

/// After the arms `arms`: the variants they cover, whether one of them is
/// `_`, and what they report.
pub open spec fn arms_outcome(arms: Seq<MatchArm>, ty: Seq<char>, variants: Seq<(Seq<char>, usize, Span)>) -> (Seq<Seq<char>>, bool, Seq<ErrorView>)
    decreases arms.len(),
{
    if arms.len() == 0 {
        (seq![], false, seq![])
    } else {
        let before = arms_outcome(arms.drop_last(), ty, variants);
        let arm = arms.last();
        if before.1 {
            (before.0, true, before.2.push(ErrorView::UnreachableMatchArm { span: arm.span }))
        } else {
            match arm.pattern {
                Pattern::Variant { name, bindings } => if before.0.contains(name.name@) {
                    (before.0, false, before.2.push(ErrorView::DuplicateMatchArm { variant: name.name@, span: arm.span }))
                } else {
                    (before.0.push(name.name@), false, before.2 + arm_report(ty, name.name@, bindings.len(), arm.span, variants))
                },
                Pattern::Wildcard => (before.0, true, before.2),
            }
        }
    }
}

/// The names of the variants that `covered` leaves out, in declaration order.
pub open spec fn missing_variants(variants: Seq<(Seq<char>, usize, Span)>, covered: Seq<Seq<char>>) -> Seq<Seq<char>>
    decreases variants.len(),
{
    if variants.len() == 0 {
        seq![]
    } else {
        missing_variants(variants.drop_last(), covered) + if covered.contains(variants.last().0) {
            Seq::<Seq<char>>::empty()
        } else {
            seq![variants.last().0]
        }
    }
}

/// The names separated by `", "`.
pub open spec fn join_names(names: Seq<Seq<char>>) -> Seq<char>
    decreases names.len(),
{
    if names.len() == 0 {
        seq![]
    } else if names.len() == 1 {
        names[0]
    } else {
        join_names(names.drop_last()) + ", "@ + names.last()
    }
}

/// Everything a `match` whose arms are `arms` reports against the variants
/// `variants` of the type `ty`.
pub open spec fn match_reports(arms: Seq<MatchArm>, ty: Seq<char>, variants: Seq<(Seq<char>, usize, Span)>, span: Span) -> Seq<ErrorView> {
    let outcome = arms_outcome(arms, ty, variants);
    let missing = missing_variants(variants, outcome.0);
    if !outcome.1 && missing.len() > 0 {
        outcome.2.push(ErrorView::NonExhaustiveMatch { missing: join_names(missing), span })
    } else {
        outcome.2
    }
}

/// The name a match looks up for a scrutinee of type `t`: the base of a
/// generic instance, the name of a named type, else the type as written.
pub open spec fn scrutinee_name(t: SType) -> Seq<char> {
    match t {
        SType::Generic { base, .. } => base,
        SType::Named(n) => n,
        _ => display_of(t),
    }
}

/// The first top-level enum definition of `statements` called `name`.
pub open spec fn file_enum(statements: Seq<Statement>, name: Seq<char>) -> Option<EnumDef>
    decreases statements.len(),
{
    if statements.len() == 0 {
        None
    } else {
        match statements[0] {
            Statement::Definition(d) => match *d {
                Definition::Enum(e) => if e.name.name@ == name {
                    Some(e)
                } else {
                    file_enum(statements.drop_first(), name)
                },
                _ => file_enum(statements.drop_first(), name),
            },
            _ => file_enum(statements.drop_first(), name),
        }
    }
}

/// The first enum called `name` in the first of `files` that defines one.
pub open spec fn files_enum(files: Seq<File>, name: Seq<char>) -> Option<EnumDef>
    decreases files.len(),
{
    if files.len() == 0 {
        None
    } else {
        match file_enum(files[0].statements@, name) {
            Some(e) => Some(e),
            None => files_enum(files.drop_first(), name),
        }
    }
}

/// The payload fields of the first variant of `variants` called `name`.
pub open spec fn variant_fields_named(variants: Seq<EnumVariant>, name: Seq<char>) -> Option<Seq<FieldDef>>
    decreases variants.len(),
{
    if variants.len() == 0 {
        None
    } else if variants[0].name.name@ == name {
        Some(variants[0].fields@)
    } else {
        variant_fields_named(variants.drop_first(), name)
    }
}

/// The position of the first variant called `name`.
fn find_variant(variants: &Vec<VariantInfo>, name: &str) -> (r: Option<usize>)
    ensures
        r is None <==> variant_named(variant_views(variants@), name@) is None,
        r matches Some(i) ==> i < variants@.len() && variant_named(variant_views(variants@), name@) == Some(variant_view(variants@[i as int])),
{
    let ghost vs = variant_views(variants@);
    let mut i: usize = 0;
    assert(vs.skip(0) =~= vs);
    while i < variants.len()
        invariant
            i <= variants@.len(),
            vs == variant_views(variants@),
            variant_named(vs, name@) == variant_named(vs.skip(i as int), name@),
        decreases variants.len() - i,
    {
        assert(vs.skip(i as int)[0] == variant_view(variants@[i as int]));
        if str_equals(variants[i].name.as_str(), name) {
            return Some(i);
        }
        assert(vs.skip(i as int).drop_first() =~= vs.skip(i + 1));
        i += 1;
    }
    None
}

/// The first top-level enum definition of `file` called `name`.
fn find_file_enum<'a>(file: &'a File, name: &str) -> (r: Option<&'a EnumDef>)
    ensures
        r is None <==> file_enum(file.statements@, name@) is None,
        r matches Some(e) ==> file_enum(file.statements@, name@) == Some(*e),
{
    let statements = &file.statements;
    let mut i: usize = 0;
    assert(statements@.skip(0) =~= statements@);
    while i < statements.len()
        invariant
            i <= statements@.len(),
            file_enum(statements@, name@) == file_enum(statements@.skip(i as int), name@),
        decreases statements.len() - i,
    {
        assert(statements@.skip(i as int)[0] == statements@[i as int]);
        assert(statements@.skip(i as int).drop_first() =~= statements@.skip(i + 1));
        if let Statement::Definition(def) = &statements[i] {
            if let Definition::Enum(enum_def) = &**def {
                if str_equals(enum_def.name.name.as_str(), name) {
                    return Some(enum_def);
                }
            }
        }
        i += 1;
    }
    None
}

/// The payload fields of the variant of `enum_def` called `name`.
fn find_variant_fields<'a>(enum_def: &'a EnumDef, name: &str) -> (r: Option<&'a Vec<FieldDef>>)
    ensures
        r is None <==> variant_fields_named(enum_def.variants@, name@) is None,
        r matches Some(f) ==> variant_fields_named(enum_def.variants@, name@) == Some(f@),
{
    let variants = &enum_def.variants;
    let mut i: usize = 0;
    assert(variants@.skip(0) =~= variants@);
    while i < variants.len()
        invariant
            i <= variants@.len(),
            variant_fields_named(variants@, name@) == variant_fields_named(variants@.skip(i as int), name@),
        decreases variants.len() - i,
    {
        assert(variants@.skip(i as int)[0] == variants@[i as int]);
        if str_equals(variants[i].name.name.as_str(), name) {
            return Some(&variants[i].fields);
        }
        assert(variants@.skip(i as int).drop_first() =~= variants@.skip(i + 1));
        i += 1;
    }
    None
}

/// The names joined by `", "`.
fn join_with_commas(names: &Vec<String>) -> (r: String)
    ensures
        r@ == join_names(views(names@)),
{
    let mut r = String::new();
    let mut k: usize = 0;
    while k < names.len()
        invariant
            k <= names@.len(),
            r@ == join_names(views(names@.take(k as int))),
        decreases names.len() - k,
    {
        proof {
            assert(names@.take(k + 1).drop_last() =~= names@.take(k as int));
            assert(views(names@.take(k + 1)).drop_last() =~= views(names@.take(k as int)));
            assert(views(names@.take(k + 1)).last() == names@[k as int]@);
        }
        if k > 0 {
            r.append(", ");
        } else {
            assert(views(names@.take(1))[0] == names@[0]@);
        }
        r.append(names[k].as_str());
        k += 1;
    }
    assert(names@.take(k as int) =~= names@);
    r
}

impl SemanticAnalyzer {
    /// Check one arm of a match over `enum_name`: its variant is one of
    /// `variants`, and it binds as many payloads as that variant carries.
    pub fn validate_match_arm(&mut self, enum_name: &str, variant_name: &str, binding_count: usize, span: Span, variants: &Vec<VariantInfo>)
        ensures
            error_views(final(self).errors@) == error_views(old(self).errors@)
                + arm_report(enum_name@, variant_name@, binding_count, span, variant_views(variants@)),
            final(self).same_state(*old(self)),
    {
        match find_variant(variants, variant_name) {
            Some(i) => {
                let expected = variants[i].arity;
                if expected != binding_count {
                    self.report(CompilerError::VariantArityMismatch {
                        variant: String::from_str(variant_name),
                        expected,
                        actual: binding_count,
                        span,
                    });
                } else {
                    assert(error_views(self.errors@) =~= error_views(self.errors@) + Seq::<ErrorView>::empty());
                }
            },
            None => {
                self.report(CompilerError::UnknownEnumVariant {
                    variant: String::from_str(variant_name),
                    enum_name: String::from_str(enum_name),
                    span,
                });
            },
        }
    }

    /// Check the arms of a match over `scrutinee_type` against its
    /// variants: no arm after `_`, no variant twice, each arm a variant
    /// with the right number of bindings, and every variant covered unless
    /// an arm is `_`.
    pub fn validate_match_arms_against_variants(
        &mut self,
        scrutinee_type: &str,
        arms: &Vec<MatchArm>,
        span: Span,
        variants: &Vec<VariantInfo>,
    )
        ensures
            error_views(final(self).errors@) == error_views(old(self).errors@)
                + match_reports(arms@, scrutinee_type@, variant_views(variants@), span),
            final(self).same_state(*old(self)),
    {
        let ghost e0 = error_views(self.errors@);
        let ghost s0 = *self;
        let mut covered: Vec<String> = Vec::new();
        let mut has_wildcard = false;
        let mut k: usize = 0;
        while k < arms.len()
            invariant
                k <= arms@.len(),
                self.same_state(s0),
                arms_outcome(arms@.take(k as int), scrutinee_type@, variant_views(variants@)).0 == views(covered@),
                arms_outcome(arms@.take(k as int), scrutinee_type@, variant_views(variants@)).1 == has_wildcard,
                error_views(self.errors@) == e0 + arms_outcome(arms@.take(k as int), scrutinee_type@, variant_views(variants@)).2,
            decreases arms.len() - k,
        {
            proof {
                assert(arms@.take(k + 1).drop_last() =~= arms@.take(k as int));
                assert(arms@.take(k + 1).last() == arms@[k as int]);
            }
            let arm = &arms[k];
            let ghost eb = error_views(self.errors@);
            if has_wildcard {
                self.report(CompilerError::UnreachableMatchArm { span: arm.span });
            } else {
                match &arm.pattern {
                    Pattern::Variant { name, bindings } => {
                        if list_contains(&covered, name.name.as_str()) {
                            self.report(CompilerError::DuplicateMatchArm { variant: name.name.clone(), span: arm.span });
                        } else {
                            let ghost cb = covered@;
                            let copy = name.name.clone();
                            covered.push(copy);
                            proof { lemma_views_push(cb, copy); }
                            self.validate_match_arm(scrutinee_type, name.name.as_str(), bindings.len(), arm.span, variants);
                        }
                    },
                    Pattern::Wildcard => {
                        has_wildcard = true;
                    },
                }
            }
            k += 1;
        }
        assert(arms@.take(k as int) =~= arms@);
        if !has_wildcard {
            let mut missing: Vec<String> = Vec::new();
            let mut j: usize = 0;
            while j < variants.len()
                invariant
                    j <= variants@.len(),
                    views(missing@) == missing_variants(variant_views(variants@.take(j as int)), views(covered@)),
                decreases variants.len() - j,
            {
                proof {
                    assert(variant_views(variants@.take(j + 1)).drop_last() =~= variant_views(variants@.take(j as int)));
                    assert(variant_views(variants@.take(j + 1)).last() == variant_view(variants@[j as int]));
                }
                if !list_contains(&covered, variants[j].name.as_str()) {
                    let ghost mb = missing@;
                    let copy = variants[j].name.clone();
                    missing.push(copy);
                    proof { lemma_views_push(mb, copy); }
                } else {
                    assert(views(missing@) =~= views(missing@) + Seq::<Seq<char>>::empty());
                }
                j += 1;
            }
            assert(variants@.take(j as int) =~= variants@);
            if missing.len() > 0 {
                let text = join_with_commas(&missing);
                self.report(CompilerError::NonExhaustiveMatch { missing: text, span });
            }
        }
    }

    /// Check a match whose scrutinee has the type `scrutinee_ty`, as
    /// inference gives it: a type inference cannot compute is left alone;
    /// an optional is matched as `.some` / `.none`; another type must be an
    /// enum of the table, whose variants the arms are held against.
    pub fn validate_match(&mut self, scrutinee_ty: &SemType, arms: &Vec<MatchArm>, span: Span)
        ensures
            final(self).same_state(*old(self)),
            error_views(final(self).errors@) == error_views(old(self).errors@) + match scrutinee_ty@ {
                SType::Unknown => Seq::<ErrorView>::empty(),
                SType::Optional(_) => match_reports(arms@, "Optional"@, seq![("some"@, 1usize, span), ("none"@, 0usize, span)], span),
                _ => match enum_named(old(self).symbols.enums@, scrutinee_name(scrutinee_ty@)) {
                    None => seq![ErrorView::MatchNotEnum { actual: display_of(scrutinee_ty@), span }],
                    Some(info) => match_reports(arms@, scrutinee_name(scrutinee_ty@), variant_views(info.variants@), span),
                },
            },
    {
        match scrutinee_ty {
            SemType::Unknown => {
                assert(error_views(self.errors@) =~= error_views(self.errors@) + Seq::<ErrorView>::empty());
                return;
            },
            SemType::Optional(_) => {
                let mut variants: Vec<VariantInfo> = Vec::new();
                variants.push(VariantInfo { name: String::from_str("some"), arity: 1, span });
                variants.push(VariantInfo { name: String::from_str("none"), arity: 0, span });
                assert(variant_views(variants@) =~= seq![("some"@, 1usize, span), ("none"@, 0usize, span)]);
                self.validate_match_arms_against_variants("Optional", arms, span, &variants);
                return;
            },
            _ => {},
        }
        let lookup_name: String = match scrutinee_ty {
            SemType::Generic { base, .. } => base.clone(),
            SemType::Named(n) => n.clone(),
            _ => scrutinee_ty.display(),
        };
        match self.symbols.get_enum(lookup_name.as_str()) {
            None => {
                let actual = scrutinee_ty.display();
                self.report(CompilerError::MatchNotEnum { actual, span });
            },
            Some(info) => {
                let variants = copy_variants(&info.variants);
                self.validate_match_arms_against_variants(lookup_name.as_str(), arms, span, &variants);
            },
        }
    }

    /// Check `Enum.variant(label: value, ...)`: the enum exists, the variant
    /// is one of its variants, data is given exactly when the variant
    /// carries some, each field the variant declares is given, each label
    /// given is a field of the variant, and each value has the type of
    /// its field. `types[i]` is the type of the value at `i`, and `fits[i]`
    /// whether it satisfies the type its field declares.
    pub fn validate_enum_instantiation(
        &mut self,
        enum_name: &Ident,
        variant_name: &Ident,
        data: &Vec<(Ident, Expr)>,
        types: &Vec<SemType>,
        fits: &Vec<bool>,
        span: Span,
        file: &File,
    )
        requires
            types@.len() == data@.len(),
            fits@.len() == data@.len(),
        ensures
            final(self).same_state(*old(self)),
            error_views(final(self).errors@) == error_views(old(self).errors@) + if !old(self).symbols.has_enum(enum_name.name@) {
                seq![ErrorView::UndefinedType { name: enum_name.name@, span: enum_name.span }]
            } else {
                match enum_variant_fields(file.statements@, old(self).module_files@, enum_name.name@, variant_name.name@) {
                    None => seq![ErrorView::UnknownEnumVariant { variant: variant_name.name@, enum_name: enum_name.name@, span: variant_name.span }],
                    Some(fields) => payload_reports(fields, data@, enum_name.name@, variant_name.name@, span)
                        + if (fields.len() == 0) != (data@.len() == 0) {
                            Seq::<ErrorView>::empty()
                        } else {
                            payload_type_reports(fields, data@, declared_generics(old(self).symbols, enum_name.name@),
                                type_views(types@), fits@)
                        },
                }
            },
    {
        if self.symbols.enum_index(enum_name.name.as_str()).is_none() {
            self.report(CompilerError::UndefinedType { name: enum_name.name.clone(), span: enum_name.span });
            return;
        }
        let ghost s0 = *self;
        let ghost e0 = error_views(self.errors@);
        let mut reports: Vec<CompilerError> = Vec::new();
        match self.get_enum_variant_fields(enum_name.name.as_str(), variant_name.name.as_str(), file) {
            None => {
                reports.push(CompilerError::UnknownEnumVariant {
                    variant: variant_name.name.clone(),
                    enum_name: enum_name.name.clone(),
                    span: variant_name.span,
                });
            },
            Some(fields) => {
                if fields.len() == 0 && data.len() > 0 {
                    reports.push(CompilerError::EnumVariantWithoutData {
                        variant: variant_name.name.clone(),
                        enum_name: enum_name.name.clone(),
                        span,
                    });
                } else if fields.len() > 0 && data.len() == 0 {
                    reports.push(CompilerError::EnumVariantRequiresData {
                        variant: variant_name.name.clone(),
                        enum_name: enum_name.name.clone(),
                        span,
                    });
                } else {
                    let mut owner = enum_name.name.clone();
                    owner.append(".");
                    owner.append(variant_name.name.as_str());
                    let ghost o = owner@;
                    let mut j: usize = 0;
                    while j < fields.len()
                        invariant
                            j <= fields@.len(),
                            owner@ == o,
                            error_views(reports@) == missing_field_reports(fields@.take(j as int), data_labels(data@), o, span),
                        decreases fields.len() - j,
                    {
                        proof {
                            assert(fields@.take(j + 1).drop_last() =~= fields@.take(j as int));
                            assert(fields@.take(j + 1).last() == fields@[j as int]);
                        }
                        let name = &fields[j].name.name;
                        let ghost rb = error_views(reports@);
                        if !fields_contain(fields, j, name.as_str()) && !labels_contain(data, name.as_str()) {
                            reports.push(CompilerError::MissingField { field: name.clone(), named_type: owner.clone(), span });
                            assert(error_views(reports@) =~= rb + seq![reports@.last()@]);
                        } else {
                            assert(error_views(reports@) =~= rb + Seq::<ErrorView>::empty());
                        }
                        j += 1;
                    }
                    assert(fields@.take(j as int) =~= fields@);
                    let ghost mid = error_views(reports@);
                    let mut k: usize = 0;
                    while k < data.len()
                        invariant
                            k <= data@.len(),
                            owner@ == o,
                            error_views(reports@) == mid + unknown_field_reports(data@.take(k as int), field_names(fields@), o),
                        decreases data.len() - k,
                    {
                        proof {
                            assert(data@.take(k + 1).drop_last() =~= data@.take(k as int));
                            assert(data@.take(k + 1).last() == data@[k as int]);
                        }
                        let label = &data[k].0;
                        let ghost rb = error_views(reports@);
                        if !fields_contain(fields, fields.len(), label.name.as_str()) {
                            reports.push(CompilerError::UnknownField { field: label.name.clone(), named_type: owner.clone(), span: label.span });
                            assert(error_views(reports@) =~= rb + seq![reports@.last()@]);
                        } else {
                            assert(error_views(reports@) =~= rb + Seq::<ErrorView>::empty());
                        }
                        k += 1;
                    }
                    assert(data@.take(k as int) =~= data@);
                    assert(fields@.take(fields@.len() as int) =~= fields@);
                    let generics: Vec<String> = match self.symbols.get_struct(enum_name.name.as_str()) {
                        Some(info) => copy_names(&info.generics),
                        None => match self.symbols.get_enum(enum_name.name.as_str()) {
                            Some(info) => copy_names(&info.generics),
                            None => Vec::new(),
                        },
                    };
                    assert(views(generics@) =~= declared_generics(s0.symbols, enum_name.name@));
                    let ghost g = views(generics@);
                    let ghost mid2 = error_views(reports@);
                    let mut k: usize = 0;
                    while k < data.len()
                        invariant
                            k <= data@.len(),
                            views(generics@) == g,
                            error_views(reports@) == mid2 + payload_type_reports(fields@, data@.take(k as int), g, type_views(types@), fits@),
                        decreases data.len() - k,
                    {
                        proof {
                            assert(data@.take(k + 1).drop_last() =~= data@.take(k as int));
                            assert(data@.take(k + 1).last() == data@[k as int]);
                        }
                        let ghost rb = error_views(reports@);
                        match find_payload_field(fields, data[k].0.name.as_str()) {
                            Some(f) => {
                                if !type_mentions_any(&f.ty, &generics) && !fits[k] {
                                    let expected = SemType::from_ast(&f.ty).display();
                                    let found = types[k].display();
                                    reports.push(CompilerError::TypeMismatch { expected, found, span: data[k].1.span() });
                                    assert(error_views(reports@) =~= rb + seq![reports@.last()@]);
                                } else {
                                    assert(error_views(reports@) =~= rb + Seq::<ErrorView>::empty());
                                }
                            },
                            None => {
                                assert(error_views(reports@) =~= rb + Seq::<ErrorView>::empty());
                            },
                        }
                        k += 1;
                    }
                    assert(data@.take(k as int) =~= data@);
                }
            },
        }
        self.report_all(reports);
    }

    /// The payload fields of the variant `variant_name` of the enum
    /// `enum_name`: the enum is looked up among the top-level definitions
    /// of `current_file` first, then in the files of the imported modules
    /// in order; the first file that defines the enum decides. `None` when
    /// no file defines it, or the enum has no such variant.
    pub fn get_enum_variant_fields<'a>(&'a self, enum_name: &str, variant_name: &str, current_file: &'a File) -> (r: Option<&'a Vec<FieldDef>>)
        ensures
            r is None <==> enum_variant_fields(current_file.statements@, self.module_files@, enum_name@, variant_name@) is None,
            r matches Some(f) ==> enum_variant_fields(current_file.statements@, self.module_files@, enum_name@, variant_name@) == Some(f@),
    {
        if let Some(enum_def) = find_file_enum(current_file, enum_name) {
            return find_variant_fields(enum_def, variant_name);
        }
        let files = &self.module_files;
        let mut i: usize = 0;
        assert(files@.skip(0) =~= files@);
        while i < files.len()
            invariant
                i <= files@.len(),
                files_enum(files@, enum_name@) == files_enum(files@.skip(i as int), enum_name@),
            decreases files.len() - i,
        {
            assert(files@.skip(i as int)[0] == files@[i as int]);
            assert(files@.skip(i as int).drop_first() =~= files@.skip(i + 1));
            if let Some(enum_def) = find_file_enum(&files[i], enum_name) {
                return find_variant_fields(enum_def, variant_name);
            }
            i += 1;
        }
        None
    }
}

/// The payload fields of `variant` of the enum `enum_name`, found as
/// [`SemanticAnalyzer::get_enum_variant_fields`] looks for them.
pub open spec fn enum_variant_fields(statements: Seq<Statement>, files: Seq<File>, enum_name: Seq<char>, variant: Seq<char>) -> Option<Seq<FieldDef>> {
    match file_enum(statements, enum_name) {
        Some(e) => variant_fields_named(e.variants@, variant),
        None => match files_enum(files, enum_name) {
            Some(e) => variant_fields_named(e.variants@, variant),
            None => None,
        },
    }
}

/// The labels of the payloads of an enum value.
pub open spec fn data_labels(data: Seq<(Ident, Expr)>) -> Seq<Seq<char>> {
    data.map_values(|d: (Ident, Expr)| d.0.name@)
}

/// A `MissingField` for each declared field, once per name, that no
/// payload gives.
pub open spec fn missing_field_reports(fields: Seq<FieldDef>, given: Seq<Seq<char>>, owner: Seq<char>, span: Span) -> Seq<ErrorView>
    decreases fields.len(),
{
    if fields.len() == 0 {
        seq![]
    } else {
        let name = fields.last().name.name@;
        missing_field_reports(fields.drop_last(), given, owner, span) + if field_names(fields.drop_last()).contains(name)
            || given.contains(name) {
            Seq::<ErrorView>::empty()
        } else {
            seq![ErrorView::MissingField { field: name, named_type: owner, span }]
        }
    }
}

/// An `UnknownField` for each payload whose label no field declares.
pub open spec fn unknown_field_reports(data: Seq<(Ident, Expr)>, declared: Seq<Seq<char>>, owner: Seq<char>) -> Seq<ErrorView>
    decreases data.len(),
{
    if data.len() == 0 {
        seq![]
    } else {
        let label = data.last().0;
        unknown_field_reports(data.drop_last(), declared, owner) + if declared.contains(label.name@) {
            Seq::<ErrorView>::empty()
        } else {
            seq![ErrorView::UnknownField { field: label.name@, named_type: owner, span: label.span }]
        }
    }
}

/// The first field of `fields` called `name`.
pub open spec fn payload_field(fields: Seq<FieldDef>, name: Seq<char>) -> Option<FieldDef>
    decreases fields.len(),
{
    if fields.len() == 0 {
        None
    } else if fields[0].name.name@ == name {
        Some(fields[0])
    } else {
        payload_field(fields.drop_first(), name)
    }
}

/// A `TypeMismatch` for each payload value whose field declares a type
/// that names none of the enum's type parameters `generics` and that the
/// value does not satisfy: `types[i]` is the type of the value at `i`,
/// and `fits[i]` whether it satisfies its field's type.
pub open spec fn payload_type_reports(fields: Seq<FieldDef>, data: Seq<(Ident, Expr)>, generics: Seq<Seq<char>>,
    types: Seq<SType>, fits: Seq<bool>) -> Seq<ErrorView>
    decreases data.len(),
{
    if data.len() == 0 {
        seq![]
    } else {
        let k = data.len() - 1;
        payload_type_reports(fields, data.drop_last(), generics, types, fits) + match payload_field(fields, data.last().0.name@) {
            Some(f) => if !mentions_any(f.ty, generics) && !fits[k] {
                seq![ErrorView::TypeMismatch { expected: display_of(sem_of(f.ty)), found: display_of(types[k]), span: expr_span(data.last().1) }]
            } else {
                Seq::<ErrorView>::empty()
            },
            None => Seq::<ErrorView>::empty(),
        }
    }
}

/// The type parameters of the struct or enum called `name`, none when
/// the table has neither.
pub open spec fn declared_generics(st: SymbolTable, name: Seq<char>) -> Seq<Seq<char>> {
    match generics_of(st, name) {
        Some(g) => g,
        None => seq![],
    }
}

/// What `Enum.variant(label: value, ...)` reports about its payload
/// labels, given the fields the variant declares.
pub open spec fn payload_reports(fields: Seq<FieldDef>, data: Seq<(Ident, Expr)>, enum_name: Seq<char>, variant: Seq<char>, span: Span) -> Seq<ErrorView> {
    let owner = enum_name + "."@ + variant;
    if fields.len() == 0 && data.len() > 0 {
        seq![ErrorView::EnumVariantWithoutData { variant, enum_name, span }]
    } else if fields.len() > 0 && data.len() == 0 {
        seq![ErrorView::EnumVariantRequiresData { variant, enum_name, span }]
    } else {
        missing_field_reports(fields, data_labels(data), owner, span)
            + unknown_field_reports(data, field_names(fields), owner)
    }
}

/// The first of `fields` called `name`.
pub fn find_payload_field<'a>(fields: &'a Vec<FieldDef>, name: &str) -> (r: Option<&'a FieldDef>)
    ensures
        r is None <==> payload_field(fields@, name@) is None,
        r matches Some(f) ==> payload_field(fields@, name@) == Some(*f),
{
    let mut i: usize = 0;
    assert(fields@.skip(0) =~= fields@);
    while i < fields.len()
        invariant
            i <= fields@.len(),
            payload_field(fields@, name@) == payload_field(fields@.skip(i as int), name@),
        decreases fields.len() - i,
    {
        assert(fields@.skip(i as int)[0] == fields@[i as int]);
        if str_equals(fields[i].name.name.as_str(), name) {
            return Some(&fields[i]);
        }
        assert(fields@.skip(i as int).drop_first() =~= fields@.skip(i + 1));
        i += 1;
    }
    None
}

/// True when some payload of `data` has the label `name`.
fn labels_contain(data: &Vec<(Ident, Expr)>, name: &str) -> (r: bool)
    ensures
        r == data_labels(data@).contains(name@),
{
    let mut i: usize = 0;
    while i < data.len()
        invariant
            i <= data@.len(),
            forall|j: int| 0 <= j < i ==> data@[j].0.name@ != name@,
        decreases data.len() - i,
    {
        if str_equals(data[i].0.name.as_str(), name) {
            assert(data_labels(data@)[i as int] == name@);
            return true;
        }
        i += 1;
    }
    assert forall|j: int| 0 <= j < data_labels(data@).len() implies data_labels(data@)[j] != name@ by {
        assert(data@[j].0.name@ != name@);
    }
    false
}

/// True when one of the first `n` fields is called `name`.
fn fields_contain(fields: &Vec<FieldDef>, n: usize, name: &str) -> (r: bool)
    requires
        n <= fields@.len(),
    ensures
        r == field_names(fields@.take(n as int)).contains(name@),
{
    let mut i: usize = 0;
    while i < n
        invariant
            n <= fields@.len(),
            i <= n,
            forall|j: int| 0 <= j < i ==> fields@[j].name.name@ != name@,
        decreases n - i,
    {
        if str_equals(fields[i].name.name.as_str(), name) {
            assert(field_names(fields@.take(n as int))[i as int] == name@);
            return true;
        }
        i += 1;
    }
    assert forall|j: int| 0 <= j < field_names(fields@.take(n as int)).len() implies field_names(fields@.take(n as int))[j] != name@ by {
        assert(fields@[j].name.name@ != name@);
    }
    false
}

/// A copy of a list of variants.
fn copy_variants(variants: &Vec<VariantInfo>) -> (r: Vec<VariantInfo>)
    ensures
        variant_views(r@) == variant_views(variants@),
{
    let mut r: Vec<VariantInfo> = Vec::new();
    let mut i: usize = 0;
    while i < variants.len()
        invariant
            i <= variants@.len(),
            variant_views(r@) == variant_views(variants@.take(i as int)),
        decreases variants.len() - i,
    {
        let ghost rb = r@;
        r.push(VariantInfo { name: variants[i].name.clone(), arity: variants[i].arity, span: variants[i].span });
        assert(variant_views(r@) =~= variant_views(rb).push(variant_view(variants@[i as int])));
        assert(variant_views(variants@.take(i + 1)) =~= variant_views(variants@.take(i as int)).push(variant_view(variants@[i as int])));
        i += 1;
    }
    assert(variants@.take(i as int) =~= variants@);
    r
}

} // verus!

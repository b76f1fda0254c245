//! Reject `Seq<T>` anywhere it cannot mean anything.
//!
//! A sequence is not a value: it holds no elements, it runs once, and it
//! exists only long enough for one consumer to drive it. It may stand in
//! a local `let`, a `for` source, a `sink` parameter and the return type
//! of an `extern fn` (the host cursor); not in a struct field, an enum
//! variant field, a module-level `let`, a non-`sink` parameter or the
//! return type of a `fn`. An `extern impl` declares the host's surface and
//! is not checked.

use vstd::prelude::*;
use vstd::string::StringExecFns;
use crate::analyzer::SemanticAnalyzer;
use crate::ast::{
    Definition, EnumDef, EnumVariant, FieldDef, File, FnDef, FnParam, FunctionDef, ImplDef, ParamConvention, Span,
    Statement, StructDef, StructField, TupleTypeField, Type,
};
use crate::error::{error_views, CompilerError, ErrorView};
use crate::text::str_equals;

verus! {

broadcast use vstd::std_specs::vec::group_vec_axioms;

/// A sequence appears somewhere inside `t`.
pub open spec fn written_sequence(t: Type) -> bool
    decreases t,
{
    match t {
        Type::Generic { name, args, .. } => name.name@ == "Seq"@ || written_sequence_args(args@),
        Type::Array(e) => written_sequence(*e),
        Type::Optional(e) => written_sequence(*e),
        Type::Tuple(fields) => written_sequence_fields(fields@),
        Type::Dictionary { key, value } => written_sequence(*key) || written_sequence(*value),
        Type::Closure { params, ret } => written_sequence_params(params@) || written_sequence(*ret),
        Type::Primitive(_) => false,
        Type::Ident(_) => false,
    }
}

pub open spec fn written_sequence_args(s: Seq<Type>) -> bool
    decreases s,
{
    s.len() > 0 && (written_sequence_args(s.drop_last()) || written_sequence(s.last()))
}

pub open spec fn written_sequence_fields(s: Seq<TupleTypeField>) -> bool
    decreases s,
{
    s.len() > 0 && (written_sequence_fields(s.drop_last()) || written_sequence(s.last().ty))
}

pub open spec fn written_sequence_params(s: Seq<(ParamConvention, Type)>) -> bool
    decreases s,
{
    s.len() > 0 && (written_sequence_params(s.drop_last()) || written_sequence(s.last().1))
}

/// The report for a type at a position, when it holds a sequence.
pub open spec fn seq_report(t: Type, position: Seq<char>, span: Span) -> Seq<ErrorView> {
    if written_sequence(t) { seq![ErrorView::SeqInvalidPosition { position, span }] } else { seq![] }
}

pub open spec fn non_sink_position() -> Seq<char> {
    "a parameter that is not `sink`; a sequence must be consumed, so write `sink`"@
}

/// What the parameters of a signature report.
pub open spec fn param_seq_reports(params: Seq<FnParam>) -> Seq<ErrorView>
    decreases params.len(),
{
    if params.len() == 0 {
        seq![]
    } else {
        let p = params.last();
        param_seq_reports(params.drop_last()) + match p.ty {
            Some(t) => if p.convention != ParamConvention::Sink {
                seq_report(t, non_sink_position(), p.span)
            } else {
                Seq::<ErrorView>::empty()
            },
            None => Seq::<ErrorView>::empty(),
        }
    }
}

/// What a signature reports: its parameters, then its return type
/// unless the function is `extern`.
pub open spec fn signature_seq_reports(params: Seq<FnParam>, return_type: Option<Type>, is_extern: bool, name_span: Span) -> Seq<ErrorView> {
    param_seq_reports(params) + if !is_extern {
        match return_type {
            Some(t) => seq_report(t, "a function return type"@, name_span),
            None => Seq::<ErrorView>::empty(),
        }
    } else {
        Seq::<ErrorView>::empty()
    }
}

pub open spec fn struct_seq_reports(fields: Seq<StructField>) -> Seq<ErrorView>
    decreases fields.len(),
{
    if fields.len() == 0 {
        seq![]
    } else {
        struct_seq_reports(fields.drop_last()) + seq_report(fields.last().ty, "a struct field"@, fields.last().span)
    }
}

pub open spec fn payload_seq_reports(fields: Seq<FieldDef>) -> Seq<ErrorView>
    decreases fields.len(),
{
    if fields.len() == 0 {
        seq![]
    } else {
        payload_seq_reports(fields.drop_last()) + seq_report(fields.last().ty, "an enum variant field"@, fields.last().span)
    }
}

pub open spec fn variant_seq_reports(variants: Seq<EnumVariant>) -> Seq<ErrorView>
    decreases variants.len(),
{
    if variants.len() == 0 { seq![] } else { variant_seq_reports(variants.drop_last()) + payload_seq_reports(variants.last().fields@) }
}

pub open spec fn method_seq_reports(methods: Seq<FnDef>) -> Seq<ErrorView>
    decreases methods.len(),
{
    if methods.len() == 0 {
        seq![]
    } else {
        let m = methods.last();
        method_seq_reports(methods.drop_last()) + signature_seq_reports(m.params@, m.return_type, false, m.name.span)
    }
}

/// What one definition, and each definition nested inside it, reports.
pub open spec fn definition_seq_reports(d: Definition) -> Seq<ErrorView>
    decreases d,
{
    match d {
        Definition::Struct(s) => struct_seq_reports(s.fields@),
        Definition::Enum(e) => variant_seq_reports(e.variants@),
        Definition::Function(f) => signature_seq_reports(f.params@, f.return_type, f.extern_abi is Some, f.name.span),
        Definition::Impl(i) => if i.is_extern { seq![] } else { method_seq_reports(i.functions@) },
        Definition::Module(m) => definitions_seq_reports(m.definitions@),
        Definition::Trait(_) => seq![],
    }
}

pub open spec fn definitions_seq_reports(defs: Seq<Definition>) -> Seq<ErrorView>
    decreases defs,
{
    if defs.len() == 0 { seq![] } else { definitions_seq_reports(defs.drop_last()) + definition_seq_reports(defs.last()) }
}

/// What the statements of a file report.
pub open spec fn file_seq_reports(statements: Seq<Statement>) -> Seq<ErrorView>
    decreases statements.len(),
{
    if statements.len() == 0 {
        seq![]
    } else {
        file_seq_reports(statements.drop_last()) + match statements.last() {
            Statement::Definition(d) => definition_seq_reports(*d),
            Statement::Let(binding) => match binding.type_annotation {
                Some(t) => seq_report(t, "a module-level let"@, binding.span),
                None => Seq::<ErrorView>::empty(),
            },
            Statement::Use(_) => Seq::<ErrorView>::empty(),
        }
    }
}

impl SemanticAnalyzer {
    /// Whether a sequence appears anywhere inside `ty`.
    pub fn mentions_sequence(ty: &Type) -> (r: bool)
        ensures
            r == written_sequence(*ty),
        decreases *ty,
    {
        let ghost t0 = *ty;
        match ty {
            Type::Generic { name, args, .. } => {
                if str_equals(name.name.as_str(), "Seq") {
                    return true;
                }
                let mut found = false;
                let mut i: usize = 0;
                while i < args.len()
                    invariant
                        i <= args@.len(),
                        found == written_sequence_args(args@.take(i as int)),
                    decreases args.len() - i,
                {
                    proof {
                        assert(decreases_to!(t0 => t0->args@));
                        assert(decreases_to!(t0->args@ => t0->args@[i as int]));
                        assert(args@.take(i + 1).drop_last() =~= args@.take(i as int));
                    }
                    if Self::mentions_sequence(&args[i]) {
                        found = true;
                    }
                    i += 1;
                }
                assert(args@.take(i as int) =~= args@);
                found
            },
            Type::Array(inner) => Self::mentions_sequence(inner),
            Type::Optional(inner) => Self::mentions_sequence(inner),
            Type::Tuple(fields) => {
                let mut found = false;
                let mut i: usize = 0;
                while i < fields.len()
                    invariant
                        i <= fields@.len(),
                        found == written_sequence_fields(fields@.take(i as int)),
                    decreases fields.len() - i,
                {
                    proof {
                        assert(decreases_to!(t0 => t0->Tuple_0@));
                        assert(decreases_to!(t0->Tuple_0@ => t0->Tuple_0@[i as int]));
                        assert(fields@.take(i + 1).drop_last() =~= fields@.take(i as int));
                    }
                    if Self::mentions_sequence(&fields[i].ty) {
                        found = true;
                    }
                    i += 1;
                }
                assert(fields@.take(i as int) =~= fields@);
                found
            },
            Type::Dictionary { key, value } => Self::mentions_sequence(key) || Self::mentions_sequence(value),
            Type::Closure { params, ret } => {
                let mut found = false;
                let mut i: usize = 0;
                while i < params.len()
                    invariant
                        i <= params@.len(),
                        found == written_sequence_params(params@.take(i as int)),
                    decreases params.len() - i,
                {
                    proof {
                        assert(decreases_to!(t0 => t0->params@));
                        assert(decreases_to!(t0->params@ => t0->params@[i as int]));
                        assert(params@.take(i + 1).drop_last() =~= params@.take(i as int));
                    }
                    if Self::mentions_sequence(&params[i].1) {
                        found = true;
                    }
                    i += 1;
                }
                assert(params@.take(i as int) =~= params@);
                found || Self::mentions_sequence(ret)
            },
            Type::Primitive(_) | Type::Ident(_) => false,
        }
    }

    /// Report `ty` at `position` when a sequence appears anywhere inside
    /// it: nesting a sequence in a container is the same mistake.
    pub fn reject_sequence(&mut self, ty: &Type, position: &str, span: Span)
        ensures
            final(self).same_state(*old(self)),
            error_views(final(self).errors@) == error_views(old(self).errors@) + seq_report(*ty, position@, span),
    {
        if Self::mentions_sequence(ty) {
            self.report(CompilerError::SeqInvalidPosition { position: String::from_str(position), span });
        } else {
            assert(error_views(self.errors@) =~= error_views(self.errors@) + Seq::<ErrorView>::empty());
        }
    }

    /// Check the parameters and the return type of a signature: a
    /// sequence parameter must be `sink`, and only an `extern fn` returns
    /// a sequence.
    pub fn check_seq_signature(&mut self, params: &Vec<FnParam>, return_type: Option<&Type>, is_extern: bool, name_span: Span)
        ensures
            final(self).same_state(*old(self)),
            error_views(final(self).errors@) == error_views(old(self).errors@) + signature_seq_reports(params@, match return_type {
                Some(t) => Some(*t),
                None => None,
            }, is_extern, name_span),
    {
        let ghost e0 = error_views(self.errors@);
        let ghost s0 = *self;
        let mut k: usize = 0;
        while k < params.len()
            invariant
                k <= params@.len(),
                self.same_state(s0),
                error_views(self.errors@) == e0 + param_seq_reports(params@.take(k as int)),
            decreases params.len() - k,
        {
            proof {
                assert(params@.take(k + 1).drop_last() =~= params@.take(k as int));
                assert(params@.take(k + 1).last() == params@[k as int]);
            }
            let param = &params[k];
            match &param.ty {
                Some(ty) => {
                    let is_sink = match param.convention {
                        ParamConvention::Sink => true,
                        _ => false,
                    };
                    if !is_sink {
                        self.reject_sequence(ty, "a parameter that is not `sink`; a sequence must be consumed, so write `sink`", param.span);
                    } else {
                        assert(error_views(self.errors@) =~= error_views(self.errors@) + Seq::<ErrorView>::empty());
                    }
                },
                None => {
                    assert(error_views(self.errors@) =~= error_views(self.errors@) + Seq::<ErrorView>::empty());
                },
            }
            k += 1;
        }
        assert(params@.take(k as int) =~= params@);
        if !is_extern {
            match return_type {
                Some(ty) => self.reject_sequence(ty, "a function return type", name_span),
                None => {
                    assert(error_views(self.errors@) =~= error_views(self.errors@) + Seq::<ErrorView>::empty());
                },
            }
        } else {
            assert(error_views(self.errors@) =~= error_views(self.errors@) + Seq::<ErrorView>::empty());
        }
    }

    /// Check every definition and module-level `let` of `file`.
    pub fn validate_sequence_placement(&mut self, file: &File)
        ensures
            final(self).same_state(*old(self)),
            error_views(final(self).errors@) == error_views(old(self).errors@) + file_seq_reports(file.statements@),
    {
        let ghost e0 = error_views(self.errors@);
        let ghost s0 = *self;
        let mut k: usize = 0;
        while k < file.statements.len()
            invariant
                k <= file.statements@.len(),
                self.same_state(s0),
                error_views(self.errors@) == e0 + file_seq_reports(file.statements@.take(k as int)),
            decreases file.statements.len() - k,
        {
            proof {
                assert(file.statements@.take(k + 1).drop_last() =~= file.statements@.take(k as int));
                assert(file.statements@.take(k + 1).last() == file.statements@[k as int]);
            }
            match &file.statements[k] {
                Statement::Definition(def) => self.check_seq_definition(def),
                Statement::Let(binding) => match &binding.type_annotation {
                    Some(ty) => self.reject_sequence(ty, "a module-level let", binding.span),
                    None => {
                        assert(error_views(self.errors@) =~= error_views(self.errors@) + Seq::<ErrorView>::empty());
                    },
                },
                Statement::Use(_) => {
                    assert(error_views(self.errors@) =~= error_views(self.errors@) + Seq::<ErrorView>::empty());
                },
            }
            k += 1;
        }
        assert(file.statements@.take(k as int) =~= file.statements@);
    }

    /// Check one definition, and each definition nested inside it.
    pub fn check_seq_definition(&mut self, def: &Definition)
        ensures
            final(self).same_state(*old(self)),
            error_views(final(self).errors@) == error_views(old(self).errors@) + definition_seq_reports(*def),
        decreases *def,
    {
        let ghost e0 = error_views(self.errors@);
        let ghost s0 = *self;
        match def {
            Definition::Struct(s) => {
                let fields = &s.fields;
                let mut k: usize = 0;
                while k < fields.len()
                    invariant
                        k <= fields@.len(),
                        self.same_state(s0),
                        error_views(self.errors@) == e0 + struct_seq_reports(fields@.take(k as int)),
                    decreases fields.len() - k,
                {
                    proof {
                        assert(fields@.take(k + 1).drop_last() =~= fields@.take(k as int));
                        assert(fields@.take(k + 1).last() == fields@[k as int]);
                    }
                    self.reject_sequence(&fields[k].ty, "a struct field", fields[k].span);
                    k += 1;
                }
                assert(fields@.take(k as int) =~= fields@);
            },
            Definition::Enum(e) => {
                let variants = &e.variants;
                let mut v: usize = 0;
                while v < variants.len()
                    invariant
                        v <= variants@.len(),
                        self.same_state(s0),
                        error_views(self.errors@) == e0 + variant_seq_reports(variants@.take(v as int)),
                    decreases variants.len() - v,
                {
                    proof {
                        assert(variants@.take(v + 1).drop_last() =~= variants@.take(v as int));
                        assert(variants@.take(v + 1).last() == variants@[v as int]);
                    }
                    let ghost e1 = error_views(self.errors@);
                    let fields = &variants[v].fields;
                    let mut k: usize = 0;
                    while k < fields.len()
                        invariant
                            k <= fields@.len(),
                            self.same_state(s0),
                            error_views(self.errors@) == e1 + payload_seq_reports(fields@.take(k as int)),
                        decreases fields.len() - k,
                    {
                        proof {
                            assert(fields@.take(k + 1).drop_last() =~= fields@.take(k as int));
                            assert(fields@.take(k + 1).last() == fields@[k as int]);
                        }
                        self.reject_sequence(&fields[k].ty, "an enum variant field", fields[k].span);
                        k += 1;
                    }
                    assert(fields@.take(k as int) =~= fields@);
                    v += 1;
                }
                assert(variants@.take(v as int) =~= variants@);
            },
            Definition::Function(f) => {
                let return_type = match &f.return_type {
                    Some(t) => Some(t),
                    None => None,
                };
                self.check_seq_signature(&f.params, return_type, f.extern_abi.is_some(), f.name.span);
            },
            Definition::Impl(i) => {
                if i.is_extern {
                    assert(error_views(self.errors@) =~= e0 + Seq::<ErrorView>::empty());
                    return;
                }
                let methods = &i.functions;
                let mut k: usize = 0;
                while k < methods.len()
                    invariant
                        k <= methods@.len(),
                        self.same_state(s0),
                        error_views(self.errors@) == e0 + method_seq_reports(methods@.take(k as int)),
                    decreases methods.len() - k,
                {
                    proof {
                        assert(methods@.take(k + 1).drop_last() =~= methods@.take(k as int));
                        assert(methods@.take(k + 1).last() == methods@[k as int]);
                    }
                    let method = &methods[k];
                    let return_type = match &method.return_type {
                        Some(t) => Some(t),
                        None => None,
                    };
                    self.check_seq_signature(&method.params, return_type, false, method.name.span);
                    k += 1;
                }
                assert(methods@.take(k as int) =~= methods@);
            },
            Definition::Module(m) => {
                let mut k: usize = 0;
                while k < m.definitions.len()
                    invariant
                        k <= m.definitions@.len(),
                        self.same_state(s0),
                        error_views(self.errors@) == e0 + definitions_seq_reports(m.definitions@.take(k as int)),
                    decreases m.definitions.len() - k,
                {
                    proof {
                        assert(m.definitions@.take(k + 1).drop_last() =~= m.definitions@.take(k as int));
                        assert(decreases_to!(*def => def->Module_0.definitions@));
                        assert(decreases_to!(def->Module_0.definitions@ => def->Module_0.definitions@[k as int]));
                    }
                    self.check_seq_definition(&m.definitions[k]);
                    k += 1;
                }
                assert(m.definitions@.take(k as int) =~= m.definitions@);
            },
            Definition::Trait(_) => {
                assert(error_views(self.errors@) =~= e0 + Seq::<ErrorView>::empty());
            },
        }
    }
}

} // verus!

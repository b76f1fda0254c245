//! Reject closure-typed fields on `pub` structs and `pub` enum variants.
//!
//! A closure's representation is not stable across module or backend
//! boundaries, so a field that escapes a `pub` definition through a
//! closure type is a portability hole.

use vstd::prelude::*;
use vstd::string::StringExecFns;
use crate::analyzer::SemanticAnalyzer;
use crate::ast::{Definition, EnumDef, EnumVariant, FieldDef, File, Statement, StructDef, StructField, TupleTypeField, Type, Visibility};
use crate::error::{error_views, CompilerError, ErrorView};

verus! {

broadcast use vstd::std_specs::vec::group_vec_axioms;

/// `t` is a closure type or holds one in an array, an optional, a tuple,
/// a dictionary or a type argument. A named type has its own check where
/// it is declared.
pub open spec fn written_closure(t: Type) -> bool
    decreases t,
{
    match t {
        Type::Closure { .. } => true,
        Type::Array(e) => written_closure(*e),
        Type::Optional(e) => written_closure(*e),
        Type::Tuple(fields) => written_closure_fields(fields@),
        Type::Dictionary { key, value } => written_closure(*key) || written_closure(*value),
        Type::Generic { args, .. } => written_closure_args(args@),
        Type::Primitive(_) => false,
        Type::Ident(_) => false,
    }
}

pub open spec fn written_closure_args(s: Seq<Type>) -> bool
    decreases s,
{
    s.len() > 0 && (written_closure_args(s.drop_last()) || written_closure(s.last()))
}

pub open spec fn written_closure_fields(s: Seq<TupleTypeField>) -> bool
    decreases s,
{
    s.len() > 0 && (written_closure_fields(s.drop_last()) || written_closure(s.last().ty))
}

/// True when `ty` is a closure type or holds one.
pub fn holds_a_closure(ty: &Type) -> (r: bool)
    ensures
        r == written_closure(*ty),
    decreases *ty,
{
    let ghost t0 = *ty;
    match ty {
        Type::Closure { .. } => true,
        Type::Array(inner) => holds_a_closure(inner),
        Type::Optional(inner) => holds_a_closure(inner),
        Type::Tuple(fields) => {
            let mut found = false;
            let mut i: usize = 0;
            while i < fields.len()
                invariant
                    i <= fields@.len(),
                    found == written_closure_fields(fields@.take(i as int)),
                decreases fields.len() - i,
            {
                proof {
                    assert(decreases_to!(t0 => t0->Tuple_0@));
                    assert(decreases_to!(t0->Tuple_0@ => t0->Tuple_0@[i as int]));
                    assert(fields@.take(i + 1).drop_last() =~= fields@.take(i as int));
                }
                if holds_a_closure(&fields[i].ty) {
                    found = true;
                }
                i += 1;
            }
            assert(fields@.take(i as int) =~= fields@);
            found
        },
        Type::Dictionary { key, value } => holds_a_closure(key) || holds_a_closure(value),
        Type::Generic { args, .. } => {
            let mut found = false;
            let mut i: usize = 0;
            while i < args.len()
                invariant
                    i <= args@.len(),
                    found == written_closure_args(args@.take(i as int)),
                decreases args.len() - i,
            {
                proof {
                    assert(decreases_to!(t0 => t0->args@));
                    assert(decreases_to!(t0->args@ => t0->args@[i as int]));
                    assert(args@.take(i + 1).drop_last() =~= args@.take(i as int));
                }
                if holds_a_closure(&args[i]) {
                    found = true;
                }
                i += 1;
            }
            assert(args@.take(i as int) =~= args@);
            found
        },
        Type::Primitive(_) | Type::Ident(_) => false,
    }
}

/// A report for each field of a public struct whose type holds a closure.
pub open spec fn struct_closure_reports(fields: Seq<StructField>, owner: Seq<char>) -> Seq<ErrorView>
    decreases fields.len(),
{
    if fields.len() == 0 {
        seq![]
    } else {
        struct_closure_reports(fields.drop_last(), owner) + if written_closure(fields.last().ty) {
            seq![ErrorView::PublicClosureField { owner, field: fields.last().name.name@, span: fields.last().span }]
        } else {
            Seq::<ErrorView>::empty()
        }
    }
}

/// A report for each payload field whose type holds a closure.
pub open spec fn payload_closure_reports(fields: Seq<FieldDef>, owner: Seq<char>) -> Seq<ErrorView>
    decreases fields.len(),
{
    if fields.len() == 0 {
        seq![]
    } else {
        payload_closure_reports(fields.drop_last(), owner) + if written_closure(fields.last().ty) {
            seq![ErrorView::PublicClosureField { owner, field: fields.last().name.name@, span: fields.last().span }]
        } else {
            Seq::<ErrorView>::empty()
        }
    }
}

pub open spec fn variant_closure_reports(variants: Seq<EnumVariant>, enum_name: Seq<char>) -> Seq<ErrorView>
    decreases variants.len(),
{
    if variants.len() == 0 {
        seq![]
    } else {
        variant_closure_reports(variants.drop_last(), enum_name) + payload_closure_reports(
            variants.last().fields@,
            "enum "@ + enum_name + " variant "@ + variants.last().name.name@,
        )
    }
}

/// What one definition, and each definition nested inside it, reports.
pub open spec fn closure_field_reports(d: Definition) -> Seq<ErrorView>
    decreases d,
{
    match d {
        Definition::Struct(s) => if s.visibility == Visibility::Public {
            struct_closure_reports(s.fields@, "struct "@ + s.name.name@)
        } else {
            seq![]
        },
        Definition::Enum(e) => if e.visibility == Visibility::Public {
            variant_closure_reports(e.variants@, e.name.name@)
        } else {
            seq![]
        },
        Definition::Module(m) => closure_field_reports_list(m.definitions@),
        _ => seq![],
    }
}

pub open spec fn closure_field_reports_list(defs: Seq<Definition>) -> Seq<ErrorView>
    decreases defs,
{
    if defs.len() == 0 { seq![] } else { closure_field_reports_list(defs.drop_last()) + closure_field_reports(defs.last()) }
}

/// What the definitions of a file report.
pub open spec fn file_closure_field_reports(statements: Seq<Statement>) -> Seq<ErrorView>
    decreases statements.len(),
{
    if statements.len() == 0 {
        seq![]
    } else {
        file_closure_field_reports(statements.drop_last()) + match statements.last() {
            Statement::Definition(d) => closure_field_reports(*d),
            _ => Seq::<ErrorView>::empty(),
        }
    }
}

impl SemanticAnalyzer {
    /// Report each closure-typed field of a public struct or a public
    /// enum variant in `file`, at any depth of modules.
    pub fn validate_public_closure_fields(&mut self, file: &File)
        ensures
            final(self).same_state(*old(self)),
            error_views(final(self).errors@) == error_views(old(self).errors@) + file_closure_field_reports(file.statements@),
    {
        let ghost e0 = error_views(self.errors@);
        let ghost s0 = *self;
        let mut k: usize = 0;
        while k < file.statements.len()
            invariant
                k <= file.statements@.len(),
                self.same_state(s0),
                error_views(self.errors@) == e0 + file_closure_field_reports(file.statements@.take(k as int)),
            decreases file.statements.len() - k,
        {
            proof { assert(file.statements@.take(k + 1).drop_last() =~= file.statements@.take(k as int)); }
            if let Statement::Definition(def) = &file.statements[k] {
                self.check_closure_field_definition(def);
            } else {
                assert(error_views(self.errors@) =~= error_views(self.errors@) + Seq::<ErrorView>::empty());
            }
            k += 1;
        }
        assert(file.statements@.take(k as int) =~= file.statements@);
    }

    /// Report the closure-typed public fields of one definition, and of
    /// each definition nested inside it.
    pub fn check_closure_field_definition(&mut self, def: &Definition)
        ensures
            final(self).same_state(*old(self)),
            error_views(final(self).errors@) == error_views(old(self).errors@) + closure_field_reports(*def),
        decreases *def,
    {
        let ghost e0 = error_views(self.errors@);
        let ghost s0 = *self;
        match def {
            Definition::Struct(s) => self.check_closure_field_struct(s),
            Definition::Enum(e) => self.check_closure_field_enum(e),
            Definition::Module(m) => {
                let mut k: usize = 0;
                while k < m.definitions.len()
                    invariant
                        k <= m.definitions@.len(),
                        self.same_state(s0),
                        error_views(self.errors@) == e0 + closure_field_reports_list(m.definitions@.take(k as int)),
                    decreases m.definitions.len() - k,
                {
                    proof {
                        assert(m.definitions@.take(k + 1).drop_last() =~= m.definitions@.take(k as int));
                        assert(decreases_to!(*def => def->Module_0.definitions@));
                        assert(decreases_to!(def->Module_0.definitions@ => def->Module_0.definitions@[k as int]));
                    }
                    self.check_closure_field_definition(&m.definitions[k]);
                    k += 1;
                }
                assert(m.definitions@.take(k as int) =~= m.definitions@);
            },
            _ => {
                assert(error_views(self.errors@) =~= e0 + Seq::<ErrorView>::empty());
            },
        }
    }

    /// Report each closure-typed field of a public struct.
    pub fn check_closure_field_struct(&mut self, struct_def: &StructDef)
        ensures
            final(self).same_state(*old(self)),
            error_views(final(self).errors@) == error_views(old(self).errors@) + if struct_def.visibility == Visibility::Public {
                struct_closure_reports(struct_def.fields@, "struct "@ + struct_def.name.name@)
            } else {
                Seq::<ErrorView>::empty()
            },
    {
        let ghost e0 = error_views(self.errors@);
        let ghost s0 = *self;
        match struct_def.visibility {
            Visibility::Private => {
                assert(error_views(self.errors@) =~= e0 + Seq::<ErrorView>::empty());
                return;
            },
            Visibility::Public => {},
        }
        let mut owner = String::from_str("struct ");
        owner.append(struct_def.name.name.as_str());
        let fields = &struct_def.fields;
        let mut k: usize = 0;
        while k < fields.len()
            invariant
                k <= fields@.len(),
                self.same_state(s0),
                owner@ == "struct "@ + struct_def.name.name@,
                error_views(self.errors@) == e0 + struct_closure_reports(fields@.take(k as int), owner@),
            decreases fields.len() - k,
        {
            proof {
                assert(fields@.take(k + 1).drop_last() =~= fields@.take(k as int));
                assert(fields@.take(k + 1).last() == fields@[k as int]);
            }
            if holds_a_closure(&fields[k].ty) {
                self.report(CompilerError::PublicClosureField {
                    owner: owner.clone(),
                    field: fields[k].name.name.clone(),
                    span: fields[k].span,
                });
            } else {
                assert(error_views(self.errors@) =~= error_views(self.errors@) + Seq::<ErrorView>::empty());
            }
            k += 1;
        }
        assert(fields@.take(k as int) =~= fields@);
    }

    /// Report each closure-typed payload field of a public enum.
    pub fn check_closure_field_enum(&mut self, enum_def: &EnumDef)
        ensures
            final(self).same_state(*old(self)),
            error_views(final(self).errors@) == error_views(old(self).errors@) + if enum_def.visibility == Visibility::Public {
                variant_closure_reports(enum_def.variants@, enum_def.name.name@)
            } else {
                Seq::<ErrorView>::empty()
            },
    {
        let ghost e0 = error_views(self.errors@);
        let ghost s0 = *self;
        match enum_def.visibility {
            Visibility::Private => {
                assert(error_views(self.errors@) =~= e0 + Seq::<ErrorView>::empty());
                return;
            },
            Visibility::Public => {},
        }
        let variants = &enum_def.variants;
        let mut v: usize = 0;
        while v < variants.len()
            invariant
                v <= variants@.len(),
                self.same_state(s0),
                error_views(self.errors@) == e0 + variant_closure_reports(variants@.take(v as int), enum_def.name.name@),
            decreases variants.len() - v,
        {
            proof {
                assert(variants@.take(v + 1).drop_last() =~= variants@.take(v as int));
                assert(variants@.take(v + 1).last() == variants@[v as int]);
            }
            let mut owner = String::from_str("enum ");
            owner.append(enum_def.name.name.as_str());
            owner.append(" variant ");
            owner.append(variants[v].name.name.as_str());
            let ghost e1 = error_views(self.errors@);
            let fields = &variants[v].fields;
            let mut k: usize = 0;
            while k < fields.len()
                invariant
                    k <= fields@.len(),
                    self.same_state(s0),
                    error_views(self.errors@) == e1 + payload_closure_reports(fields@.take(k as int), owner@),
                decreases fields.len() - k,
            {
                proof {
                    assert(fields@.take(k + 1).drop_last() =~= fields@.take(k as int));
                    assert(fields@.take(k + 1).last() == fields@[k as int]);
                }
                if holds_a_closure(&fields[k].ty) {
                    self.report(CompilerError::PublicClosureField {
                        owner: owner.clone(),
                        field: fields[k].name.name.clone(),
                        span: fields[k].span,
                    });
                } else {
                    assert(error_views(self.errors@) =~= error_views(self.errors@) + Seq::<ErrorView>::empty());
                }
                k += 1;
            }
            assert(fields@.take(k as int) =~= fields@);
            v += 1;
        }
        assert(variants@.take(v as int) =~= variants@);
    }
}

} // verus!

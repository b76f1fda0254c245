//! Reject two declarations of one name inside a single definition.
//!
//! A struct with two fields called `x`, or a function with two parameters
//! called `a`, has no answer to the question "which one does `x` mean?".
//! The rule covers a struct's fields, an enum variant's payload fields, a
//! trait's fields, and the parameters of a function, a method, or a trait
//! method, by name and by external label. A later declaration of a name
//! already declared is the one reported. Shadowing with `let` stays legal.

use vstd::prelude::*;
use vstd::string::StringExecFns;
use crate::analyzer::SemanticAnalyzer;
use crate::ast::{Definition, EnumDef, FieldDef, File, FnParam, Ident, Statement, StructDef, StructField, TraitDef};
use crate::error::{error_views, CompilerError, ErrorView};
use crate::text::{lemma_views_push, list_contains, views};

verus! {

broadcast use vstd::std_specs::vec::group_vec_axioms;

/// `"<a><b><c><d>"` from four texts.
pub open spec fn cat4(a: Seq<char>, b: Seq<char>, c: Seq<char>, d: Seq<char>) -> Seq<char> {
    a + b + c + d
}

/// The names of struct fields.
pub open spec fn struct_field_names(fields: Seq<StructField>) -> Seq<Seq<char>> {
    fields.map_values(|f: StructField| f.name.name@)
}

/// The names of payload or trait fields.
pub open spec fn field_names(fields: Seq<FieldDef>) -> Seq<Seq<char>> {
    fields.map_values(|f: FieldDef| f.name.name@)
}

/// A report for each struct field whose name an earlier field has.
pub open spec fn struct_field_dups(fields: Seq<StructField>, owner: Seq<char>) -> Seq<ErrorView>
    decreases fields.len(),
{
    if fields.len() == 0 {
        seq![]
    } else {
        struct_field_dups(fields.drop_last(), owner) + if struct_field_names(fields.drop_last()).contains(fields.last().name.name@) {
            seq![ErrorView::DuplicateDefinition {
                name: cat4("field '"@, fields.last().name.name@, "' of struct "@, owner),
                span: fields.last().span,
            }]
        } else {
            seq![]
        }
    }
}

/// A report for each field whose name an earlier field has; `describe`
/// gives the text after the field's name.
pub open spec fn field_dups(fields: Seq<FieldDef>, prefix: Seq<char>, owner: Seq<char>) -> Seq<ErrorView>
    decreases fields.len(),
{
    if fields.len() == 0 {
        seq![]
    } else {
        field_dups(fields.drop_last(), prefix, owner) + if field_names(fields.drop_last()).contains(fields.last().name.name@) {
            seq![ErrorView::DuplicateDefinition {
                name: cat4("field '"@, fields.last().name.name@, prefix, owner),
                span: fields.last().span,
            }]
        } else {
            seq![]
        }
    }
}

/// The names of parameters.
pub open spec fn param_names(params: Seq<FnParam>) -> Seq<Seq<char>> {
    params.map_values(|p: FnParam| p.name.name@)
}

/// The external labels that parameters declare, in order.
pub open spec fn param_labels(params: Seq<FnParam>) -> Seq<Seq<char>>
    decreases params.len(),
{
    if params.len() == 0 {
        seq![]
    } else {
        param_labels(params.drop_last()) + match params.last().external_label {
            Some(l) => seq![l.name@],
            None => seq![],
        }
    }
}

/// A report for each parameter whose name an earlier parameter has, and
/// for each whose external label an earlier one has.
pub open spec fn param_dups(params: Seq<FnParam>, owner: Seq<char>) -> Seq<ErrorView>
    decreases params.len(),
{
    if params.len() == 0 {
        seq![]
    } else {
        let p = params.last();
        let earlier = params.drop_last();
        param_dups(earlier, owner) + (if param_names(earlier).contains(p.name.name@) {
            seq![ErrorView::DuplicateDefinition {
                name: cat4("parameter '"@, p.name.name@, "' of "@, owner),
                span: p.span,
            }]
        } else {
            seq![]
        }) + match p.external_label {
            Some(l) => if param_labels(earlier).contains(l.name@) {
                seq![ErrorView::DuplicateDefinition {
                    name: cat4("argument label '"@, l.name@, "' of "@, owner),
                    span: p.span,
                }]
            } else {
                seq![]
            },
            None => seq![],
        }
    }
}

/// The reports for each variant of an enum.
pub open spec fn variant_dups(variants: Seq<crate::ast::EnumVariant>, owner: Seq<char>) -> Seq<ErrorView>
    decreases variants.len(),
{
    if variants.len() == 0 {
        seq![]
    } else {
        variant_dups(variants.drop_last(), owner)
            + field_dups(variants.last().fields@, "' of variant "@, owner + "."@ + variants.last().name.name@)
    }
}

/// The reports for the methods of a trait or an impl.
pub open spec fn signature_dups(methods: Seq<crate::ast::FnSignature>) -> Seq<ErrorView>
    decreases methods.len(),
{
    if methods.len() == 0 {
        seq![]
    } else {
        signature_dups(methods.drop_last()) + param_dups(methods.last().params@, methods.last().name.name@)
    }
}

pub open spec fn method_dups(methods: Seq<crate::ast::FnDef>) -> Seq<ErrorView>
    decreases methods.len(),
{
    if methods.len() == 0 {
        seq![]
    } else {
        method_dups(methods.drop_last()) + param_dups(methods.last().params@, methods.last().name.name@)
    }
}

/// The reports for one definition and each definition nested inside it.
pub open spec fn definition_dups(d: Definition) -> Seq<ErrorView>
    decreases d,
{
    match d {
        Definition::Struct(s) => struct_field_dups(s.fields@, s.name.name@),
        Definition::Enum(e) => variant_dups(e.variants@, e.name.name@),
        Definition::Function(f) => param_dups(f.params@, f.name.name@),
        Definition::Impl(i) => method_dups(i.functions@),
        Definition::Trait(t) => field_dups(t.fields@, "' of trait "@, t.name.name@) + signature_dups(t.methods@),
        Definition::Module(m) => definitions_dups(m.definitions@),
    }
}

pub open spec fn definitions_dups(defs: Seq<Definition>) -> Seq<ErrorView>
    decreases defs,
{
    if defs.len() == 0 { seq![] } else { definitions_dups(defs.drop_last()) + definition_dups(defs.last()) }
}

/// The reports for the definitions of a file.
pub open spec fn file_dups(statements: Seq<Statement>) -> Seq<ErrorView>
    decreases statements.len(),
{
    if statements.len() == 0 {
        seq![]
    } else {
        file_dups(statements.drop_last()) + match statements.last() {
            Statement::Definition(d) => definition_dups(*d),
            _ => seq![],
        }
    }
}

/// `a + b + c + d` as a new string.
fn message4(a: &str, b: &str, c: &str, d: &str) -> (r: String)
    ensures
        r@ == cat4(a@, b@, c@, d@),
{
    let mut m = String::from_str(a);
    m.append(b);
    m.append(c);
    m.append(d);
    m
}

impl SemanticAnalyzer {
    /// Report a name declared twice inside one definition, for each
    /// definition of `file`.
    pub fn validate_duplicate_names(&mut self, file: &File)
        ensures
            final(self).same_state(*old(self)),
            error_views(final(self).errors@) == error_views(old(self).errors@) + file_dups(file.statements@),
    {
        let ghost e0 = error_views(self.errors@);
        let ghost s00 = *self;
        let mut k: usize = 0;
        while k < file.statements.len()
            invariant
                self.same_state(s00),
                k <= file.statements@.len(),
                error_views(self.errors@) == e0 + file_dups(file.statements@.take(k as int)),
            decreases file.statements.len() - k,
        {
            proof { assert(file.statements@.take(k + 1).drop_last() =~= file.statements@.take(k as int)); }
            if let Statement::Definition(def) = &file.statements[k] {
                self.check_definition_for_duplicates(def);
            }
            assert(error_views(self.errors@) =~= e0 + file_dups(file.statements@.take(k + 1)));
            k += 1;
        }
        assert(file.statements@.take(k as int) =~= file.statements@);
    }

    /// Report the duplicate names of one definition, and of each definition
    /// nested inside it. Methods of an impl may share a name: a method
    /// overloads by the shape of the call.
    pub fn check_definition_for_duplicates(&mut self, def: &Definition)
        ensures
            final(self).same_state(*old(self)),
            error_views(final(self).errors@) == error_views(old(self).errors@) + definition_dups(*def),
        decreases *def,
    {
        let ghost e0 = error_views(self.errors@);
        let ghost s00 = *self;
        match def {
            Definition::Struct(s) => self.check_struct_fields_are_unique(s),
            Definition::Enum(e) => self.check_enum_fields_are_unique(e),
            Definition::Function(f) => self.check_params_are_unique(&f.name, &f.params),
            Definition::Impl(impl_def) => {
                let mut k: usize = 0;
                while k < impl_def.functions.len()
                    invariant
                        self.same_state(s00),
                        k <= impl_def.functions@.len(),
                        error_views(self.errors@) == e0 + method_dups(impl_def.functions@.take(k as int)),
                    decreases impl_def.functions.len() - k,
                {
                    proof { assert(impl_def.functions@.take(k + 1).drop_last() =~= impl_def.functions@.take(k as int)); }
                    self.check_params_are_unique(&impl_def.functions[k].name, &impl_def.functions[k].params);
                    k += 1;
                }
                assert(impl_def.functions@.take(k as int) =~= impl_def.functions@);
            },
            Definition::Trait(trait_def) => self.check_trait_is_unique(trait_def),
            Definition::Module(m) => {
                let mut k: usize = 0;
                while k < m.definitions.len()
                    invariant
                        self.same_state(s00),
                        k <= m.definitions@.len(),
                        error_views(self.errors@) == e0 + definitions_dups(m.definitions@.take(k as int)),
                    decreases m.definitions.len() - k,
                {
                    proof {
                        assert(m.definitions@.take(k + 1).drop_last() =~= m.definitions@.take(k as int));
                        assert(decreases_to!(*def => def->Module_0.definitions@));
                        assert(decreases_to!(def->Module_0.definitions@ => def->Module_0.definitions@[k as int]));
                    }
                    self.check_definition_for_duplicates(&m.definitions[k]);
                    k += 1;
                }
                assert(m.definitions@.take(k as int) =~= m.definitions@);
            },
        }
    }

    /// Report each field of a struct whose name an earlier field has.
    pub fn check_struct_fields_are_unique(&mut self, struct_def: &StructDef)
        ensures
            final(self).same_state(*old(self)),
            error_views(final(self).errors@) == error_views(old(self).errors@)
                + struct_field_dups(struct_def.fields@, struct_def.name.name@),
    {
        let ghost e0 = error_views(self.errors@);
        let ghost s00 = *self;
        let fields = &struct_def.fields;
        let mut seen: Vec<String> = Vec::new();
        let mut k: usize = 0;
        while k < fields.len()
            invariant
                self.same_state(s00),
                k <= fields@.len(),
                views(seen@) == struct_field_names(fields@.take(k as int)),
                error_views(self.errors@) == e0 + struct_field_dups(fields@.take(k as int), struct_def.name.name@),
            decreases fields.len() - k,
        {
            proof {
                assert(fields@.take(k + 1).drop_last() =~= fields@.take(k as int));
                assert(fields@.take(k + 1).last() == fields@[k as int]);
            }
            let name = &fields[k].name.name;
            let ghost eb = error_views(self.errors@);
            if list_contains(&seen, name.as_str()) {
                let message = message4("field '", name.as_str(), "' of struct ", struct_def.name.name.as_str());
                self.errors.push(CompilerError::DuplicateDefinition { name: message, span: fields[k].span });
                assert(error_views(self.errors@) =~= eb + seq![self.errors@.last()@]);
            }
            let ghost sb = seen@;
            let copy = name.clone();
            seen.push(copy);
            proof {
                lemma_views_push(sb, copy);
                assert(struct_field_names(fields@.take(k + 1)) =~= struct_field_names(fields@.take(k as int)).push(name@));
            }
            k += 1;
        }
        assert(fields@.take(k as int) =~= fields@);
    }

    /// Report the duplicate fields of `fields`, with `prefix` and `owner`
    /// after the field's name in the message.
    fn check_fields_are_unique(&mut self, fields: &Vec<FieldDef>, prefix: &str, owner: &str)
        ensures
            final(self).same_state(*old(self)),
            error_views(final(self).errors@) == error_views(old(self).errors@) + field_dups(fields@, prefix@, owner@),
    {
        let ghost e0 = error_views(self.errors@);
        let ghost s00 = *self;
        let mut seen: Vec<String> = Vec::new();
        let mut k: usize = 0;
        while k < fields.len()
            invariant
                self.same_state(s00),
                k <= fields@.len(),
                views(seen@) == field_names(fields@.take(k as int)),
                error_views(self.errors@) == e0 + field_dups(fields@.take(k as int), prefix@, owner@),
            decreases fields.len() - k,
        {
            proof {
                assert(fields@.take(k + 1).drop_last() =~= fields@.take(k as int));
                assert(fields@.take(k + 1).last() == fields@[k as int]);
            }
            let name = &fields[k].name.name;
            let ghost eb = error_views(self.errors@);
            if list_contains(&seen, name.as_str()) {
                let message = message4("field '", name.as_str(), prefix, owner);
                self.errors.push(CompilerError::DuplicateDefinition { name: message, span: fields[k].span });
                assert(error_views(self.errors@) =~= eb + seq![self.errors@.last()@]);
            }
            let ghost sb = seen@;
            let copy = name.clone();
            seen.push(copy);
            proof {
                lemma_views_push(sb, copy);
                assert(field_names(fields@.take(k + 1)) =~= field_names(fields@.take(k as int)).push(name@));
            }
            k += 1;
        }
        assert(fields@.take(k as int) =~= fields@);
    }

    /// Report, in each variant of an enum, each payload field whose name an
    /// earlier field of that variant has.
    pub fn check_enum_fields_are_unique(&mut self, enum_def: &EnumDef)
        ensures
            final(self).same_state(*old(self)),
            error_views(final(self).errors@) == error_views(old(self).errors@)
                + variant_dups(enum_def.variants@, enum_def.name.name@),
    {
        let ghost e0 = error_views(self.errors@);
        let ghost s00 = *self;
        let variants = &enum_def.variants;
        let mut k: usize = 0;
        while k < variants.len()
            invariant
                self.same_state(s00),
                k <= variants@.len(),
                error_views(self.errors@) == e0 + variant_dups(variants@.take(k as int), enum_def.name.name@),
            decreases variants.len() - k,
        {
            proof {
                assert(variants@.take(k + 1).drop_last() =~= variants@.take(k as int));
                assert(variants@.take(k + 1).last() == variants@[k as int]);
            }
            let mut owner = enum_def.name.name.clone();
            owner.append(".");
            owner.append(variants[k].name.name.as_str());
            self.check_fields_are_unique(&variants[k].fields, "' of variant ", owner.as_str());
            k += 1;
        }
        assert(variants@.take(k as int) =~= variants@);
    }

    /// Report the duplicate fields of a trait, and the duplicate parameters
    /// of each of its methods.
    pub fn check_trait_is_unique(&mut self, trait_def: &TraitDef)
        ensures
            final(self).same_state(*old(self)),
            error_views(final(self).errors@) == error_views(old(self).errors@)
                + field_dups(trait_def.fields@, "' of trait "@, trait_def.name.name@) + signature_dups(trait_def.methods@),
    {
        let ghost e0 = error_views(self.errors@);
        let ghost s00 = *self;
        self.check_fields_are_unique(&trait_def.fields, "' of trait ", trait_def.name.name.as_str());
        let ghost e1 = error_views(self.errors@);
        let methods = &trait_def.methods;
        let mut k: usize = 0;
        while k < methods.len()
            invariant
                self.same_state(s00),
                k <= methods@.len(),
                error_views(self.errors@) == e1 + signature_dups(methods@.take(k as int)),
            decreases methods.len() - k,
        {
            proof { assert(methods@.take(k + 1).drop_last() =~= methods@.take(k as int)); }
            self.check_params_are_unique(&methods[k].name, &methods[k].params);
            k += 1;
        }
        assert(methods@.take(k as int) =~= methods@);
    }

    /// Report each parameter whose name an earlier parameter has, and each
    /// whose external label an earlier one declares: a call names an
    /// argument by either.
    pub fn check_params_are_unique(&mut self, owner: &Ident, params: &Vec<FnParam>)
        ensures
            final(self).same_state(*old(self)),
            error_views(final(self).errors@) == error_views(old(self).errors@) + param_dups(params@, owner.name@),
    {
        let ghost e0 = error_views(self.errors@);
        let ghost s00 = *self;
        let mut seen_names: Vec<String> = Vec::new();
        let mut seen_labels: Vec<String> = Vec::new();
        let mut k: usize = 0;
        while k < params.len()
            invariant
                self.same_state(s00),
                k <= params@.len(),
                views(seen_names@) == param_names(params@.take(k as int)),
                views(seen_labels@) == param_labels(params@.take(k as int)),
                error_views(self.errors@) == e0 + param_dups(params@.take(k as int), owner.name@),
            decreases params.len() - k,
        {
            proof {
                assert(params@.take(k + 1).drop_last() =~= params@.take(k as int));
                assert(params@.take(k + 1).last() == params@[k as int]);
            }
            let param = &params[k];
            let ghost eb = error_views(self.errors@);
            if list_contains(&seen_names, param.name.name.as_str()) {
                let message = message4("parameter '", param.name.name.as_str(), "' of ", owner.name.as_str());
                self.errors.push(CompilerError::DuplicateDefinition { name: message, span: param.span });
                assert(error_views(self.errors@) =~= eb + seq![self.errors@.last()@]);
            }
            let ghost sn = seen_names@;
            let copy = param.name.name.clone();
            seen_names.push(copy);
            proof { lemma_views_push(sn, copy); }
            let ghost em = error_views(self.errors@);
            match &param.external_label {
                Some(label) => {
                    if list_contains(&seen_labels, label.name.as_str()) {
                        let message = message4("argument label '", label.name.as_str(), "' of ", owner.name.as_str());
                        self.errors.push(CompilerError::DuplicateDefinition { name: message, span: param.span });
                        assert(error_views(self.errors@) =~= em + seq![self.errors@.last()@]);
                    }
                    let ghost sl = seen_labels@;
                    let copy = label.name.clone();
                    seen_labels.push(copy);
                    proof { lemma_views_push(sl, copy); }
                },
                None => {},
            }
            proof {
                assert(param_names(params@.take(k + 1)) =~= param_names(params@.take(k as int)).push(param.name.name@));
                match params@[k as int].external_label {
                    Some(l) => {
                        assert(param_labels(params@.take(k + 1)) =~= param_labels(params@.take(k as int)).push(l.name@));
                    },
                    None => {
                        assert(param_labels(params@.take(k + 1)) =~= param_labels(params@.take(k as int)));
                    },
                }
                assert(error_views(self.errors@) =~= e0 + param_dups(params@.take(k + 1), owner.name@));
            }
            k += 1;
        }
        assert(params@.take(k as int) =~= params@);
    }
}

} // verus!

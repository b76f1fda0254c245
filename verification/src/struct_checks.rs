//! The fields of a struct instantiation: each named field must be a field
//! of the struct, each required field must be given, and a closure stored
//! in a closure-typed field escapes with the struct.
//!
//! The struct is looked up as the code under check names it: in the
//! module that holds the code first, then in each enclosing module and
//! the top level of the file, then in the imported modules.

use vstd::prelude::*;
use vstd::string::{StrSliceExecFns, StringExecFns};
use crate::analyzer::SemanticAnalyzer;
use crate::ast::{expr_span, Definition, Expr, File, GenericParam, Ident, Span, Statement, StructDef, StructField, Type};
use crate::call_shape::type_views;
use crate::sem_type::{display_of, sem_of, SType, SemType};
use crate::type_names::{mentions_any, type_mentions_any};
use crate::symbols::{enum_named, struct_named, SymbolTable};
use crate::closures::captures_of;
use crate::error::{error_views, CompilerError, ErrorView};
use crate::escape::transitive_captures;
use crate::qualified_types::first_module;
use crate::text::{str_equals, views};

verus! {

broadcast use vstd::std_specs::vec::group_vec_axioms;

/// The definitions at the top level of a file, in order.
pub open spec fn top_definitions(stmts: Seq<Statement>) -> Seq<Definition>
    decreases stmts.len(),
{
    if stmts.len() == 0 {
        seq![]
    } else {
        top_definitions(stmts.drop_last()) + match stmts.last() {
            Statement::Definition(d) => seq![*d],
            _ => Seq::<Definition>::empty(),
        }
    }
}

/// The definitions that code inside the modules `path` can name, one list
/// per level: `defs` first, then the definitions of each module on the
/// path, as far as the path goes on naming a module.
pub open spec fn scope_levels(defs: Seq<Definition>, path: Seq<Seq<char>>) -> Seq<Seq<Definition>>
    decreases path.len(),
{
    seq![defs] + if path.len() > 0 {
        match first_module(defs, path[0]) {
            Some(i) => match defs[i] {
                Definition::Module(m) => scope_levels(m.definitions@, path.drop_first()),
                _ => Seq::<Seq<Definition>>::empty(),
            },
            None => Seq::<Seq<Definition>>::empty(),
        }
    } else {
        Seq::<Seq<Definition>>::empty()
    }
}

/// The first struct called `name` among `defs`.
pub open spec fn first_struct_in(defs: Seq<Definition>, name: Seq<char>) -> Option<StructDef>
    decreases defs.len(),
{
    if defs.len() == 0 {
        None
    } else {
        match defs[0] {
            Definition::Struct(s) => if s.name.name@ == name { Some(s) } else { first_struct_in(defs.drop_first(), name) },
            _ => first_struct_in(defs.drop_first(), name),
        }
    }
}

/// The struct called `name` of the innermost level that has one.
pub open spec fn search_levels(levels: Seq<Seq<Definition>>, name: Seq<char>) -> Option<StructDef>
    decreases levels.len(),
{
    if levels.len() == 0 {
        None
    } else {
        match first_struct_in(levels.last(), name) {
            Some(s) => Some(s),
            None => search_levels(levels.drop_last(), name),
        }
    }
}

/// The struct called `name` at the top level of the first file that has
/// one.
pub open spec fn files_struct(files: Seq<File>, name: Seq<char>) -> Option<StructDef>
    decreases files.len(),
{
    if files.len() == 0 {
        None
    } else {
        match first_struct_in(top_definitions(files[0].statements@), name) {
            Some(s) => Some(s),
            None => files_struct(files.drop_first(), name),
        }
    }
}

/// The struct called `name`, as the code under check names it.
pub open spec fn struct_def_lookup(a: SemanticAnalyzer, file: File, name: Seq<char>) -> Option<StructDef> {
    match search_levels(scope_levels(top_definitions(file.statements@), views(a.enclosing_modules@)), name) {
        Some(s) => Some(s),
        None => files_struct(a.module_files@, name),
    }
}

/// The first field of `fields` called `name`.
pub open spec fn first_field_named(fields: Seq<StructField>, name: Seq<char>) -> Option<StructField>
    decreases fields.len(),
{
    if fields.len() == 0 {
        None
    } else if fields[0].name.name@ == name {
        Some(fields[0])
    } else {
        first_field_named(fields.drop_first(), name)
    }
}

/// What a closure value escaping at `e` takes with it.
pub open spec fn escape_set(a: SemanticAnalyzer, e: Expr) -> Set<Seq<char>> {
    match captures_of(a.closure_binding_captures@, e) {
        Some(caps) => transitive_captures(a.closure_binding_captures@, caps.to_set()),
        None => Set::empty(),
    }
}

/// What the arguments given to closure-typed fields take with them.
pub open spec fn struct_escapes(a: SemanticAnalyzer, fields: Seq<StructField>, args: Seq<(Ident, Expr)>) -> Set<Seq<char>>
    decreases args.len(),
{
    if args.len() == 0 {
        Set::empty()
    } else {
        struct_escapes(a, fields, args.drop_last()).union(match first_field_named(fields, args.last().0.name@) {
            Some(f) => if f.ty is Closure { escape_set(a, args.last().1) } else { Set::empty() },
            None => Set::empty(),
        })
    }
}

/// The arguments of a call that carry a label, with their labels.
pub open spec fn named_args(args: Seq<(Option<Ident>, Expr)>) -> Seq<(Ident, Expr)>
    decreases args.len(),
{
    if args.len() == 0 {
        seq![]
    } else {
        named_args(args.drop_last()) + match args.last().0 {
            Some(l) => seq![(l, args.last().1)],
            None => Seq::<(Ident, Expr)>::empty(),
        }
    }
}

/// The names of the fields of a struct.
pub open spec fn struct_field_names_of(fields: Seq<StructField>) -> Seq<Seq<char>> {
    fields.map_values(|f: StructField| f.name.name@)
}

/// The names the arguments give.
pub open spec fn arg_labels(args: Seq<(Ident, Expr)>) -> Seq<Seq<char>> {
    args.map_values(|a: (Ident, Expr)| a.0.name@)
}

/// A field without a default value that is not optional must be given.
pub open spec fn required(f: StructField) -> bool {
    f.default is None && !f.optional
}

/// The names of the required fields, in order.
pub open spec fn required_field_names(fields: Seq<StructField>) -> Seq<Seq<char>>
    decreases fields.len(),
{
    if fields.len() == 0 {
        seq![]
    } else {
        required_field_names(fields.drop_last()) + if required(fields.last()) {
            seq![fields.last().name.name@]
        } else {
            Seq::<Seq<char>>::empty()
        }
    }
}

/// A `MissingField` for each required field that no argument names.
pub open spec fn missing_field_reports(req: Seq<Seq<char>>, given: Seq<Seq<char>>, owner: Seq<char>, span: Span) -> Seq<ErrorView>
    decreases req.len(),
{
    if req.len() == 0 {
        seq![]
    } else {
        missing_field_reports(req.drop_last(), given, owner, span) + if !given.contains(req.last()) {
            seq![ErrorView::MissingField { field: req.last(), named_type: owner, span }]
        } else {
            Seq::<ErrorView>::empty()
        }
    }
}

/// `d` with its `?` marks at the end taken off.
pub open spec fn trim_marks(d: Seq<char>) -> Seq<char>
    decreases d.len(),
{
    if d.len() > 0 && d.last() == '?' { trim_marks(d.drop_last()) } else { d }
}

/// A value of type `found` may stand in a field whose type reads
/// `declared`: `nil`, or the type without its optional mark, in an
/// optional field; a value whose type is not known here; or a type that
/// `compatible` says fits.
pub open spec fn field_value_fits(declared: Seq<char>, found: SType, compatible: bool) -> bool {
    let optional = declared.len() > 0 && declared.last() == '?';
    ||| (found is Nil && optional)
    ||| (optional && trim_marks(declared) == display_of(found))
    ||| found is Unknown
    ||| found is InferredEnum
    ||| compatible
}

/// The names of a struct's type parameters.
pub open spec fn def_generic_names(d: StructDef) -> Seq<Seq<char>> {
    d.generics@.map_values(|g: GenericParam| g.name.name@)
}

/// What the labelled arguments of an instantiation of `d` report, in
/// order: a label that names no field, or a value whose type does not fit
/// the type of its field when that type names none of the struct's type
/// parameters. `types[k]` is the type of the value at `k`, and
/// `compatible[k]` whether that type fits the field's type.
pub open spec fn field_arg_reports(d: StructDef, args: Seq<(Option<Ident>, Expr)>, owner: Seq<char>, types: Seq<SType>, compatible: Seq<bool>) -> Seq<ErrorView>
    decreases args.len(),
{
    if args.len() == 0 {
        seq![]
    } else {
        let k = args.len() - 1;
        field_arg_reports(d, args.drop_last(), owner, types, compatible) + match args.last().0 {
            None => Seq::<ErrorView>::empty(),
            Some(l) => match first_field_named(d.fields@, l.name@) {
                None => seq![ErrorView::UnknownField { field: l.name@, named_type: owner, span: l.span }],
                Some(f) => if mentions_any(f.ty, def_generic_names(d)) || field_value_fits(display_of(sem_of(f.ty)), types[k], compatible[k]) {
                    Seq::<ErrorView>::empty()
                } else {
                    seq![ErrorView::TypeMismatch { expected: display_of(sem_of(f.ty)), found: display_of(types[k]), span: expr_span(args.last().1) }]
                },
            },
        }
    }
}

/// What the fields of an instantiation of `owner` report.
pub open spec fn struct_field_reports(def: Option<StructDef>, args: Seq<(Option<Ident>, Expr)>, owner: Seq<char>, span: Span,
    types: Seq<SType>, compatible: Seq<bool>) -> Seq<ErrorView> {
    match def {
        None => seq![],
        Some(d) => field_arg_reports(d, args, owner, types, compatible)
            + missing_field_reports(required_field_names(d.fields@), arg_labels(named_args(args)), owner, span),
    }
}

/// A field of each name, with how its type reads and whether that type
/// names one of `generics`.
pub open spec fn field_infos(fields: Seq<StructField>, generics: Seq<Seq<char>>) -> Seq<(Seq<char>, Seq<char>, bool)> {
    fields.map_values(|f: StructField| (f.name.name@, display_of(sem_of(f.ty)), mentions_any(f.ty, generics)))
}

pub open spec fn infos_view(v: Seq<(String, String, bool)>) -> Seq<(Seq<char>, Seq<char>, bool)> {
    v.map_values(|x: (String, String, bool)| (x.0@, x.1@, x.2))
}

proof fn lemma_first_field_at(fields: Seq<StructField>, name: Seq<char>, j: int)
    requires
        0 <= j < fields.len(),
        fields[j].name.name@ == name,
        forall|i: int| 0 <= i < j ==> (#[trigger] fields[i]).name.name@ != name,
    ensures
        first_field_named(fields, name) == Some(fields[j]),
    decreases j,
{
    if j > 0 {
        assert forall|i: int| 0 <= i < j - 1 implies (#[trigger] fields.drop_first()[i]).name.name@ != name by {
            assert(fields.drop_first()[i] == fields[i + 1]);
        }
        lemma_first_field_at(fields.drop_first(), name, j - 1);
    }
}

proof fn lemma_no_field(fields: Seq<StructField>, name: Seq<char>)
    requires
        forall|i: int| 0 <= i < fields.len() ==> (#[trigger] fields[i]).name.name@ != name,
    ensures
        first_field_named(fields, name) is None,
    decreases fields.len(),
{
    if fields.len() > 0 {
        assert forall|i: int| 0 <= i < fields.drop_first().len() implies (#[trigger] fields.drop_first()[i]).name.name@ != name by {
            assert(fields.drop_first()[i] == fields[i + 1]);
        }
        lemma_no_field(fields.drop_first(), name);
    }
}

pub open spec fn level_view(l: Seq<&Definition>) -> Seq<Definition> {
    l.map_values(|d: &Definition| *d)
}

pub open spec fn levels_view(ls: Seq<Vec<&Definition>>) -> Seq<Seq<Definition>> {
    ls.map_values(|l: Vec<&Definition>| level_view(l@))
}

proof fn lemma_first_module_index(defs: Seq<Definition>, name: Seq<char>, i: int)
    requires
        0 <= i < defs.len(),
        defs[i] matches Definition::Module(m) && m.name.name@ == name,
        forall|j: int| 0 <= j < i ==> !((#[trigger] defs[j]) matches Definition::Module(m) && m.name.name@ == name),
    ensures
        first_module(defs, name) == Some(i),
    decreases i,
{
    if i > 0 {
        lemma_first_module_index(defs.drop_first(), name, i - 1);
    }
}

proof fn lemma_first_module_none(defs: Seq<Definition>, name: Seq<char>)
    requires
        forall|j: int| 0 <= j < defs.len() ==> !((#[trigger] defs[j]) matches Definition::Module(m) && m.name.name@ == name),
    ensures
        first_module(defs, name) is None,
    decreases defs.len(),
{
    if defs.len() > 0 {
        lemma_first_module_none(defs.drop_first(), name);
    }
}

/// The first struct called `name` in a level.
fn first_struct_of<'a>(level: &Vec<&'a Definition>, name: &str) -> (r: Option<&'a StructDef>)
    ensures
        r is Some <==> first_struct_in(level_view(level@), name@) is Some,
        r matches Some(s) ==> first_struct_in(level_view(level@), name@) == Some(*s),
{
    let ghost lv = level_view(level@);
    let mut k: usize = 0;
    assert(lv.skip(0) =~= lv);
    while k < level.len()
        invariant
            k <= level@.len(),
            lv == level_view(level@),
            first_struct_in(lv, name@) == first_struct_in(lv.skip(k as int), name@),
        decreases level.len() - k,
    {
        assert(lv.skip(k as int)[0] == *level@[k as int]);
        assert(lv.skip(k as int).drop_first() =~= lv.skip(k + 1));
        if let Definition::Struct(s) = level[k] {
            if str_equals(s.name.name.as_str(), name) {
                return Some(s);
            }
        }
        k += 1;
    }
    None
}

/// The first top-level struct called `name` of a file.
fn first_struct_of_file<'a>(file: &'a File, name: &str) -> (r: Option<&'a StructDef>)
    ensures
        r is Some <==> first_struct_in(top_definitions(file.statements@), name@) is Some,
        r matches Some(s) ==> first_struct_in(top_definitions(file.statements@), name@) == Some(*s),
{
    let top = top_level(file);
    first_struct_of(&top, name)
}

/// The definitions at the top level of a file.
fn top_level<'a>(file: &'a File) -> (r: Vec<&'a Definition>)
    ensures
        level_view(r@) == top_definitions(file.statements@),
{
    let stmts = &file.statements;
    let mut out: Vec<&'a Definition> = Vec::new();
    let mut k: usize = 0;
    while k < stmts.len()
        invariant
            k <= stmts@.len(),
            level_view(out@) == top_definitions(stmts@.take(k as int)),
        decreases stmts.len() - k,
    {
        proof {
            assert(stmts@.take(k + 1).drop_last() =~= stmts@.take(k as int));
            assert(stmts@.take(k + 1).last() == stmts@[k as int]);
        }
        let ghost ob = out@;
        match &stmts[k] {
            Statement::Definition(d) => {
                out.push(&**d);
                assert(level_view(out@) =~= level_view(ob).push(**d));
            },
            _ => {
                assert(level_view(out@) =~= level_view(ob) + Seq::<Definition>::empty());
            },
        }
        k += 1;
    }
    assert(stmts@.take(k as int) =~= stmts@);
    out
}

/// The definitions of a list, each borrowed.
fn borrow_all<'a>(defs: &'a Vec<Definition>) -> (r: Vec<&'a Definition>)
    ensures
        level_view(r@) == defs@,
{
    let mut out: Vec<&'a Definition> = Vec::new();
    let mut k: usize = 0;
    while k < defs.len()
        invariant
            k <= defs@.len(),
            level_view(out@) == defs@.take(k as int),
        decreases defs.len() - k,
    {
        out.push(&defs[k]);
        assert(level_view(out@) =~= defs@.take(k + 1));
        k += 1;
    }
    assert(defs@.take(k as int) =~= defs@);
    out
}

impl SemanticAnalyzer {
    /// The definitions that the code under check can name, one list per
    /// level: the top level of the file first, then each module on
    /// `enclosing_modules`, down to the module that holds the code.
    pub fn definitions_in_scope<'a>(&self, file: &'a File) -> (r: Vec<Vec<&'a Definition>>)
        ensures
            levels_view(r@) == scope_levels(top_definitions(file.statements@), views(self.enclosing_modules@)),
    {
        let ghost path = views(self.enclosing_modules@);
        let top = top_level(file);
        let mut levels: Vec<Vec<&'a Definition>> = Vec::new();
        let ghost tv = level_view(top@);
        levels.push(top);
        assert(path.skip(0) =~= path);
        assert(levels_view(levels@) =~= seq![tv]);
        let mut k: usize = 0;
        while k < self.enclosing_modules.len()
            invariant
                k <= self.enclosing_modules@.len(),
                path == views(self.enclosing_modules@),
                levels@.len() > 0,
                scope_levels(tv, path) == levels_view(levels@).drop_last() + scope_levels(level_view(levels@.last()@), path.skip(k as int)),
            decreases self.enclosing_modules.len() - k,
        {
            let name = self.enclosing_modules[k].as_str();
            let last = levels.len() - 1;
            let ghost lv = level_view(levels@[last as int]@);
            let ghost rest = path.skip(k as int);
            assert(rest[0] == name@);
            assert(rest.drop_first() =~= path.skip(k + 1));
            let mut found: Option<&'a Vec<Definition>> = None;
            let mut j: usize = 0;
            while j < levels[last].len()
                invariant
                    j <= levels@[last as int]@.len(),
                    last == levels@.len() - 1,
                    lv == level_view(levels@[last as int]@),
                    found is None,
                    forall|i: int| 0 <= i < j ==> !((#[trigger] lv[i]) matches Definition::Module(m) && m.name.name@ == name@),
                decreases levels@[last as int]@.len() - j,
            {
                if let Definition::Module(m) = levels[last][j] {
                    if str_equals(m.name.name.as_str(), name) {
                        proof { lemma_first_module_index(lv, name@, j as int); }
                        found = Some(&m.definitions);
                        break;
                    }
                }
                j += 1;
            }
            match found {
                Some(defs) => {
                    let inner = borrow_all(defs);
                    let ghost lb = levels@;
                    levels.push(inner);
                    assert(levels_view(levels@) =~= levels_view(lb).push(defs@));
                    assert(levels_view(levels@).drop_last() =~= levels_view(lb));
                    assert(levels_view(lb) =~= levels_view(lb).drop_last() + seq![lv]);
                },
                None => {
                    proof { lemma_first_module_none(lv, name@); }
                    assert(scope_levels(lv, rest) =~= seq![lv]);
                    assert(levels_view(levels@) =~= levels_view(levels@).drop_last() + seq![lv]);
                    return levels;
                },
            }
            k += 1;
        }
        proof {
            let lv = level_view(levels@.last()@);
            assert(path.skip(k as int) =~= Seq::<Seq<char>>::empty());
            assert(scope_levels(lv, path.skip(k as int)) =~= seq![lv]);
            assert(levels_view(levels@) =~= levels_view(levels@).drop_last() + seq![lv]);
        }
        levels
    }

    /// The struct called `name`, as the code under check names it: in the
    /// innermost module first, out to the top level of the file, then in
    /// the imported modules.
    pub fn find_struct_def_in_files<'a>(&'a self, name: &str, current_file: &'a File) -> (r: Option<&'a StructDef>)
        ensures
            r is Some <==> struct_def_lookup(*self, *current_file, name@) is Some,
            r matches Some(s) ==> struct_def_lookup(*self, *current_file, name@) == Some(*s),
    {
        let levels = self.definitions_in_scope(current_file);
        let ghost lvs = levels_view(levels@);
        let mut d: usize = levels.len();
        assert(lvs.take(d as int) =~= lvs);
        while d > 0
            invariant
                d <= levels@.len(),
                lvs == levels_view(levels@),
                search_levels(lvs, name@) == search_levels(lvs.take(d as int), name@),
            decreases d,
        {
            proof {
                assert(lvs.take(d as int).drop_last() =~= lvs.take(d - 1));
                assert(lvs.take(d as int).last() == level_view(levels@[d - 1]@));
            }
            match first_struct_of(&levels[d - 1], name) {
                Some(s) => {
                    return Some(s);
                },
                None => {},
            }
            d -= 1;
        }
        assert(lvs.take(0) =~= Seq::<Seq<Definition>>::empty());
        let files = &self.module_files;
        let mut k: usize = 0;
        assert(files@.skip(0) =~= files@);
        while k < files.len()
            invariant
                k <= files@.len(),
                search_levels(lvs, name@) is None,
                files_struct(files@, name@) == files_struct(files@.skip(k as int), name@),
            decreases files.len() - k,
        {
            assert(files@.skip(k as int)[0] == files@[k as int]);
            assert(files@.skip(k as int).drop_first() =~= files@.skip(k + 1));
            match first_struct_of_file(&files[k], name) {
                Some(s) => {
                    return Some(s);
                },
                None => {},
            }
            k += 1;
        }
        None
    }

    /// A closure stored in a closure-typed field escapes with the struct:
    /// its captures are consumed. Only the labelled arguments of `args`
    /// name fields.
    pub fn validate_struct_mutability(&mut self, struct_name: &str, args: &Vec<(Option<Ident>, Expr)>, file: &File, span: Span)
        ensures
            views(final(self).consumed_bindings@).to_set() == views(old(self).consumed_bindings@).to_set().union(
                match struct_def_lookup(*old(self), *file, struct_name@) {
                    Some(def) => struct_escapes(*old(self), def.fields@, named_args(args@)),
                    None => Set::empty(),
                },
            ),
            final(self).same_but_consumed(*old(self)),
    {
        let ghost a0 = *self;
        let ghost c0 = views(self.consumed_bindings@).to_set();
        let fields: Vec<(String, bool)> = match self.find_struct_def_in_files(struct_name, file) {
            Some(def) => closure_fields(&def.fields),
            None => {
                assert(c0 =~= c0.union(Set::<Seq<char>>::empty()));
                return;
            },
        };
        let ghost def = struct_def_lookup(a0, *file, struct_name@).unwrap();
        let mut k: usize = 0;
        while k < args.len()
            invariant
                k <= args@.len(),
                self.same_but_consumed(a0),
                flags_view(fields@) == closure_flags(def.fields@),
                views(self.consumed_bindings@).to_set() == c0.union(struct_escapes(a0, def.fields@, named_args(args@.take(k as int)))),
            decreases args.len() - k,
        {
            proof {
                assert(args@.take(k + 1).drop_last() =~= args@.take(k as int));
                assert(args@.take(k + 1).last() == args@[k as int]);
            }
            let ghost before = named_args(args@.take(k as int));
            match &args[k].0 {
                Some(label) => {
                    assert(named_args(args@.take(k + 1)).drop_last() =~= before);
                    let closure = first_flag(&fields, label.name.as_str());
                    proof { lemma_first_flag(def.fields@, label.name@); }
                    if closure {
                        self.escape_closure_value(&args[k].1);
                    }
                    assert(views(self.consumed_bindings@).to_set() =~= c0.union(struct_escapes(a0, def.fields@, named_args(args@.take(k + 1)))));
                },
                None => {
                    assert(named_args(args@.take(k + 1)) =~= before);
                },
            }
            k += 1;
        }
        assert(args@.take(k as int) =~= args@);
    }

    /// Check the fields of an instantiation of `struct_name`: each labelled
    /// argument must name a field and its value fit the field's type, and
    /// each field without a default that is not optional must be given. A
    /// field whose type names a type parameter of the struct is not
    /// compared. `types[k]` is the type of the value at `k`, and
    /// `compatible[k]` whether that type fits the type of its field. An
    /// instantiation of a struct that cannot be found is left alone.
    pub fn validate_struct_fields(
        &mut self,
        struct_name: &str,
        args: &Vec<(Option<Ident>, Expr)>,
        types: &Vec<SemType>,
        compatible: &Vec<bool>,
        span: Span,
        file: &File,
    )
        requires
            types@.len() == args@.len(),
            compatible@.len() == args@.len(),
        ensures
            error_views(final(self).errors@) == error_views(old(self).errors@)
                + struct_field_reports(struct_def_lookup(*old(self), *file, struct_name@), args@, struct_name@, span,
                    type_views(types@), compatible@),
            final(self).same_state(*old(self)),
    {
        let ghost a0 = *self;
        let ghost e0 = error_views(self.errors@);
        let (infos, required_names) = match self.find_struct_def_in_files(struct_name, file) {
            Some(def) => {
                let generics = generic_name_list(&def.generics);
                (field_type_list(&def.fields, &generics), required_list(&def.fields))
            },
            None => {
                assert(error_views(self.errors@) =~= e0 + Seq::<ErrorView>::empty());
                return;
            },
        };
        let ghost def = struct_def_lookup(a0, *file, struct_name@).unwrap();
        let ghost ts = type_views(types@);
        let mut k: usize = 0;
        while k < args.len()
            invariant
                k <= args@.len(),
                self.same_state(a0),
                infos_view(infos@) == field_infos(def.fields@, def_generic_names(def)),
                views(required_names@) == required_field_names(def.fields@),
                error_views(self.errors@) == e0 + field_arg_reports(def, args@.take(k as int), struct_name@, ts, compatible@),
            decreases args.len() - k,
        {
            proof {
                assert(args@.take(k + 1).drop_last() =~= args@.take(k as int));
                assert(args@.take(k + 1).last() == args@[k as int]);
            }
            let ghost eb = error_views(self.errors@);
            match &args[k].0 {
                Some(label) => {
                    match first_info_index(&infos, label.name.as_str()) {
                        None => {
                            proof {
                                assert forall|i: int| 0 <= i < def.fields@.len() implies (#[trigger] def.fields@[i]).name.name@ != label.name@ by {
                                    assert(infos_view(infos@)[i].0 == def.fields@[i].name.name@);
                                }
                                lemma_no_field(def.fields@, label.name@);
                            }
                            self.report(CompilerError::UnknownField {
                                field: label.name.clone(),
                                named_type: String::from_str(struct_name),
                                span: label.span,
                            });
                        },
                        Some(j) => {
                            proof {
                                assert forall|i: int| 0 <= i < j implies (#[trigger] def.fields@[i]).name.name@ != label.name@ by {
                                    assert(infos_view(infos@)[i].0 == def.fields@[i].name.name@);
                                }
                                assert(infos_view(infos@)[j as int].0 == def.fields@[j as int].name.name@);
                                lemma_first_field_at(def.fields@, label.name@, j as int);
                                assert(infos_view(infos@)[j as int] == (def.fields@[j as int].name.name@,
                                    display_of(sem_of(def.fields@[j as int].ty)), mentions_any(def.fields@[j as int].ty, def_generic_names(def))));
                            }
                            let declared = infos[j].1.as_str();
                            if !infos[j].2 && !value_fits_field(declared, &types[k], compatible[k]) {
                                let expected = infos[j].1.clone();
                                let found = types[k].display();
                                self.report(CompilerError::TypeMismatch { expected, found, span: args[k].1.span() });
                            } else {
                                assert(error_views(self.errors@) =~= eb + Seq::<ErrorView>::empty());
                            }
                        },
                    }
                },
                None => {
                    assert(error_views(self.errors@) =~= eb + Seq::<ErrorView>::empty());
                },
            }
            k += 1;
        }
        assert(args@.take(k as int) =~= args@);
        let ghost e1 = error_views(self.errors@);
        let given = arg_name_list(args);
        let mut f: usize = 0;
        while f < required_names.len()
            invariant
                f <= required_names@.len(),
                self.same_state(a0),
                views(given@) == arg_labels(named_args(args@)),
                views(required_names@) == required_field_names(def.fields@),
                error_views(self.errors@) == e1 + missing_field_reports(views(required_names@).take(f as int), views(given@), struct_name@, span),
            decreases required_names.len() - f,
        {
            proof {
                assert(views(required_names@).take(f + 1).drop_last() =~= views(required_names@).take(f as int));
                assert(views(required_names@).take(f + 1).last() == required_names@[f as int]@);
            }
            let ghost eb = error_views(self.errors@);
            if !crate::text::list_contains(&given, required_names[f].as_str()) {
                self.report(CompilerError::MissingField {
                    field: required_names[f].clone(),
                    named_type: String::from_str(struct_name),
                    span,
                });
            } else {
                assert(error_views(self.errors@) =~= eb + Seq::<ErrorView>::empty());
            }
            f += 1;
        }
        assert(views(required_names@).take(f as int) =~= views(required_names@));
    }
}

/// Each field's name with whether its type is a closure.
pub open spec fn closure_flags(fields: Seq<StructField>) -> Seq<(Seq<char>, bool)> {
    fields.map_values(|f: StructField| (f.name.name@, f.ty is Closure))
}

pub open spec fn flags_view(v: Seq<(String, bool)>) -> Seq<(Seq<char>, bool)> {
    v.map_values(|x: (String, bool)| (x.0@, x.1))
}

/// The first flag of that name, from the front.
pub open spec fn first_flag_of(v: Seq<(Seq<char>, bool)>, name: Seq<char>) -> bool
    decreases v.len(),
{
    if v.len() == 0 { false } else if v[0].0 == name { v[0].1 } else { first_flag_of(v.drop_first(), name) }
}

proof fn lemma_first_flag(fields: Seq<StructField>, name: Seq<char>)
    ensures
        first_flag_of(closure_flags(fields), name) == (first_field_named(fields, name) matches Some(f) && f.ty is Closure),
    decreases fields.len(),
{
    if fields.len() > 0 {
        assert(closure_flags(fields).drop_first() =~= closure_flags(fields.drop_first()));
        lemma_first_flag(fields.drop_first(), name);
    }
}

fn closure_fields(fields: &Vec<StructField>) -> (r: Vec<(String, bool)>)
    ensures
        flags_view(r@) == closure_flags(fields@),
{
    let mut out: Vec<(String, bool)> = Vec::new();
    let mut k: usize = 0;
    while k < fields.len()
        invariant
            k <= fields@.len(),
            flags_view(out@) == closure_flags(fields@.take(k as int)),
        decreases fields.len() - k,
    {
        let is_closure = match &fields[k].ty {
            Type::Closure { .. } => true,
            _ => false,
        };
        let ghost ob = out@;
        let name = fields[k].name.name.clone();
        assert(name@ == fields@[k as int].name.name@);
        assert(is_closure == fields@[k as int].ty is Closure);
        out.push((name, is_closure));
        assert(flags_view(out@) =~= flags_view(ob).push((fields@[k as int].name.name@, is_closure)));
        assert(closure_flags(fields@.take(k + 1)) =~= closure_flags(fields@.take(k as int)).push((fields@[k as int].name.name@, is_closure)));
        assert(flags_view(out@) =~= closure_flags(fields@.take(k + 1)));
        k += 1;
    }
    assert(fields@.take(k as int) =~= fields@);
    out
}

fn first_flag(v: &Vec<(String, bool)>, name: &str) -> (r: bool)
    ensures
        r == first_flag_of(flags_view(v@), name@),
{
    let ghost fv = flags_view(v@);
    let mut k: usize = 0;
    assert(fv.skip(0) =~= fv);
    while k < v.len()
        invariant
            k <= v@.len(),
            fv == flags_view(v@),
            first_flag_of(fv, name@) == first_flag_of(fv.skip(k as int), name@),
        decreases v.len() - k,
    {
        assert(fv.skip(k as int)[0] == fv[k as int]);
        assert(fv.skip(k as int).drop_first() =~= fv.skip(k + 1));
        if str_equals(v[k].0.as_str(), name) {
            return v[k].1;
        }
        k += 1;
    }
    false
}

fn field_name_list(fields: &Vec<StructField>) -> (r: Vec<String>)
    ensures
        views(r@) == struct_field_names_of(fields@),
{
    let mut out: Vec<String> = Vec::new();
    let mut k: usize = 0;
    while k < fields.len()
        invariant
            k <= fields@.len(),
            views(out@) == struct_field_names_of(fields@.take(k as int)),
        decreases fields.len() - k,
    {
        let ghost ob = out@;
        let name = fields[k].name.name.clone();
        assert(name@ == fields@[k as int].name.name@);
        out.push(name);
        assert(views(out@) =~= views(ob).push(fields@[k as int].name.name@));
        assert(struct_field_names_of(fields@.take(k + 1)) =~= struct_field_names_of(fields@.take(k as int)).push(fields@[k as int].name.name@));
        k += 1;
    }
    assert(fields@.take(k as int) =~= fields@);
    out
}

fn required_list(fields: &Vec<StructField>) -> (r: Vec<String>)
    ensures
        views(r@) == required_field_names(fields@),
{
    let mut out: Vec<String> = Vec::new();
    let mut k: usize = 0;
    while k < fields.len()
        invariant
            k <= fields@.len(),
            views(out@) == required_field_names(fields@.take(k as int)),
        decreases fields.len() - k,
    {
        proof {
            assert(fields@.take(k + 1).drop_last() =~= fields@.take(k as int));
            assert(fields@.take(k + 1).last() == fields@[k as int]);
        }
        let ghost ob = out@;
        if fields[k].default.is_none() && !fields[k].optional {
            out.push(fields[k].name.name.clone());
            assert(views(out@) =~= views(ob).push(fields@[k as int].name.name@));
        } else {
            assert(views(out@) =~= views(ob) + Seq::<Seq<char>>::empty());
        }
        k += 1;
    }
    assert(fields@.take(k as int) =~= fields@);
    out
}

fn arg_name_list(args: &Vec<(Option<Ident>, Expr)>) -> (r: Vec<String>)
    ensures
        views(r@) == arg_labels(named_args(args@)),
{
    let mut out: Vec<String> = Vec::new();
    let mut k: usize = 0;
    while k < args.len()
        invariant
            k <= args@.len(),
            views(out@) == arg_labels(named_args(args@.take(k as int))),
        decreases args.len() - k,
    {
        proof {
            assert(args@.take(k + 1).drop_last() =~= args@.take(k as int));
            assert(args@.take(k + 1).last() == args@[k as int]);
        }
        let ghost ob = out@;
        match &args[k].0 {
            Some(label) => {
                let name = label.name.clone();
                out.push(name);
                assert(views(out@) =~= views(ob).push(label.name@));
                assert(arg_labels(named_args(args@.take(k + 1))) =~= arg_labels(named_args(args@.take(k as int))).push(label.name@));
            },
            None => {
                assert(named_args(args@.take(k + 1)) =~= named_args(args@.take(k as int)));
            },
        }
        k += 1;
    }
    assert(args@.take(k as int) =~= args@);
    out
}

/// An argument without a label at a position counted from 1, for each
/// such argument among `args`, in order.
pub open spec fn positional_reports(args: Seq<(Option<Ident>, Expr)>, owner: Seq<char>) -> Seq<ErrorView>
    decreases args.len(),
{
    if args.len() == 0 {
        seq![]
    } else {
        positional_reports(args.drop_last(), owner) + if args.last().0 is None {
            seq![ErrorView::PositionalArgInStruct { struct_name: owner, position: args.len() as usize, span: expr_span(args.last().1) }]
        } else {
            Seq::<ErrorView>::empty()
        }
    }
}

/// How many type parameters the struct or, failing that, the enum
/// called `name` declares.
pub open spec fn declared_generic_count(st: SymbolTable, name: Seq<char>) -> Option<nat> {
    match struct_named(st.structs@, name) {
        Some(s) => Some(s.generics@.len()),
        None => match enum_named(st.enums@, name) {
            Some(e) => Some(e.generics@.len()),
            None => None,
        },
    }
}

/// What the type arguments of an instantiation of `name` report: a type
/// that declares type parameters needs as many, and one that declares
/// none takes none.
pub open spec fn instantiation_generic_reports(st: SymbolTable, name: Seq<char>, given: nat, span: Span) -> Seq<ErrorView> {
    match declared_generic_count(st, name) {
        Some(expected) => if expected == given {
            Seq::<ErrorView>::empty()
        } else if given == 0 && expected > 0 {
            seq![ErrorView::MissingGenericArguments { name, span }]
        } else {
            seq![ErrorView::GenericArityMismatch { name, expected: expected as usize, actual: given as usize, span }]
        },
        None => if given > 0 {
            seq![ErrorView::GenericArityMismatch { name, expected: 0, actual: given as usize, span }]
        } else {
            Seq::<ErrorView>::empty()
        },
    }
}

impl SemanticAnalyzer {
    /// Check an instantiation of the struct `name`, `Point<I32>(x: 1, y:
    /// 2)`: each argument needs a label, the type arguments must match
    /// the type's parameters in number, each labelled argument must name
    /// a field and each required field be given, and a closure stored in
    /// a closure-typed field escapes.
    pub fn validate_expr_invocation_struct(
        &mut self,
        name: &str,
        type_args: &Vec<Type>,
        args: &Vec<(Option<Ident>, Expr)>,
        types: &Vec<SemType>,
        compatible: &Vec<bool>,
        span: Span,
        file: &File,
    )
        requires
            types@.len() == args@.len(),
            compatible@.len() == args@.len(),
        ensures
            error_views(final(self).errors@) == error_views(old(self).errors@) + positional_reports(args@, name@)
                + instantiation_generic_reports(old(self).symbols, name@, type_args@.len(), span)
                + struct_field_reports(struct_def_lookup(*old(self), *file, name@), args@, name@, span, type_views(types@), compatible@),
            views(final(self).consumed_bindings@).to_set() == views(old(self).consumed_bindings@).to_set().union(
                match struct_def_lookup(*old(self), *file, name@) {
                    Some(def) => struct_escapes(*old(self), def.fields@, named_args(args@)),
                    None => Set::empty(),
                },
            ),
            final(self).symbols == old(self).symbols,
            final(self).closure_binding_captures == old(self).closure_binding_captures,
    {
        let ghost a0 = *self;
        let ghost e0 = error_views(self.errors@);
        let mut i: usize = 0;
        while i < args.len()
            invariant
                i <= args@.len(),
                self.same_state(a0),
                error_views(self.errors@) == e0 + positional_reports(args@.take(i as int), name@),
            decreases args.len() - i,
        {
            proof {
                assert(args@.take(i + 1).drop_last() =~= args@.take(i as int));
                assert(args@.take(i + 1).last() == args@[i as int]);
            }
            if args[i].0.is_none() {
                self.report(CompilerError::PositionalArgInStruct {
                    struct_name: String::from_str(name),
                    position: i + 1,
                    span: args[i].1.span(),
                });
            } else {
                assert(error_views(self.errors@) =~= e0 + positional_reports(args@.take(i + 1), name@));
            }
            i += 1;
        }
        assert(args@.take(i as int) =~= args@);
        let ghost e1 = error_views(self.errors@);
        let declared: Option<usize> = match self.symbols.get_struct(name) {
            Some(s) => Some(s.generics.len()),
            None => match self.symbols.get_enum(name) {
                Some(e) => Some(e.generics.len()),
                None => None,
            },
        };
        let actual = type_args.len();
        match declared {
            Some(expected) => {
                if expected == actual {
                    assert(e1 + Seq::<ErrorView>::empty() =~= e1);
                } else if actual == 0 && expected > 0 {
                    self.report(CompilerError::MissingGenericArguments { name: String::from_str(name), span });
                } else {
                    self.report(CompilerError::GenericArityMismatch { name: String::from_str(name), expected, actual, span });
                }
            },
            None => {
                if actual > 0 {
                    self.report(CompilerError::GenericArityMismatch { name: String::from_str(name), expected: 0, actual, span });
                } else {
                    assert(e1 + Seq::<ErrorView>::empty() =~= e1);
                }
            },
        }
        self.validate_struct_fields(name, args, types, compatible, span, file);
        let ghost a2 = *self;
        proof { lemma_struct_lookup_by_state(a2, a0, *file, name@, args@); }
        self.validate_struct_mutability(name, args, file, span);
    }
}

/// Finding a struct, and what storing closures in it consumes, read
/// nothing that a diagnostic changes.
proof fn lemma_struct_lookup_by_state(a: SemanticAnalyzer, b: SemanticAnalyzer, file: File, name: Seq<char>, args: Seq<(Option<Ident>, Expr)>)
    requires
        a.same_state(b),
    ensures
        struct_def_lookup(a, file, name) == struct_def_lookup(b, file, name),
        struct_def_lookup(a, file, name) matches Some(def) ==> struct_escapes(a, def.fields@, named_args(args)) == struct_escapes(b, def.fields@, named_args(args)),
{
    if let Some(def) = struct_def_lookup(a, file, name) {
        lemma_escapes_by_state(a, b, def.fields@, named_args(args));
    }
}

proof fn lemma_escapes_by_state(a: SemanticAnalyzer, b: SemanticAnalyzer, fields: Seq<StructField>, args: Seq<(Ident, Expr)>)
    requires
        a.same_state(b),
    ensures
        struct_escapes(a, fields, args) == struct_escapes(b, fields, args),
    decreases args.len(),
{
    if args.len() > 0 {
        lemma_escapes_by_state(a, b, fields, args.drop_last());
    }
}

/// The names of a list of type parameters.
fn generic_name_list(generics: &Vec<GenericParam>) -> (r: Vec<String>)
    ensures
        views(r@) == generics@.map_values(|g: GenericParam| g.name.name@),
{
    let mut out: Vec<String> = Vec::new();
    let mut k: usize = 0;
    while k < generics.len()
        invariant
            k <= generics@.len(),
            views(out@) == generics@.take(k as int).map_values(|g: GenericParam| g.name.name@),
        decreases generics.len() - k,
    {
        let ghost ob = out@;
        out.push(generics[k].name.name.clone());
        assert(views(out@) =~= views(ob).push(generics@[k as int].name.name@));
        assert(generics@.take(k + 1).map_values(|g: GenericParam| g.name.name@)
            =~= generics@.take(k as int).map_values(|g: GenericParam| g.name.name@).push(generics@[k as int].name.name@));
        k += 1;
    }
    assert(generics@.take(k as int) =~= generics@);
    out
}

/// Each field's name, how its type reads, and whether that type names
/// one of `generics`.
fn field_type_list(fields: &Vec<StructField>, generics: &Vec<String>) -> (r: Vec<(String, String, bool)>)
    ensures
        infos_view(r@) == field_infos(fields@, views(generics@)),
{
    let mut out: Vec<(String, String, bool)> = Vec::new();
    let mut k: usize = 0;
    while k < fields.len()
        invariant
            k <= fields@.len(),
            infos_view(out@) == field_infos(fields@.take(k as int), views(generics@)),
        decreases fields.len() - k,
    {
        let ghost ob = out@;
        let name = fields[k].name.name.clone();
        let shown = SemType::from_ast(&fields[k].ty).display();
        let mentions = type_mentions_any(&fields[k].ty, generics);
        out.push((name, shown, mentions));
        assert(infos_view(out@) =~= infos_view(ob).push((fields@[k as int].name.name@, display_of(sem_of(fields@[k as int].ty)),
            mentions_any(fields@[k as int].ty, views(generics@)))));
        assert(field_infos(fields@.take(k + 1), views(generics@)) =~= field_infos(fields@.take(k as int), views(generics@)).push(
            (fields@[k as int].name.name@, display_of(sem_of(fields@[k as int].ty)), mentions_any(fields@[k as int].ty, views(generics@)))));
        k += 1;
    }
    assert(fields@.take(k as int) =~= fields@);
    out
}

/// The position of the first entry of `infos` called `name`.
fn first_info_index(infos: &Vec<(String, String, bool)>, name: &str) -> (r: Option<usize>)
    ensures
        r is None ==> forall|i: int| 0 <= i < infos@.len() ==> (#[trigger] infos_view(infos@)[i]).0 != name@,
        r matches Some(j) ==> j < infos@.len() && infos_view(infos@)[j as int].0 == name@
            && forall|i: int| 0 <= i < j ==> (#[trigger] infos_view(infos@)[i]).0 != name@,
{
    let mut i: usize = 0;
    while i < infos.len()
        invariant
            i <= infos@.len(),
            forall|j: int| 0 <= j < i ==> (#[trigger] infos_view(infos@)[j]).0 != name@,
        decreases infos.len() - i,
    {
        if str_equals(infos[i].0.as_str(), name) {
            return Some(i);
        }
        i += 1;
    }
    None
}

/// Whether a value of type `found` may stand in a field whose type reads
/// `declared`; `compatible` says whether the two types fit otherwise.
fn value_fits_field(declared: &str, found: &SemType, compatible: bool) -> (r: bool)
    ensures
        r == field_value_fits(declared@, found@, compatible),
{
    let n = declared.unicode_len();
    let optional = n > 0 && declared.get_char(n - 1) == '?';
    let mut j: usize = n;
    assert(declared@.take(n as int) =~= declared@);
    while j > 0 && declared.get_char(j - 1) == '?'
        invariant
            j <= n == declared@.len(),
            trim_marks(declared@) == trim_marks(declared@.take(j as int)),
        decreases j,
    {
        assert(declared@.take(j as int).drop_last() =~= declared@.take(j - 1));
        j -= 1;
    }
    let trimmed = declared.substring_char(0, j);
    assert(trimmed@ =~= declared@.take(j as int));
    let nil = match found {
        SemType::Nil => true,
        _ => false,
    };
    let shown = found.display();
    (nil && optional) || (optional && str_equals(trimmed, shown.as_str())) || found.is_indeterminate() || compatible
}

} // verus!

//! The state that the semantic passes share while they walk a file.

use vstd::prelude::*;
use crate::ast::{File, ParamConvention};
use crate::error::{error_views, CompilerError};
use crate::sem_type::{SType, SemType};
use crate::symbols::SymbolTable;
use crate::text::{str_equals, views};

verus! {

/// The outer bindings of one loop body or closure body.
pub struct OuterFrame {
    /// True for a closure body, false for a loop body.
    pub closure: bool,
    pub names: Vec<String>,
}

pub struct SemanticAnalyzer {
    /// The diagnostics reported so far, in order.
    pub errors: Vec<CompilerError>,
    pub symbols: SymbolTable,
    /// The captures of each binding in scope that holds a closure value.
    pub closure_binding_captures: Vec<(String, Vec<String>)>,
    /// The parameter conventions of each module-level binding that holds a
    /// closure value.
    pub closure_binding_conventions: Vec<(String, Vec<ParamConvention>)>,
    /// The captures of each closure binding of the current function, also
    /// of blocks that have closed.
    pub fn_scope_closure_captures: Vec<(String, Vec<String>)>,
    /// The bindings that a `sink` has taken away.
    pub consumed_bindings: Vec<String>,
    /// The convention of each parameter of the current function.
    pub current_fn_param_conventions: Vec<(String, ParamConvention)>,
    /// The local `let` bindings in scope, each with its type.
    pub local_let_bindings: Vec<(String, SemType)>,
    /// The parameters of each enclosing closure, innermost last.
    pub closure_param_scopes: Vec<Vec<String>>,
    /// The variables of each enclosing `for`, innermost last.
    pub loop_var_scopes: Vec<Vec<String>>,
    /// The bindings that type inference sees, innermost scope last.
    pub inference_scopes: Vec<Vec<String>>,
    /// One frame per enclosing loop body or closure body.
    pub outer_frames: Vec<OuterFrame>,
    /// The generic parameters of each enclosing definition.
    pub generic_scopes: Vec<Vec<String>>,
    /// The trait bounds of the type parameters in scope, each under its
    /// parameter's name; a lookup takes the first entry of a name.
    pub type_param_bounds: Vec<(String, Vec<String>)>,
    /// The struct whose impl block is being checked.
    pub current_impl_struct: Option<String>,
    /// The files of the modules that the program imports, in the order
    /// they were loaded.
    pub module_files: Vec<File>,
    /// The inline modules that hold the code under check, outermost
    /// first.
    pub enclosing_modules: Vec<String>,
    /// True while the value of a module-level `let` is checked.
    pub in_module_let: bool,
    /// How many expressions the walk is inside of.
    pub expr_depth: usize,
}

impl SemanticAnalyzer {
    /// An analyzer over `symbols`, with no diagnostics and nothing in scope.
    pub fn new(symbols: SymbolTable) -> (r: SemanticAnalyzer)
        ensures
            r.errors@.len() == 0,
            r.symbols == symbols,
            r.closure_binding_captures@.len() == 0,
            r.closure_binding_conventions@.len() == 0,
            r.fn_scope_closure_captures@.len() == 0,
            r.consumed_bindings@.len() == 0,
            r.current_fn_param_conventions@.len() == 0,
            r.local_let_bindings@.len() == 0,
            r.closure_param_scopes@.len() == 0,
            r.loop_var_scopes@.len() == 0,
            r.inference_scopes@.len() == 0,
            r.outer_frames@.len() == 0,
            r.generic_scopes@.len() == 0,
            r.type_param_bounds@.len() == 0,
            r.current_impl_struct is None,
            r.module_files@.len() == 0,
            r.enclosing_modules@.len() == 0,
            !r.in_module_let,
            r.expr_depth == 0,
    {
        SemanticAnalyzer {
            errors: Vec::new(),
            symbols,
            closure_binding_captures: Vec::new(),
            closure_binding_conventions: Vec::new(),
            fn_scope_closure_captures: Vec::new(),
            consumed_bindings: Vec::new(),
            current_fn_param_conventions: Vec::new(),
            local_let_bindings: Vec::new(),
            closure_param_scopes: Vec::new(),
            loop_var_scopes: Vec::new(),
            inference_scopes: Vec::new(),
            outer_frames: Vec::new(),
            generic_scopes: Vec::new(),
            type_param_bounds: Vec::new(),
            current_impl_struct: None,
            module_files: Vec::new(),
            enclosing_modules: Vec::new(),
            in_module_let: false,
            expr_depth: 0,
        }
    }
}

impl SemanticAnalyzer {
    /// Everything but the diagnostics is the same in `self` and `other`.
    pub open spec fn same_state(self, other: SemanticAnalyzer) -> bool {
        &&& self.symbols == other.symbols
        &&& self.closure_binding_captures == other.closure_binding_captures
        &&& self.closure_binding_conventions == other.closure_binding_conventions
        &&& self.fn_scope_closure_captures == other.fn_scope_closure_captures
        &&& self.consumed_bindings == other.consumed_bindings
        &&& self.current_fn_param_conventions == other.current_fn_param_conventions
        &&& self.local_let_bindings == other.local_let_bindings
        &&& self.closure_param_scopes == other.closure_param_scopes
        &&& self.loop_var_scopes == other.loop_var_scopes
        &&& self.inference_scopes == other.inference_scopes
        &&& self.outer_frames == other.outer_frames
        &&& self.generic_scopes == other.generic_scopes
        &&& self.type_param_bounds == other.type_param_bounds
        &&& self.current_impl_struct == other.current_impl_struct
        &&& self.module_files == other.module_files
        &&& self.enclosing_modules == other.enclosing_modules
        &&& self.in_module_let == other.in_module_let
        &&& self.expr_depth == other.expr_depth
    }

    /// Everything but the consumed bindings is the same in `self` and
    /// `other`.
    pub open spec fn same_but_consumed(self, other: SemanticAnalyzer) -> bool {
        &&& self.errors == other.errors
        &&& self.symbols == other.symbols
        &&& self.closure_binding_captures == other.closure_binding_captures
        &&& self.closure_binding_conventions == other.closure_binding_conventions
        &&& self.fn_scope_closure_captures == other.fn_scope_closure_captures
        &&& self.current_fn_param_conventions == other.current_fn_param_conventions
        &&& self.local_let_bindings == other.local_let_bindings
        &&& self.closure_param_scopes == other.closure_param_scopes
        &&& self.loop_var_scopes == other.loop_var_scopes
        &&& self.inference_scopes == other.inference_scopes
        &&& self.outer_frames == other.outer_frames
        &&& self.generic_scopes == other.generic_scopes
        &&& self.type_param_bounds == other.type_param_bounds
        &&& self.current_impl_struct == other.current_impl_struct
        &&& self.module_files == other.module_files
        &&& self.enclosing_modules == other.enclosing_modules
        &&& self.in_module_let == other.in_module_let
        &&& self.expr_depth == other.expr_depth
    }

    /// Add `error` to the diagnostics.
    pub fn report(&mut self, error: CompilerError)
        ensures
            error_views(final(self).errors@) == error_views(old(self).errors@).push(error@),
            final(self).same_state(*old(self)),
    {
        let ghost before = error_views(self.errors@);
        self.errors.push(error);
        assert(error_views(self.errors@) =~= before.push(self.errors@.last()@));
    }

    /// Add the diagnostics `reports`, in order.
    pub fn report_all(&mut self, reports: Vec<CompilerError>)
        ensures
            error_views(final(self).errors@) == error_views(old(self).errors@) + error_views(reports@),
            final(self).same_state(*old(self)),
    {
        let ghost before = error_views(self.errors@);
        let ghost added = reports@;
        let mut reports = reports;
        self.errors.append(&mut reports);
        assert(error_views(self.errors@) =~= before + error_views(added));
    }
}

/// The names of the local `let` bindings.
pub open spec fn let_binding_names(bs: Seq<(String, SemType)>) -> Seq<Seq<char>> {
    bs.map_values(|b: (String, SemType)| b.0@)
}

/// The type of the first local `let` binding called `name`.
pub open spec fn let_binding_type(bs: Seq<(String, SemType)>, name: Seq<char>) -> Option<SType>
    decreases bs.len(),
{
    if bs.len() == 0 {
        None
    } else if bs[0].0@ == name {
        Some(bs[0].1@)
    } else {
        let_binding_type(bs.drop_first(), name)
    }
}

/// The names of the local `let` bindings, as a list.
pub fn let_names_of(bs: &Vec<(String, SemType)>) -> (r: Vec<String>)
    ensures
        views(r@) == let_binding_names(bs@),
{
    let mut out: Vec<String> = Vec::new();
    let mut k: usize = 0;
    while k < bs.len()
        invariant
            k <= bs@.len(),
            views(out@) == let_binding_names(bs@.take(k as int)),
        decreases bs.len() - k,
    {
        let ghost before = out@;
        out.push(bs[k].0.clone());
        proof {
            crate::text::lemma_views_push(before, out@.last());
            assert(let_binding_names(bs@.take(k + 1)) =~= let_binding_names(bs@.take(k as int)).push(bs@[k as int].0@));
        }
        k += 1;
    }
    assert(bs@.take(k as int) =~= bs@);
    out
}

/// Whether a local `let` binding is called `name`.
pub fn let_bound(bs: &Vec<(String, SemType)>, name: &str) -> (r: bool)
    ensures
        r == let_binding_names(bs@).contains(name@),
{
    let mut i: usize = 0;
    while i < bs.len()
        invariant
            i <= bs@.len(),
            forall|j: int| 0 <= j < i ==> (#[trigger] bs@[j]).0@ != name@,
        decreases bs.len() - i,
    {
        if str_equals(bs[i].0.as_str(), name) {
            assert(let_binding_names(bs@)[i as int] == name@);
            return true;
        }
        i += 1;
    }
    assert forall|j: int| 0 <= j < let_binding_names(bs@).len() implies let_binding_names(bs@)[j] != name@ by {
        assert(bs@[j].0@ != name@);
    }
    false
}

/// The type of the first local `let` binding called `name`.
pub fn find_let_type<'a>(bs: &'a Vec<(String, SemType)>, name: &str) -> (r: Option<&'a SemType>)
    ensures
        r is None <==> let_binding_type(bs@, name@) is None,
        r matches Some(t) ==> let_binding_type(bs@, name@) == Some(t@),
{
    let mut i: usize = 0;
    assert(bs@.skip(0) =~= bs@);
    while i < bs.len()
        invariant
            i <= bs@.len(),
            let_binding_type(bs@, name@) == let_binding_type(bs@.skip(i as int), name@),
        decreases bs.len() - i,
    {
        assert(bs@.skip(i as int)[0] == bs@[i as int]);
        if str_equals(bs[i].0.as_str(), name) {
            return Some(&bs[i].1);
        }
        assert(bs@.skip(i as int).drop_first() =~= bs@.skip(i + 1));
        i += 1;
    }
    None
}

/// The names that the first entry called `name` holds.
pub open spec fn lookup_names(entries: Seq<(String, Vec<String>)>, name: Seq<char>) -> Option<Seq<Seq<char>>>
    decreases entries.len(),
{
    if entries.len() == 0 {
        None
    } else if entries[0].0@ == name {
        Some(views(entries[0].1@))
    } else {
        lookup_names(entries.drop_first(), name)
    }
}

/// The convention of the first parameter called `name`.
pub open spec fn lookup_convention(entries: Seq<(String, ParamConvention)>, name: Seq<char>) -> Option<ParamConvention>
    decreases entries.len(),
{
    if entries.len() == 0 {
        None
    } else if entries[0].0@ == name {
        Some(entries[0].1)
    } else {
        lookup_convention(entries.drop_first(), name)
    }
}

/// The names of the first entry called `name`.
pub fn find_names<'a>(entries: &'a Vec<(String, Vec<String>)>, name: &str) -> (r: Option<&'a Vec<String>>)
    ensures
        r is Some <==> lookup_names(entries@, name@) is Some,
        r matches Some(v) ==> lookup_names(entries@, name@) == Some(views(v@)),
{
    let mut i: usize = 0;
    assert(entries@.skip(0) =~= entries@);
    while i < entries.len()
        invariant
            i <= entries@.len(),
            lookup_names(entries@, name@) == lookup_names(entries@.skip(i as int), name@),
        decreases entries.len() - i,
    {
        assert(entries@.skip(i as int)[0] == entries@[i as int]);
        if str_equals(entries[i].0.as_str(), name) {
            return Some(&entries[i].1);
        }
        assert(entries@.skip(i as int).drop_first() =~= entries@.skip(i + 1));
        i += 1;
    }
    None
}

/// The convention of the first parameter called `name`.
pub fn find_convention(entries: &Vec<(String, ParamConvention)>, name: &str) -> (r: Option<ParamConvention>)
    ensures
        r == lookup_convention(entries@, name@),
{
    let mut i: usize = 0;
    assert(entries@.skip(0) =~= entries@);
    while i < entries.len()
        invariant
            i <= entries@.len(),
            lookup_convention(entries@, name@) == lookup_convention(entries@.skip(i as int), name@),
        decreases entries.len() - i,
    {
        assert(entries@.skip(i as int)[0] == entries@[i as int]);
        if str_equals(entries[i].0.as_str(), name) {
            return Some(entries[i].1);
        }
        assert(entries@.skip(i as int).drop_first() =~= entries@.skip(i + 1));
        i += 1;
    }
    None
}

/// Add `name` to the set of names `names`, unless it is there.
pub fn insert_name(names: &mut Vec<String>, name: String)
    ensures
        views(final(names)@).to_set() == views(old(names)@).to_set().insert(name@),
        views(old(names)@).no_duplicates() ==> views(final(names)@).no_duplicates(),
        views(old(names)@).contains(name@) ==> final(names)@ == old(names)@,
{
    if !crate::text::list_contains(names, name.as_str()) {
        let ghost before = views(names@);
        names.push(name);
        proof {
            assert(views(names@) =~= before.push(name@));
            assert(views(names@).to_set() =~= before.to_set().insert(name@)) by {
                assert forall|n: Seq<char>| views(names@).contains(n) <==> (before.contains(n) || n == name@) by {
                    if before.contains(n) {
                        let k = choose|k: int| 0 <= k < before.len() && before[k] == n;
                        assert(views(names@)[k] == n);
                    }
                    if n == name@ {
                        assert(views(names@)[before.len() as int] == n);
                    }
                    if views(names@).contains(n) {
                        let k = choose|k: int| 0 <= k < views(names@).len() && views(names@)[k] == n;
                        if k < before.len() {
                            assert(before[k] == n);
                        }
                    }
                }
            }
            if before.no_duplicates() {
                assert forall|i: int, j: int| 0 <= i < j < views(names@).len() implies views(names@)[i] != views(names@)[j] by {
                    if j == before.len() {
                        assert(before[i] == views(names@)[i]);
                    }
                }
            }
        }
    } else {
        assert(views(names@).to_set() =~= views(names@).to_set().insert(name@)) by {
            let k = choose|k: int| 0 <= k < views(names@).len() && views(names@)[k] == name@;
            assert(views(names@).contains(name@));
        }
    }
}

} // verus!

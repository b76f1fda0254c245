//! Paths through inline modules: `outer::inner::Item`.
//!
//! Code outside a module reaches its items through the module's name. An
//! intermediate module on the way must be `pub`, and so must the item,
//! when the path crosses a module boundary.

use vstd::prelude::*;
use vstd::string::StringExecFns;
use crate::analyzer::SemanticAnalyzer;
use crate::ast::{Ident, Span, Visibility};
use crate::error::{error_views, CompilerError, ErrorView};
use crate::symbols::{enum_named, struct_named, FunctionInfo, LetInfo, ModuleInfo, SymbolTable, TraitInfo};
use crate::patterns::ident_names;
use crate::text::str_equals;

verus! {

broadcast use vstd::std_specs::vec::group_vec_axioms;

/// The texts of a list of borrowed strings.
pub open spec fn str_views(s: Seq<&str>) -> Seq<Seq<char>> {
    s.map_values(|p: &str| p@)
}

/// The first module of `ms` called `name`.
pub open spec fn module_named(ms: Seq<ModuleInfo>, name: Seq<char>) -> Option<ModuleInfo>
    decreases ms.len(),
{
    if ms.len() == 0 {
        None
    } else if ms[0].name@ == name {
        Some(ms[0])
    } else {
        module_named(ms.drop_first(), name)
    }
}

/// The first function of `fs` called `name`.
pub open spec fn function_named(fs: Seq<FunctionInfo>, name: Seq<char>) -> Option<FunctionInfo>
    decreases fs.len(),
{
    if fs.len() == 0 {
        None
    } else if fs[0].name@ == name {
        Some(fs[0])
    } else {
        function_named(fs.drop_first(), name)
    }
}

/// The first trait of `ts` called `name`.
pub open spec fn trait_named(ts: Seq<TraitInfo>, name: Seq<char>) -> Option<TraitInfo>
    decreases ts.len(),
{
    if ts.len() == 0 {
        None
    } else if ts[0].name@ == name {
        Some(ts[0])
    } else {
        trait_named(ts.drop_first(), name)
    }
}

/// The first `let` of `ls` called `name`.
pub open spec fn let_named(ls: Seq<LetInfo>, name: Seq<char>) -> Option<LetInfo>
    decreases ls.len(),
{
    if ls.len() == 0 {
        None
    } else if ls[0].name@ == name {
        Some(ls[0])
    } else {
        let_named(ls.drop_first(), name)
    }
}

/// The visibility of the item `name` of a table: a struct, else a
/// function, an enum, a trait, a `let`, a module, in that order.
pub open spec fn item_visibility(st: SymbolTable, name: Seq<char>) -> Option<Visibility> {
    match struct_named(st.structs@, name) {
        Some(s) => Some(s.visibility),
        None => match function_named(st.functions@, name) {
            Some(f) => Some(f.visibility),
            None => match enum_named(st.enums@, name) {
                Some(e) => Some(e.visibility),
                None => match trait_named(st.traits@, name) {
                    Some(t) => Some(t.visibility),
                    None => match let_named(st.lets@, name) {
                        Some(l) => Some(l.visibility),
                        None => match module_named(st.modules@, name) {
                            Some(m) => Some(m.visibility),
                            None => None,
                        },
                    },
                },
            },
        },
    }
}

/// Walk the modules `segs` from `st`: the table reached, `Err` with the
/// name of the first private module on the way, or `None` at the first
/// name that is not a module.
pub open spec fn walk_visible(st: SymbolTable, segs: Seq<Seq<char>>) -> Option<Result<SymbolTable, Seq<char>>>
    decreases segs.len(),
{
    if segs.len() == 0 {
        Some(Ok(st))
    } else {
        match module_named(st.modules@, segs[0]) {
            None => None,
            Some(m) => if m.visibility == Visibility::Private {
                Some(Err(segs[0]))
            } else {
                walk_visible(m.symbols, segs.drop_first())
            },
        }
    }
}

/// Walk the modules `segs` from `st`: the table reached, or the position
/// of the first name that is not a module.
pub open spec fn walk_modules(st: SymbolTable, segs: Seq<Seq<char>>) -> Result<SymbolTable, int>
    decreases segs.len(),
{
    if segs.len() == 0 {
        Ok(st)
    } else {
        match module_named(st.modules@, segs[0]) {
            None => Err(0),
            Some(m) => match walk_modules(m.symbols, segs.drop_first()) {
                Ok(t) => Ok(t),
                Err(i) => Err(i + 1),
            },
        }
    }
}

/// The names joined by `::`.
pub open spec fn join_path(parts: Seq<Seq<char>>) -> Seq<char>
    decreases parts.len(),
{
    if parts.len() == 0 {
        seq![]
    } else if parts.len() == 1 {
        parts[0]
    } else {
        join_path(parts.drop_last()) + "::"@ + parts.last()
    }
}

/// What a visibility check of the path `path` reports, if anything.
pub open spec fn visibility_report(st: SymbolTable, path: Seq<Seq<char>>) -> Option<Seq<char>> {
    if path.len() < 2 {
        None
    } else {
        match module_named(st.modules@, path[0]) {
            None => None,
            Some(root) => match walk_visible(root.symbols, path.subrange(1, path.len() - 1)) {
                None => None,
                Some(Err(m)) => Some(m),
                Some(Ok(t)) => if item_visibility(t, path.last()) == Some(Visibility::Private) {
                    Some(path.last())
                } else {
                    None
                },
            },
        }
    }
}

/// The first module of `st` called `name`.
pub fn get_module<'a>(st: &'a SymbolTable, name: &str) -> (r: Option<&'a ModuleInfo>)
    ensures
        r is None <==> module_named(st.modules@, name@) is None,
        r matches Some(m) ==> module_named(st.modules@, name@) == Some(*m),
{
    let ms = &st.modules;
    let mut i: usize = 0;
    assert(ms@.skip(0) =~= ms@);
    while i < ms.len()
        invariant
            i <= ms@.len(),
            module_named(ms@, name@) == module_named(ms@.skip(i as int), name@),
        decreases ms.len() - i,
    {
        assert(ms@.skip(i as int)[0] == ms@[i as int]);
        if str_equals(ms[i].name.as_str(), name) {
            return Some(&ms[i]);
        }
        assert(ms@.skip(i as int).drop_first() =~= ms@.skip(i + 1));
        i += 1;
    }
    None
}

/// The visibility of the item `name` of `st`.
pub fn find_item_visibility(st: &SymbolTable, name: &str) -> (r: Option<Visibility>)
    ensures
        r == item_visibility(*st, name@),
{
    if let Some(s) = st.get_struct(name) {
        return Some(s.visibility);
    }
    let fs = &st.functions;
    let mut i: usize = 0;
    assert(fs@.skip(0) =~= fs@);
    while i < fs.len()
        invariant
            i <= fs@.len(),
            function_named(fs@, name@) == function_named(fs@.skip(i as int), name@),
        decreases fs.len() - i,
    {
        assert(fs@.skip(i as int)[0] == fs@[i as int]);
        if str_equals(fs[i].name.as_str(), name) {
            return Some(fs[i].visibility);
        }
        assert(fs@.skip(i as int).drop_first() =~= fs@.skip(i + 1));
        i += 1;
    }
    if let Some(e) = st.get_enum(name) {
        return Some(e.visibility);
    }
    let ts = &st.traits;
    let mut i: usize = 0;
    assert(ts@.skip(0) =~= ts@);
    while i < ts.len()
        invariant
            i <= ts@.len(),
            trait_named(ts@, name@) == trait_named(ts@.skip(i as int), name@),
        decreases ts.len() - i,
    {
        assert(ts@.skip(i as int)[0] == ts@[i as int]);
        if str_equals(ts[i].name.as_str(), name) {
            return Some(ts[i].visibility);
        }
        assert(ts@.skip(i as int).drop_first() =~= ts@.skip(i + 1));
        i += 1;
    }
    let ls = &st.lets;
    let mut i: usize = 0;
    assert(ls@.skip(0) =~= ls@);
    while i < ls.len()
        invariant
            i <= ls@.len(),
            let_named(ls@, name@) == let_named(ls@.skip(i as int), name@),
        decreases ls.len() - i,
    {
        assert(ls@.skip(i as int)[0] == ls@[i as int]);
        if str_equals(ls[i].name.as_str(), name) {
            return Some(ls[i].visibility);
        }
        assert(ls@.skip(i as int).drop_first() =~= ls@.skip(i + 1));
        i += 1;
    }
    match get_module(st, name) {
        Some(m) => Some(m.visibility),
        None => None,
    }
}

impl SemanticAnalyzer {
    /// Check the visibility of a path through modules (`m::item`,
    /// `outer::inner::item`): each intermediate module after the first
    /// must be `pub`, and so must the item. Return true when access is
    /// allowed, false after reporting a `VisibilityViolation`. A path of
    /// one name, or one whose first name or an intermediate name is not a
    /// module, is left to other checks.
    pub fn check_module_visibility(&mut self, path: &Vec<Ident>, span: Span) -> (r: bool)
        ensures
            final(self).same_state(*old(self)),
            r == visibility_report(old(self).symbols, ident_names(path@)) is None,
            error_views(final(self).errors@) == error_views(old(self).errors@) + match visibility_report(old(self).symbols, ident_names(path@)) {
                Some(n) => seq![ErrorView::VisibilityViolation { name: n, span }],
                None => Seq::<ErrorView>::empty(),
            },
    {
        let ghost s0 = *self;
        if path.len() < 2 {
            assert(error_views(self.errors@) =~= error_views(self.errors@) + Seq::<ErrorView>::empty());
            return true;
        }
        let root = match get_module(&self.symbols, path[0].name.as_str()) {
            Some(m) => m,
            None => {
                assert(error_views(self.errors@) =~= error_views(self.errors@) + Seq::<ErrorView>::empty());
                return true;
            },
        };
        let last = path.len() - 1;
        let ghost segs = ident_names(path@).subrange(1, last as int);
        let mut current: &SymbolTable = &root.symbols;
        assert(segs.skip(0) =~= segs);
        let mut k: usize = 1;
        while k < last
            invariant
                1 <= k <= last,
                *self == s0,
                last == path@.len() - 1,
                walk_visible(root.symbols, segs) == walk_visible(*current, segs.skip(k - 1)),
            decreases last - k,
        {
            assert(segs.skip(k - 1)[0] == path@[k as int].name@);
            assert(segs.skip(k - 1).drop_first() =~= segs.skip(k as int));
            let next = match get_module(current, path[k].name.as_str()) {
                Some(m) => m,
                None => {
                    assert(error_views(self.errors@) =~= error_views(self.errors@) + Seq::<ErrorView>::empty());
                    return true;
                },
            };
            match next.visibility {
                Visibility::Private => {
                    let name = path[k].name.clone();
                    self.report(CompilerError::VisibilityViolation { name, span });
                    return false;
                },
                Visibility::Public => {},
            }
            current = &next.symbols;
            k += 1;
        }
        assert(segs.skip(k - 1) =~= Seq::<Seq<char>>::empty());
        assert(path@.last() == path@[last as int]);
        assert(ident_names(path@).last() == path@[last as int].name@);
        let item = &path[last];
        match find_item_visibility(current, item.name.as_str()) {
            Some(Visibility::Private) => {
                self.report(CompilerError::VisibilityViolation { name: item.name.clone(), span });
                false
            },
            _ => {
                assert(error_views(self.errors@) =~= error_views(self.errors@) + Seq::<ErrorView>::empty());
                true
            },
        }
    }

    /// Resolve a type path through modules, such as `["outer", "inner",
    /// "Type"]`: `Some` with a message when a module on the way or the
    /// type is not there, `None` when the path names a type or a trait.
    pub fn resolve_nested_module_type(&self, parts: &Vec<&str>) -> (r: Option<String>)
        ensures
            r is None <==> nested_type_error(self.symbols, str_views(parts@)) is None,
            r matches Some(m) ==> nested_type_error(self.symbols, str_views(parts@)) == Some(m@),
    {
        let ghost ps = str_views(parts@);
        if parts.len() == 0 {
            return Some(String::from_str("empty module path"));
        }
        let last = parts.len() - 1;
        let ghost modules = ps.take(last as int);
        let mut current: &SymbolTable = &self.symbols;
        let mut path_so_far = String::new();
        assert(modules.skip(0) =~= modules);
        assert(walk_modules(*current, modules.skip(0)) == walk_modules(self.symbols, modules));
        proof { lemma_walk_modules_error(self.symbols, modules); }
        assert(ps.take(0) =~= Seq::<Seq<char>>::empty());
        let mut k: usize = 0;
        while k < last
            invariant
                k <= last,
                last == ps.len() - 1,
                ps == str_views(parts@),
                modules == ps.take(last as int),
                path_so_far@ == join_path(ps.take(k as int)),
                walk_modules(self.symbols, modules) is Ok ==> walk_modules(*current, modules.skip(k as int)) == walk_modules(self.symbols, modules),
                walk_modules(self.symbols, modules) is Err ==> walk_modules(self.symbols, modules)->Err_0 >= k
                    && walk_modules(*current, modules.skip(k as int)) == Err::<SymbolTable, int>(walk_modules(self.symbols, modules)->Err_0 - k),
            decreases last - k,
        {
            proof {
                assert(modules.skip(k as int)[0] == ps[k as int]);
                assert(modules.skip(k as int).drop_first() =~= modules.skip(k + 1));
                assert(ps.take(k + 1).drop_last() =~= ps.take(k as int));
                assert(ps.take(k + 1).last() == ps[k as int]);
            }
            if k > 0 {
                path_so_far.append("::");
            } else {
                assert(ps.take(1)[0] == ps[0]);
            }
            path_so_far.append(parts[k]);
            match get_module(current, parts[k]) {
                Some(m) => {
                    proof { lemma_walk_modules_error(m.symbols, modules.skip(k + 1)); }
                    current = &m.symbols;
                },
                None => {
                    proof {
                        lemma_walk_modules_error(self.symbols, modules);
                        assert(modules.take(k + 1) =~= ps.take(k + 1));
                    }
                    let mut message = String::from_str("module '");
                    message.append(path_so_far.as_str());
                    message.append("' not found");
                    return Some(message);
                },
            }
            k += 1;
        }
        assert(modules.skip(k as int) =~= Seq::<Seq<char>>::empty());
        assert(ps.take(k as int) =~= modules);
        proof { lemma_walk_modules_error(self.symbols, modules); }
        let item_name = parts[last];
        if !current.is_type(item_name) && !current.is_trait(item_name) {
            let mut message = String::from_str("type '");
            message.append(item_name);
            message.append("' not found in module '");
            message.append(path_so_far.as_str());
            message.append("'");
            return Some(message);
        }
        None
    }
}

/// What resolving the type path `parts` reports, if anything.
pub open spec fn nested_type_error(st: SymbolTable, parts: Seq<Seq<char>>) -> Option<Seq<char>> {
    if parts.len() == 0 {
        Some("empty module path"@)
    } else {
        let modules = parts.drop_last();
        match walk_modules(st, modules) {
            Err(i) => Some("module '"@ + join_path(modules.take(i + 1)) + "' not found"@),
            Ok(t) => if !t.names_type(parts.last()) && !t.has_trait(parts.last()) {
                Some("type '"@ + parts.last() + "' not found in module '"@ + join_path(modules) + "'"@)
            } else {
                None
            },
        }
    }
}

/// A walk that fails at position `i` names the modules before it.
pub proof fn lemma_walk_modules_error(st: SymbolTable, segs: Seq<Seq<char>>)
    ensures
        walk_modules(st, segs) matches Err(i) ==> 0 <= i < segs.len(),
    decreases segs.len(),
{
    if segs.len() > 0 {
        if let Some(m) = module_named(st.modules@, segs[0]) {
            lemma_walk_modules_error(m.symbols, segs.drop_first());
        }
    }
}

} // verus!

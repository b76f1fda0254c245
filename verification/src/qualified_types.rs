//! Free helpers for traversing qualified type names (`m1::m2::Foo`): the
//! module segments of a name, the definitions of a nested module, and
//! whether an impl there has a method.

use vstd::prelude::*;
use vstd::string::StrSliceExecFns;
use crate::ast::{Definition, Statement};
use crate::text::str_equals;

verus! {

broadcast use vstd::std_specs::vec::group_vec_axioms;

/// The position of the first `::` in `s`, if any.
pub open spec fn first_separator(s: Seq<char>) -> Option<int>
    decreases s.len(),
{
    if s.len() < 2 {
        None
    } else if s[0] == ':' && s[1] == ':' {
        Some(0)
    } else {
        match first_separator(s.drop_first()) {
            Some(i) => Some(i + 1),
            None => None,
        }
    }
}

/// The parts of `s` between its `::` separators, left to right.
pub open spec fn split_parts(s: Seq<char>) -> Seq<Seq<char>>
    decreases s.len(),
{
    match first_separator(s) {
        Some(i) => {
            if 0 <= i && i + 2 <= s.len() {
                seq![s.subrange(0, i)] + split_parts(s.subrange(i + 2, s.len() as int))
            } else {
                seq![s]
            }
        },
        None => seq![s],
    }
}

pub proof fn lemma_first_separator_bounds(s: Seq<char>)
    ensures
        first_separator(s) matches Some(i) ==> 0 <= i && i + 2 <= s.len() && s[i] == ':' && s[i + 1] == ':'
            && forall|j: int| 0 <= j < i ==> !(#[trigger] s[j] == ':' && s[j + 1] == ':'),
        first_separator(s) is None ==> forall|j: int| 0 <= j && j + 1 < s.len() ==> !(#[trigger] s[j] == ':' && s[j + 1] == ':'),
    decreases s.len(),
{
    if s.len() >= 2 && !(s[0] == ':' && s[1] == ':') {
        lemma_first_separator_bounds(s.drop_first());
        assert forall|j: int| 0 < j && j + 1 < s.len() implies #[trigger] s[j] == s.drop_first()[j - 1] && s[j + 1] == s.drop_first()[j] by {}
    }
}

/// The first `::` at or after `from` in `s`, searched left to right.
pub fn find_separator(s: &str, from: usize) -> (r: Option<usize>)
    requires
        from <= s@.len(),
    ensures
        first_separator(s@.subrange(from as int, s@.len() as int)) matches Some(i) ==> r == Some((from + i) as usize),
        first_separator(s@.subrange(from as int, s@.len() as int)) is None ==> r is None,
{
    let n = s.unicode_len();
    let mut i: usize = from;
    proof { lemma_first_separator_bounds(s@.subrange(from as int, n as int)); }
    while i < n && i + 1 < n
        invariant
            from <= i <= n,
            n == s@.len(),
            forall|j: int| from <= j < i && j + 1 < n ==> !(#[trigger] s@[j] == ':' && s@[j + 1] == ':'),
        decreases n - i,
    {
        if s.get_char(i) == ':' && s.get_char(i + 1) == ':' {
            proof {
                let t = s@.subrange(from as int, n as int);
                lemma_first_separator_bounds(t);
                match first_separator(t) {
                    Some(k) => {
                        if k < i - from {
                            assert(t[k] == s@[from + k] && t[k + 1] == s@[from + k + 1]);
                        } else if k > i - from {
                            assert(t[i - from] == s@[i as int] && t[i - from + 1] == s@[i + 1]);
                        }
                    },
                    None => {
                        assert(t[i - from] == s@[i as int] && t[i - from + 1] == s@[i + 1]);
                    },
                }
            }
            return Some(i);
        }
        i += 1;
    }
    proof {
        let t = s@.subrange(from as int, n as int);
        lemma_first_separator_bounds(t);
        if let Some(k) = first_separator(t) {
            assert(t[k] == s@[from + k] && t[k + 1] == s@[from + k + 1]);
        }
    }
    None
}

/// Split a qualified type name `m1::m2::Foo` into its module segments
/// `["m1", "m2"]` and its bare name `"Foo"`. `None` when the name has no
/// `::`.
pub fn split_qualified_type<'a>(name: &'a str) -> (r: Option<(Vec<&'a str>, &'a str)>)
    ensures
        r is None <==> first_separator(name@) is None,
        r matches Some((segments, bare)) ==> ({
            let parts = split_parts(name@);
            &&& segments@.len() + 1 == parts.len()
            &&& forall|i: int| 0 <= i < segments@.len() ==> (#[trigger] segments@[i])@ == parts[i]
            &&& bare@ == parts.last()
        }),
{
    let n = name.unicode_len();
    let first = find_separator(name, 0);
    assert(name@.subrange(0, n as int) =~= name@);
    if first.is_none() {
        return None;
    }
    let mut parts: Vec<&'a str> = Vec::new();
    let mut start: usize = 0;
    let ghost whole = split_parts(name@);
    proof { lemma_first_separator_bounds(name@); }
    loop
        invariant
            start <= n,
            n == name@.len(),
            whole == split_parts(name@),
            whole.len() == parts@.len() + split_parts(name@.subrange(start as int, n as int)).len(),
            forall|i: int| 0 <= i < parts@.len() ==> (#[trigger] parts@[i])@ == whole[i],
            whole.skip(parts@.len() as int) == split_parts(name@.subrange(start as int, n as int)),
        decreases n - start,
    {
        let ghost rest = name@.subrange(start as int, n as int);
        proof { lemma_first_separator_bounds(rest); }
        match find_separator(name, start) {
            Some(at) => {
                let piece = name.substring_char(start, at);
                proof {
                    let k = (at - start) as int;
                    assert(first_separator(rest) == Some(k));
                    assert(rest.subrange(0, k) =~= name@.subrange(start as int, at as int));
                    assert(rest.subrange(k + 2, rest.len() as int) =~= name@.subrange(at + 2, n as int));
                    assert(split_parts(rest) == seq![rest.subrange(0, k)] + split_parts(rest.subrange(k + 2, rest.len() as int)));
                }
                let ghost before = parts@;
                parts.push(piece);
                proof {
                    let after = split_parts(name@.subrange(at + 2, n as int));
                    assert(whole.skip(before.len() as int)[0] == piece@);
                    assert(whole.skip(parts@.len() as int) =~= whole.skip(before.len() as int).drop_first());
                    assert(whole.skip(before.len() as int).drop_first() =~= after);
                }
                start = at + 2;
            },
            None => {
                let bare = name.substring_char(start, n);
                proof {
                    assert(split_parts(rest) == seq![rest]);
                    assert(rest =~= bare@);
                    assert(whole.skip(parts@.len() as int) =~= seq![bare@]);
                    assert(whole.last() == whole.skip(parts@.len() as int)[0]);
                }
                return Some((parts, bare));
            },
        }
    }
}

/// The index of the first module called `name` in `defs`.
pub open spec fn first_module(defs: Seq<Definition>, name: Seq<char>) -> Option<int>
    decreases defs.len(),
{
    if defs.len() == 0 {
        None
    } else if defs[0] matches Definition::Module(m) && m.name.name@ == name {
        Some(0)
    } else {
        match first_module(defs.drop_first(), name) {
            Some(i) => Some(i + 1),
            None => None,
        }
    }
}

/// The definitions of the module that the path `segments` names inside
/// `defs`, through nested modules.
pub open spec fn module_path_defs(defs: Seq<Definition>, segments: Seq<Seq<char>>) -> Option<Seq<Definition>>
    decreases defs, segments.len(),
{
    if segments.len() == 0 {
        None
    } else {
        match first_module(defs, segments[0]) {
            Some(i) => {
                if 0 <= i < defs.len() {
                    match defs[i] {
                        Definition::Module(m) => if segments.len() == 1 {
                            Some(m.definitions@)
                        } else {
                            module_path_defs(m.definitions@, segments.drop_first())
                        },
                        _ => None,
                    }
                } else {
                    None
                }
            },
            None => None,
        }
    }
}

/// The index of the first statement that defines a module called `name`.
pub open spec fn first_module_statement(statements: Seq<Statement>, name: Seq<char>) -> Option<int>
    decreases statements.len(),
{
    if statements.len() == 0 {
        None
    } else if statements[0] matches Statement::Definition(d) && *d matches Definition::Module(m)
        && m.name.name@ == name {
        Some(0)
    } else {
        match first_module_statement(statements.drop_first(), name) {
            Some(i) => Some(i + 1),
            None => None,
        }
    }
}

pub proof fn lemma_first_module_bounds(defs: Seq<Definition>, name: Seq<char>)
    ensures
        first_module(defs, name) matches Some(i) ==> (0 <= i < defs.len()
            && (defs[i] matches Definition::Module(m) && m.name.name@ == name)),
        first_module(defs, name) matches Some(i) ==> forall|j: int| 0 <= j < i ==>
            !((#[trigger] defs[j]) matches Definition::Module(m) && m.name.name@ == name),
        first_module(defs, name) is None ==> forall|j: int| 0 <= j < defs.len() ==>
            !((#[trigger] defs[j]) matches Definition::Module(m) && m.name.name@ == name),
    decreases defs.len(),
{
    if defs.len() > 0 {
        lemma_first_module_bounds(defs.drop_first(), name);
        assert forall|j: int| 0 < j < defs.len() implies #[trigger] defs[j] == defs.drop_first()[j - 1] by {}
    }
}

pub proof fn lemma_first_module_statement_bounds(statements: Seq<Statement>, name: Seq<char>)
    ensures
        first_module_statement(statements, name) matches Some(i) ==> (0 <= i < statements.len()
            && (statements[i] matches Statement::Definition(d) && *d matches Definition::Module(m)
            && m.name.name@ == name)),
        first_module_statement(statements, name) matches Some(i) ==> forall|j: int| 0 <= j < i ==>
            !((#[trigger] statements[j]) matches Statement::Definition(d) && *d matches Definition::Module(m)
                && m.name.name@ == name),
        first_module_statement(statements, name) is None ==> forall|j: int| 0 <= j < statements.len() ==>
            !((#[trigger] statements[j]) matches Statement::Definition(d) && *d matches Definition::Module(m)
                && m.name.name@ == name),
    decreases statements.len(),
{
    if statements.len() > 0 {
        lemma_first_module_statement_bounds(statements.drop_first(), name);
        assert forall|j: int| 0 < j < statements.len() implies #[trigger] statements[j] == statements.drop_first()[j - 1] by {}
    }
}

/// The views of a list of names.
pub open spec fn str_views(s: Seq<&str>) -> Seq<Seq<char>> {
    s.map_values(|x: &str| x@)
}

/// Walk the statements of a file to the nested module that the path
/// `segments` names, and return that module's definitions.
pub fn find_nested_module_definitions<'a>(statements: &'a Vec<Statement>, segments: &Vec<&str>) -> (r: Option<&'a Vec<Definition>>)
    ensures
        r is Some <==> ({
            &&& segments@.len() > 0
            &&& first_module_statement(statements@, segments@[0]@) matches Some(i)
            &&& statements@[i] matches Statement::Definition(d)
            &&& *d matches Definition::Module(m)
            &&& if segments@.len() == 1 { true } else { module_path_defs(m.definitions@, str_views(segments@).drop_first()) is Some }
        }),
        r matches Some(defs) ==> ({
            &&& segments@.len() > 0
            &&& first_module_statement(statements@, segments@[0]@) matches Some(i)
            &&& statements@[i] matches Statement::Definition(d)
            &&& *d matches Definition::Module(m)
            &&& if segments@.len() == 1 { defs@ == m.definitions@ } else {
                module_path_defs(m.definitions@, str_views(segments@).drop_first()) == Some(defs@)
            }
        }),
{
    if segments.len() == 0 {
        return None;
    }
    let head = segments[0];
    proof { lemma_first_module_statement_bounds(statements@, head@); }
    let mut k: usize = 0;
    while k < statements.len()
        invariant
            k <= statements@.len(),
            forall|j: int| 0 <= j < k ==> !((#[trigger] statements@[j]) matches Statement::Definition(d)
                && *d matches Definition::Module(m) && m.name.name@ == head@),
        decreases statements.len() - k,
    {
        if let Statement::Definition(def) = &statements[k] {
            if let Definition::Module(module_def) = &**def {
                if str_equals(module_def.name.name.as_str(), head) {
                    proof {
                        match first_module_statement(statements@, head@) {
                            Some(i) => { if i > k { } else if i < k { } },
                            None => {},
                        }
                    }
                    if segments.len() == 1 {
                        return Some(&module_def.definitions);
                    }
                    let found = find_nested_module_definitions_in_defs(&module_def.definitions, segments, 1);
                    proof {
                        assert(str_views(segments@).skip(1) =~= str_views(segments@).drop_first());
                    }
                    return found;
                }
            }
        }
        k += 1;
    }
    None
}

/// Walk `definitions` to the nested module that the segments of
/// `segments` from `from` on name, and return that module's definitions.
pub fn find_nested_module_definitions_in_defs<'a>(
    definitions: &'a Vec<Definition>,
    segments: &Vec<&str>,
    from: usize,
) -> (r: Option<&'a Vec<Definition>>)
    requires
        from <= segments@.len(),
    ensures
        r is Some <==> module_path_defs(definitions@, str_views(segments@).skip(from as int)) is Some,
        r matches Some(defs) ==> module_path_defs(definitions@, str_views(segments@).skip(from as int)) == Some(defs@),
    decreases definitions@, segments@.len() - from,
{
    let ghost segs = str_views(segments@).skip(from as int);
    if from >= segments.len() {
        return None;
    }
    let head = segments[from];
    assert(segs[0] == head@);
    proof { lemma_first_module_bounds(definitions@, head@); }
    let mut k: usize = 0;
    while k < definitions.len()
        invariant
            k <= definitions@.len(),
            from < segments@.len(),
            forall|j: int| 0 <= j < k ==> !((#[trigger] definitions@[j]) matches Definition::Module(m) && m.name.name@ == head@),
        decreases definitions.len() - k,
    {
        if let Definition::Module(module_def) = &definitions[k] {
            if str_equals(module_def.name.name.as_str(), head) {
                proof {
                    match first_module(definitions@, head@) {
                        Some(i) => { if i > k { } else if i < k { } },
                        None => {},
                    }
                }
                if from + 1 == segments.len() {
                    return Some(&module_def.definitions);
                }
                proof {
                    assert(decreases_to!(definitions@ => definitions@[k as int]));
                    assert(decreases_to!(definitions@[k as int] => definitions@[k as int]->Module_0.definitions@));
                    assert(segs.drop_first() =~= str_views(segments@).skip(from + 1));
                }
                return find_nested_module_definitions_in_defs(&module_def.definitions, segments, from + 1);
            }
        }
        k += 1;
    }
    None
}

/// True when `d` is `impl <bare>` with a method called `method`.
pub open spec fn impl_has_method(d: Definition, bare: Seq<char>, method: Seq<char>) -> bool {
    d matches Definition::Impl(i) && i.name.name@ == bare
        && exists|j: int| 0 <= j < i.functions@.len() && (#[trigger] i.functions@[j]).name.name@ == method
}

/// True when `definitions` hold `impl <bare> { fn <method> }`.
pub fn impl_method_in_definitions(definitions: &Vec<Definition>, bare: &str, method: &str) -> (r: bool)
    ensures
        r == exists|i: int| 0 <= i < definitions@.len() && impl_has_method(#[trigger] definitions@[i], bare@, method@),
{
    let mut k: usize = 0;
    while k < definitions.len()
        invariant
            k <= definitions@.len(),
            forall|i: int| 0 <= i < k ==> !impl_has_method(#[trigger] definitions@[i], bare@, method@),
        decreases definitions.len() - k,
    {
        if let Definition::Impl(impl_def) = &definitions[k] {
            if str_equals(impl_def.name.name.as_str(), bare) {
                let mut f: usize = 0;
                while f < impl_def.functions.len()
                    invariant
                        f <= impl_def.functions@.len(),
                        forall|j: int| 0 <= j < f ==> (#[trigger] impl_def.functions@[j]).name.name@ != method@,
                    decreases impl_def.functions.len() - f,
                {
                    if str_equals(impl_def.functions[f].name.name.as_str(), method) {
                        return true;
                    }
                    f += 1;
                }
            }
        }
        k += 1;
    }
    false
}

} // verus!

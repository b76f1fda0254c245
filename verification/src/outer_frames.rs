//! The bindings that a loop body or a closure body reaches from outside
//! it.
//!
//! A `for` body runs once per element, and a closure body once per call.
//! So a `sink` of an outer binding inside one gives the value away again
//! on the second pass. A closure is also pure: it does not assign to a
//! binding that it captures, nor pass one to a `mut` parameter. Each loop
//! body and closure body pushes a frame with the names in scope where it
//! starts.

use vstd::prelude::*;
use crate::analyzer::{let_binding_names, OuterFrame, SemanticAnalyzer};
use crate::text::{list_contains, views};

verus! {

broadcast use vstd::std_specs::vec::group_vec_axioms;

/// The names that one of the scopes `scopes` holds.
pub open spec fn names_in_scopes(scopes: Seq<Vec<String>>) -> Set<Seq<char>> {
    Set::new(|n: Seq<char>| exists|i: int| 0 <= i < scopes.len() && views(#[trigger] scopes[i]@).contains(n))
}

/// The names of the local bindings in scope: `let` bindings, closure
/// parameters, loop variables, and the bindings that inference sees.
pub open spec fn local_names(a: SemanticAnalyzer) -> Set<Seq<char>> {
    let_binding_names(a.local_let_bindings@).to_set()
        .union(names_in_scopes(a.closure_param_scopes@))
        .union(names_in_scopes(a.loop_var_scopes@))
        .union(names_in_scopes(a.inference_scopes@))
}

/// Some frame holds `name`; with `closure_only`, some closure frame.
pub open spec fn framed(frames: Seq<OuterFrame>, name: Seq<char>, closure_only: bool) -> bool {
    exists|i: int| 0 <= i < frames.len() && (!closure_only || frames[i].closure) && views(#[trigger] frames[i].names@).contains(name)
}

/// Append the names of each of `scopes` to `out`.
fn append_scopes(out: &mut Vec<String>, scopes: &Vec<Vec<String>>)
    ensures
        views(final(out)@).to_set() == views(old(out)@).to_set().union(names_in_scopes(scopes@)),
{
    let ghost o0 = views(out@).to_set();
    let mut i: usize = 0;
    while i < scopes.len()
        invariant
            i <= scopes@.len(),
            views(out@).to_set() == o0.union(names_in_scopes(scopes@.take(i as int))),
        decreases scopes.len() - i,
    {
        let ghost before = views(out@).to_set();
        let scope = &scopes[i];
        let mut j: usize = 0;
        while j < scope.len()
            invariant
                scope == scopes@[i as int],
                j <= scope@.len(),
                views(out@).to_set() == before.union(views(scope@.take(j as int)).to_set()),
            decreases scope.len() - j,
        {
            let ghost ob = views(out@);
            out.push(scope[j].clone());
            proof {
                assert(views(out@) =~= ob.push(scopes@[i as int]@[j as int]@));
                assert(views(scopes@[i as int]@.take(j + 1)) =~= views(scopes@[i as int]@.take(j as int)).push(scopes@[i as int]@[j as int]@));
                assert(views(out@).to_set() =~= ob.to_set().insert(scopes@[i as int]@[j as int]@)) by {
                    lemma_push_to_set(ob, scopes@[i as int]@[j as int]@);
                }
                lemma_push_to_set(views(scopes@[i as int]@.take(j as int)), scopes@[i as int]@[j as int]@);
                assert(views(out@).to_set() =~= before.union(views(scopes@[i as int]@.take(j + 1)).to_set()));
            }
            j += 1;
        }
        proof {
            assert(scopes@[i as int]@.take(j as int) =~= scopes@[i as int]@);
            assert(names_in_scopes(scopes@.take(i + 1)) =~= names_in_scopes(scopes@.take(i as int)).union(views(scopes@[i as int]@).to_set())) by {
                assert forall|n: Seq<char>| names_in_scopes(scopes@.take(i + 1)).contains(n)
                    <==> names_in_scopes(scopes@.take(i as int)).contains(n) || views(scopes@[i as int]@).to_set().contains(n) by {
                    if names_in_scopes(scopes@.take(i + 1)).contains(n) {
                        let q = choose|q: int| 0 <= q < scopes@.take(i + 1).len() && views(#[trigger] scopes@.take(i + 1)[q]@).contains(n);
                        if q < i {
                            assert(scopes@.take(i as int)[q] == scopes@.take(i + 1)[q]);
                        }
                    }
                    if names_in_scopes(scopes@.take(i as int)).contains(n) {
                        let q = choose|q: int| 0 <= q < scopes@.take(i as int).len() && views(#[trigger] scopes@.take(i as int)[q]@).contains(n);
                        assert(scopes@.take(i + 1)[q] == scopes@.take(i as int)[q]);
                    }
                    if views(scopes@[i as int]@).to_set().contains(n) {
                        assert(scopes@.take(i + 1)[i as int] == scopes@[i as int]);
                    }
                }
            }
        }
        i += 1;
    }
    assert(scopes@.take(i as int) =~= scopes@);
}

/// The set of a sequence one longer.
pub proof fn lemma_push_to_set(s: Seq<Seq<char>>, x: Seq<char>)
    ensures
        s.push(x).to_set() == s.to_set().insert(x),
{
    s.lemma_push_to_set_commute(x);
}

/// True when some frame of `frames`, or with `closure_only` some closure
/// frame, holds `name`.
fn any_frame_holds(frames: &Vec<OuterFrame>, name: &str, closure_only: bool) -> (r: bool)
    ensures
        r == framed(frames@, name@, closure_only),
{
    let mut i: usize = 0;
    while i < frames.len()
        invariant
            i <= frames@.len(),
            forall|j: int| 0 <= j < i ==> !((!closure_only || frames@[j].closure) && views(#[trigger] frames@[j].names@).contains(name@)),
        decreases frames.len() - i,
    {
        if (!closure_only || frames[i].closure) && list_contains(&frames[i].names, name) {
            return true;
        }
        i += 1;
    }
    false
}

impl SemanticAnalyzer {
    /// Start a loop body (`closure` false) or a closure body: its frame
    /// holds every local binding in scope here.
    pub fn push_outer_frame(&mut self, closure: bool)
        ensures
            final(self).outer_frames@.len() == old(self).outer_frames@.len() + 1,
            final(self).outer_frames@.drop_last() == old(self).outer_frames@,
            final(self).outer_frames@.last().closure == closure,
            views(final(self).outer_frames@.last().names@).to_set() == local_names(*old(self)),
            final(self).errors == old(self).errors,
            final(self).symbols == old(self).symbols,
            final(self).local_let_bindings == old(self).local_let_bindings,
            final(self).consumed_bindings == old(self).consumed_bindings,
            final(self).same_state((SemanticAnalyzer { outer_frames: final(self).outer_frames, ..*old(self) })),
    {
        let mut names: Vec<String> = crate::analyzer::let_names_of(&self.local_let_bindings);
        append_scopes(&mut names, &self.closure_param_scopes);
        append_scopes(&mut names, &self.loop_var_scopes);
        append_scopes(&mut names, &self.inference_scopes);
        let ghost before = self.outer_frames@;
        self.outer_frames.push(OuterFrame { closure, names });
        assert(self.outer_frames@.drop_last() =~= before);
    }

    /// End the innermost loop body or closure body.
    pub fn pop_outer_frame(&mut self)
        ensures
            final(self).outer_frames@ == if old(self).outer_frames@.len() > 0 {
                old(self).outer_frames@.drop_last()
            } else {
                old(self).outer_frames@
            },
            final(self).errors == old(self).errors,
            final(self).symbols == old(self).symbols,
            final(self).local_let_bindings == old(self).local_let_bindings,
            final(self).consumed_bindings == old(self).consumed_bindings,
            final(self).same_state((SemanticAnalyzer { outer_frames: final(self).outer_frames, ..*old(self) })),
    {
        let _ = self.outer_frames.pop();
    }

    /// True when a `sink` of `name` here would run more than once: the
    /// name is from outside a loop body or a closure body.
    pub fn sink_repeats(&self, name: &str) -> (r: bool)
        ensures
            r == framed(self.outer_frames@, name@, false),
    {
        any_frame_holds(&self.outer_frames, name, false)
    }

    /// True when `name` is a binding that a closure around this point
    /// captures.
    pub fn is_closure_capture(&self, name: &str) -> (r: bool)
        ensures
            r == framed(self.outer_frames@, name@, true),
    {
        any_frame_holds(&self.outer_frames, name, true)
    }
}

} // verus!

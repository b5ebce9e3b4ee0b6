//! The transition detector.
//!
//! Given the tick's change feeds (markers added, markers removed,
//! components added) and the entities that currently carry the component,
//! it computes the load-set and the unload-set as duplicate-free id lists.
//! Order within a set is unspecified; the dispatchers assume none.

use vstd::prelude::*;

use crate::ids::contains_id;
use crate::ids::no_dups;

verus! {

/// `e` belongs to the load-set: it is marked, it carries the component,
/// and the marker or the component was newly added this tick.
pub open spec fn load_transition(
    e: u64,
    added_marker: Seq<u64>,
    added_comp: Seq<u64>,
    marked: Seq<u64>,
    carriers: Seq<u64>,
) -> bool {
    &&& marked.contains(e)
    &&& carriers.contains(e)
    &&& (added_marker.contains(e) || added_comp.contains(e))
}

/// `e` belongs to the unload-set: its marker was removed this tick and it
/// still carries the component.  An entity that no longer carries the
/// component has nothing left to unload.
pub open spec fn unload_transition(e: u64, removed_marker: Seq<u64>, carriers: Seq<u64>) -> bool {
    &&& removed_marker.contains(e)
    &&& carriers.contains(e)
}

/// Compute the load-set for this tick.
pub fn detect_load(
    added_marker: &Vec<u64>,
    added_comp: &Vec<u64>,
    marked: &Vec<u64>,
    carriers: &Vec<u64>,
) -> (r: Vec<u64>)
    ensures
        no_dups(r@),
        forall|e: u64|
            r@.contains(e) <==> load_transition(e, added_marker@, added_comp@, marked@, carriers@),
{
    let mut r: Vec<u64> = Vec::new();
    let mut k: usize = 0;
    while k < added_marker.len()
        invariant
            no_dups(r@),
            k <= added_marker@.len(),
            forall|e: u64|
                r@.contains(e) ==> load_transition(
                    e,
                    added_marker@,
                    added_comp@,
                    marked@,
                    carriers@,
                ),
            forall|j: int|
                0 <= j < k && marked@.contains(#[trigger] added_marker@[j]) && carriers@.contains(
                    added_marker@[j],
                ) ==> r@.contains(added_marker@[j]),
        decreases added_marker@.len() - k,
    {
        let e = added_marker[k];
        if contains_id(marked, e) && contains_id(carriers, e) && !contains_id(&r, e) {
            let ghost prev = r@;
            r.push(e);
            proof {
                crate::ids::lemma_push_contains(prev, e);
                crate::ids::lemma_push_no_dups(prev, e);
                assert(added_marker@[k as int] == e);
                assert(added_marker@.contains(e));
                assert forall|x: u64| r@.contains(x) implies load_transition(
                    x,
                    added_marker@,
                    added_comp@,
                    marked@,
                    carriers@,
                ) by {
                    if x != e {
                        assert(prev.contains(x));
                    }
                }
            }
        }
        k += 1;
    }
    let mut k: usize = 0;
    while k < added_comp.len()
        invariant
            no_dups(r@),
            k <= added_comp@.len(),
            forall|e: u64|
                r@.contains(e) ==> load_transition(
                    e,
                    added_marker@,
                    added_comp@,
                    marked@,
                    carriers@,
                ),
            forall|j: int|
                0 <= j < added_marker@.len() && marked@.contains(#[trigger] added_marker@[j])
                    && carriers@.contains(added_marker@[j]) ==> r@.contains(added_marker@[j]),
            forall|j: int|
                0 <= j < k && marked@.contains(#[trigger] added_comp@[j]) && carriers@.contains(
                    added_comp@[j],
                ) ==> r@.contains(added_comp@[j]),
        decreases added_comp@.len() - k,
    {
        let e = added_comp[k];
        if contains_id(marked, e) && contains_id(carriers, e) && !contains_id(&r, e) {
            let ghost prev = r@;
            r.push(e);
            proof {
                crate::ids::lemma_push_contains(prev, e);
                crate::ids::lemma_push_no_dups(prev, e);
                assert(added_comp@[k as int] == e);
                assert(added_comp@.contains(e));
                assert forall|x: u64| r@.contains(x) implies load_transition(
                    x,
                    added_marker@,
                    added_comp@,
                    marked@,
                    carriers@,
                ) by {
                    if x != e {
                        assert(prev.contains(x));
                    }
                }
            }
        }
        k += 1;
    }
    proof {
        assert forall|e: u64| load_transition(
            e,
            added_marker@,
            added_comp@,
            marked@,
            carriers@,
        ) implies r@.contains(e) by {
            if added_marker@.contains(e) {
                let j = choose|j: int|
                    0 <= j < added_marker@.len() && added_marker@[j] == e;
                assert(marked@.contains(added_marker@[j]));
            } else {
                let j = choose|j: int| 0 <= j < added_comp@.len() && added_comp@[j] == e;
                assert(marked@.contains(added_comp@[j]));
            }
        }
    }
    r
}

/// Compute the unload-set for this tick: the intersection of the entities
/// whose marker was removed and the entities that still carry the
/// component.
pub fn detect_unload(removed_marker: &Vec<u64>, carriers: &Vec<u64>) -> (r: Vec<u64>)
    ensures
        no_dups(r@),
        forall|e: u64| r@.contains(e) <==> unload_transition(e, removed_marker@, carriers@),
{
    let mut r: Vec<u64> = Vec::new();
    let mut k: usize = 0;
    while k < removed_marker.len()
        invariant
            no_dups(r@),
            k <= removed_marker@.len(),
            forall|e: u64| r@.contains(e) ==> unload_transition(e, removed_marker@, carriers@),
            forall|j: int|
                0 <= j < k && carriers@.contains(#[trigger] removed_marker@[j]) ==> r@.contains(
                    removed_marker@[j],
                ),
        decreases removed_marker@.len() - k,
    {
        let e = removed_marker[k];
        if contains_id(carriers, e) && !contains_id(&r, e) {
            let ghost prev = r@;
            r.push(e);
            proof {
                crate::ids::lemma_push_contains(prev, e);
                crate::ids::lemma_push_no_dups(prev, e);
                assert(removed_marker@[k as int] == e);
                assert(removed_marker@.contains(e));
                assert forall|x: u64| r@.contains(x) implies unload_transition(
                    x,
                    removed_marker@,
                    carriers@,
                ) by {
                    if x != e {
                        assert(prev.contains(x));
                    }
                }
            }
        }
        k += 1;
    }
    proof {
        assert forall|e: u64| unload_transition(e, removed_marker@, carriers@) implies r@.contains(
            e,
        ) by {
            let j = choose|j: int| 0 <= j < removed_marker@.len() && removed_marker@[j] == e;
            assert(carriers@.contains(removed_marker@[j]));
        }
    }
    r
}

} // verus!

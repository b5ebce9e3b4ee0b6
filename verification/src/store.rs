//! A model of the host entity-component store, for one component type.
//!
//! The lifecycle engine only consumes a narrow interface from its host:
//! entity identity, per-entity component storage, presence of the active
//! marker, and a per-tick change-tracking feed ("marker added this tick",
//! "marker removed this tick", "component added this tick").  [`Store`]
//! holds exactly that state as plain values, so that the detector and the
//! dispatchers can be verified against it.
//!
//! The change feeds are scoped to the current tick: [`Store::clear_tick`]
//! ends a tick by clearing them.  Despawning does not touch the feeds; a
//! despawned entity no longer carries its component, so the detector
//! excludes it either way.

use vstd::prelude::*;

use crate::assoc::key_in;
use crate::assoc::lemma_at;
use crate::assoc::lemma_push;
use crate::assoc::lemma_remove;
use crate::assoc::lemma_update;
use crate::assoc::unique_keys;
use crate::assoc::val_of;
use crate::ids::contains_id;
use crate::ids::no_dups;
use crate::ids::remove_id;

verus! {

/// The active marker: attaching it to an entity means "this entity should
/// be loaded", detaching it means "this entity should be unloaded".  It
/// carries no data; presence is the sole signal.
pub struct IsLoaded;

/// The per-type slice of the host store that the lifecycle engine sees.
pub struct Store<T> {
    /// The next identifier handed out by `spawn`.
    pub next_id: u64,
    /// The live entities.
    pub entities: Vec<u64>,
    /// Each entity's component of type `T`, keyed by entity id.
    pub comps: Vec<(u64, T)>,
    /// The entities carrying the active marker.
    pub marked: Vec<u64>,
    /// Entities whose marker was attached this tick.
    pub added_marker: Vec<u64>,
    /// Entities whose marker was detached this tick.
    pub removed_marker: Vec<u64>,
    /// Entities whose component was attached this tick.
    pub added_comp: Vec<u64>,
}

/// The change feeds of `post` are those of `pre`.
pub open spec fn feeds_unchanged<T>(pre: Store<T>, post: Store<T>) -> bool {
    &&& post.added_marker@ == pre.added_marker@
    &&& post.removed_marker@ == pre.removed_marker@
    &&& post.added_comp@ == pre.added_comp@
}

/// Nothing observable about `post` differs from `pre`.
pub open spec fn store_unchanged<T>(pre: Store<T>, post: Store<T>) -> bool {
    &&& post.next_id == pre.next_id
    &&& post.entities@ == pre.entities@
    &&& post.comps@ == pre.comps@
    &&& post.marked@ == pre.marked@
    &&& feeds_unchanged(pre, post)
}

impl<T> Store<T> {
    /// Well-formedness: every id collection is duplicate-free, components
    /// and markers sit on live entities, and every live entity id is below
    /// `next_id`.
    pub open spec fn wf(self) -> bool {
        &&& no_dups(self.entities@)
        &&& unique_keys(self.comps@)
        &&& no_dups(self.marked@)
        &&& no_dups(self.added_marker@)
        &&& no_dups(self.removed_marker@)
        &&& no_dups(self.added_comp@)
        &&& forall|i: int|
            0 <= i < self.comps@.len() ==> self.entities@.contains((#[trigger] self.comps@[i]).0)
        &&& forall|i: int|
            0 <= i < self.marked@.len() ==> self.entities@.contains(#[trigger] self.marked@[i])
        &&& forall|i: int| 0 <= i < self.entities@.len() ==> #[trigger] self.entities@[i] < self.next_id
    }

    /// The entity `e` is live.
    pub open spec fn has_entity(self, e: u64) -> bool {
        self.entities@.contains(e)
    }

    /// The entity `e` carries a component.
    pub open spec fn has_comp(self, e: u64) -> bool {
        key_in(self.comps@, e)
    }

    /// The component carried by `e` (meaningful when `has_comp(e)`).
    pub open spec fn comp_of(self, e: u64) -> T {
        val_of(self.comps@, e)
    }

    /// The entity `e` carries the active marker.
    pub open spec fn is_marked(self, e: u64) -> bool {
        self.marked@.contains(e)
    }

    /// The detector schedules `e` for loading this tick: `e` carries both
    /// the marker and the component, and at least one of the two was newly
    /// attached.  A component attached to an already-marked entity loads
    /// immediately rather than waiting for a future marker transition.
    pub open spec fn in_load_set(self, e: u64) -> bool {
        &&& self.is_marked(e)
        &&& self.has_comp(e)
        &&& (self.added_marker@.contains(e) || self.added_comp@.contains(e))
    }

    /// The detector schedules `e` for unloading this tick: the marker was
    /// detached from `e` this tick and `e` still carries the component.
    /// An entity that no longer carries the component has nothing left to
    /// unload and is excluded.
    pub open spec fn in_unload_set(self, e: u64) -> bool {
        &&& self.removed_marker@.contains(e)
        &&& self.has_comp(e)
    }

    /// An empty store.
    pub fn new() -> (s: Store<T>)
        ensures
            s.wf(),
            s.next_id == 0,
            s.entities@.len() == 0,
            s.comps@.len() == 0,
            s.marked@.len() == 0,
            s.added_marker@.len() == 0,
            s.removed_marker@.len() == 0,
            s.added_comp@.len() == 0,
    {
        Store {
            next_id: 0,
            entities: Vec::new(),
            comps: Vec::new(),
            marked: Vec::new(),
            added_marker: Vec::new(),
            removed_marker: Vec::new(),
            added_comp: Vec::new(),
        }
    }

    /// Create a fresh entity and return its id.
    pub fn spawn(&mut self) -> (e: u64)
        requires
            old(self).wf(),
            old(self).next_id < u64::MAX,
        ensures
            final(self).wf(),
            e == old(self).next_id,
            !old(self).has_entity(e),
            final(self).next_id == old(self).next_id + 1,
            final(self).entities@ == old(self).entities@.push(e),
            forall|x: u64| final(self).has_entity(x) <==> (old(self).has_entity(x) || x == e),
            final(self).comps@ == old(self).comps@,
            final(self).marked@ == old(self).marked@,
            feeds_unchanged(*old(self), *final(self)),
    {
        let e = self.next_id;
        proof {
            if old(self).entities@.contains(e) {
                let j = choose|j: int|
                    0 <= j < old(self).entities@.len() && old(self).entities@[j] == e;
                assert(old(self).entities@[j] < old(self).next_id);
            }
        }
        self.entities.push(e);
        self.next_id = self.next_id + 1;
        proof {
            crate::ids::lemma_push_contains(old(self).entities@, e);
            crate::ids::lemma_push_no_dups(old(self).entities@, e);
            assert forall|i: int| 0 <= i < self.entities@.len() implies #[trigger] self.entities@[i]
                < self.next_id by {
                if i < old(self).entities@.len() {
                    assert(self.entities@[i] == old(self).entities@[i]);
                } else {
                    assert(self.entities@[i] == e);
                }
            }
        }
        e
    }

    /// Remove the entity `e`, its component and its marker.  The change
    /// feeds are left alone: a despawned entity carries nothing, so the
    /// detector excludes it regardless of stale feed entries.
    pub fn despawn(&mut self, e: u64)
        requires
            old(self).wf(),
        ensures
            final(self).wf(),
            forall|x: u64| final(self).has_entity(x) <==> (old(self).has_entity(x) && x != e),
            forall|x: u64| final(self).has_comp(x) <==> (old(self).has_comp(x) && x != e),
            forall|x: u64|
                x != e && old(self).has_comp(x) ==> final(self).comp_of(x) == old(self).comp_of(x),
            forall|x: u64| final(self).is_marked(x) <==> (old(self).is_marked(x) && x != e),
            final(self).next_id == old(self).next_id,
            feeds_unchanged(*old(self), *final(self)),
    {
        remove_id(&mut self.entities, e);
        let ghost s1 = *self;
        match comp_index(&self.comps, e) {
            Some(i) => {
                self.comps.remove(i);
                proof {
                    lemma_at(s1.comps@, i as int);
                    lemma_remove(s1.comps@, i as int);
                }
            },
            None => {},
        }
        let ghost s2 = *self;
        remove_id(&mut self.marked, e);
        proof {
            assert forall|j: int| 0 <= j < self.comps@.len() implies self.entities@.contains(
                (#[trigger] self.comps@[j]).0) by {
                lemma_at(self.comps@, j);
                assert(key_in(self.comps@, self.comps@[j].0));
                assert(self.comps@[j].0 != e);
                assert(key_in(s2.comps@, self.comps@[j].0));
                let j0 = choose|j0: int|
                    0 <= j0 < old(self).comps@.len() && (#[trigger] old(self).comps@[j0]).0
                        == self.comps@[j].0;
                assert(old(self).entities@.contains(self.comps@[j].0));
            }
            assert forall|j: int| 0 <= j < self.marked@.len() implies self.entities@.contains(
                #[trigger] self.marked@[j]) by {
                assert(self.marked@.contains(self.marked@[j]));
                assert(self.marked@[j] != e);
                assert(old(self).marked@.contains(self.marked@[j]));
            }
            assert forall|j: int| 0 <= j < self.entities@.len() implies #[trigger] self.entities@[j]
                < self.next_id by {
                assert(self.entities@.contains(self.entities@[j]));
                let j0 = choose|j0: int|
                    0 <= j0 < old(self).entities@.len() && old(self).entities@[j0]
                        == self.entities@[j];
                assert(old(self).entities@[j0] < old(self).next_id);
            }
        }
    }

    /// Attach the component `c` to `e`.  Returns whether `e` is live; a
    /// dead entity is left alone.  Attaching to an entity that did not
    /// carry a component is recorded in the "component added" feed;
    /// overwriting an existing component is an ordinary write and is not.
    pub fn insert(&mut self, e: u64, c: T) -> (r: bool)
        requires
            old(self).wf(),
        ensures
            final(self).wf(),
            r == old(self).has_entity(e),
            !r ==> store_unchanged(*old(self), *final(self)),
            r ==> final(self).has_comp(e) && final(self).comp_of(e) == c,
            r ==> forall|x: u64|
                x != e ==> (final(self).has_comp(x) <==> old(self).has_comp(x)),
            r ==> forall|x: u64|
                x != e && old(self).has_comp(x) ==> final(self).comp_of(x) == old(self).comp_of(x),
            r ==> final(self).entities@ == old(self).entities@ && final(self).marked@ == old(self).marked@ && final(self).next_id == old(self).next_id,
            r ==> final(self).added_marker@ == old(self).added_marker@ && final(self).removed_marker@ == old(self).removed_marker@,
            r ==> forall|x: u64|
                final(self).added_comp@.contains(x) <==> (old(self).added_comp@.contains(x) || (x
                    == e && !old(self).has_comp(e))),
    {
        if !contains_id(&self.entities, e) {
            return false;
        }
        match comp_index(&self.comps, e) {
            Some(i) => {
                self.comps.remove(i);
                self.comps.insert(i, (e, c));
                proof {
                    assert(self.comps@ =~= old(self).comps@.update(i as int, (e, c)));
                    lemma_update(old(self).comps@, i as int, (e, c));
                    assert(forall|j: int|
                        0 <= j < self.comps@.len() ==> (#[trigger] self.comps@[j]).0 == old(self).comps@[j].0);
                    assert(key_in(old(self).comps@, e));
                }
            },
            None => {
                self.comps.push((e, c));
                if !contains_id(&self.added_comp, e) {
                    self.added_comp.push(e);
                    proof {
                        crate::ids::lemma_push_contains(old(self).added_comp@, e);
                        crate::ids::lemma_push_no_dups(old(self).added_comp@, e);
                    }
                }
                proof {
                    lemma_push(old(self).comps@, (e, c));
                    assert forall|j: int| 0 <= j < self.comps@.len() implies self.entities@
                        .contains((#[trigger] self.comps@[j]).0) by {
                        if j < old(self).comps@.len() {
                            assert(self.comps@[j] == old(self).comps@[j]);
                        } else {
                            assert(self.comps@[j] == (e, c));
                        }
                    }
                }
            },
        }
        true
    }

    /// Attach the active marker to `e`.  Returns whether `e` is live; a
    /// dead entity is left alone.  A newly attached marker is recorded in
    /// the "marker added" feed; re-attaching a present marker changes
    /// nothing.
    pub fn insert_marker(&mut self, e: u64, _marker: IsLoaded) -> (r: bool)
        requires
            old(self).wf(),
        ensures
            final(self).wf(),
            r == old(self).has_entity(e),
            !r ==> store_unchanged(*old(self), *final(self)),
            r ==> forall|x: u64|
                final(self).is_marked(x) <==> (old(self).is_marked(x) || x == e),
            r ==> final(self).entities@ == old(self).entities@ && final(self).comps@ == old(self).comps@ && final(self).next_id == old(self).next_id,
            r ==> final(self).removed_marker@ == old(self).removed_marker@ && final(self).added_comp@ == old(self).added_comp@,
            r ==> forall|x: u64|
                final(self).added_marker@.contains(x) <==> (old(self).added_marker@.contains(x) || (
                x == e && !old(self).is_marked(e))),
    {
        if !contains_id(&self.entities, e) {
            return false;
        }
        if !contains_id(&self.marked, e) {
            self.marked.push(e);
            proof {
                crate::ids::lemma_push_contains(old(self).marked@, e);
                crate::ids::lemma_push_no_dups(old(self).marked@, e);
                assert forall|j: int| 0 <= j < self.marked@.len() implies self.entities@.contains(
                    #[trigger] self.marked@[j]) by {
                    if j < old(self).marked@.len() {
                        assert(self.marked@[j] == old(self).marked@[j]);
                    } else {
                        assert(self.marked@[j] == e);
                    }
                }
            }
            if !contains_id(&self.added_marker, e) {
                self.added_marker.push(e);
                proof {
                    crate::ids::lemma_push_contains(old(self).added_marker@, e);
                    crate::ids::lemma_push_no_dups(old(self).added_marker@, e);
                }
            }
        }
        true
    }

    /// Detach the active marker from `e`, if present.  An actual
    /// detachment is recorded in the "marker removed" feed; detaching an
    /// absent marker changes nothing.
    pub fn remove_marker(&mut self, e: u64)
        requires
            old(self).wf(),
        ensures
            final(self).wf(),
            forall|x: u64| final(self).is_marked(x) <==> (old(self).is_marked(x) && x != e),
            final(self).entities@ == old(self).entities@,
            final(self).comps@ == old(self).comps@,
            final(self).next_id == old(self).next_id,
            final(self).added_marker@ == old(self).added_marker@,
            final(self).added_comp@ == old(self).added_comp@,
            forall|x: u64|
                final(self).removed_marker@.contains(x) <==> (old(self).removed_marker@.contains(x)
                    || (x == e && old(self).is_marked(e))),
    {
        if contains_id(&self.marked, e) {
            remove_id(&mut self.marked, e);
            proof {
                assert forall|j: int| 0 <= j < self.marked@.len() implies self.entities@.contains(
                    #[trigger] self.marked@[j]) by {
                    assert(self.marked@.contains(self.marked@[j]));
                    assert(old(self).marked@.contains(self.marked@[j]));
                }
            }
            if !contains_id(&self.removed_marker, e) {
                self.removed_marker.push(e);
                proof {
                    crate::ids::lemma_push_contains(old(self).removed_marker@, e);
                    crate::ids::lemma_push_no_dups(old(self).removed_marker@, e);
                }
            }
        }
    }

    /// Move `e`'s component out of the store, leaving `e` without one.
    /// The dispatchers pair this with [`Store::write_back`]: the value is
    /// mutated outside the store and then re-attached, so the store is
    /// never borrowed while a callback runs.
    pub fn take_comp(&mut self, e: u64) -> (r: Option<T>)
        requires
            old(self).wf(),
        ensures
            final(self).wf(),
            final(self).entities@ == old(self).entities@,
            final(self).marked@ == old(self).marked@,
            final(self).next_id == old(self).next_id,
            feeds_unchanged(*old(self), *final(self)),
            match r {
                Some(c) => old(self).has_comp(e) && c == old(self).comp_of(e) && !final(self).has_comp(e) && (forall|x: u64|
                    x != e ==> (final(self).has_comp(x) <==> old(self).has_comp(x))) && (forall|
                    x: u64,
                |
                    x != e && old(self).has_comp(x) ==> final(self).comp_of(x) == old(self).comp_of(x)),
                None => !old(self).has_comp(e) && final(self).comps@ == old(self).comps@,
            },
    {
        match comp_index(&self.comps, e) {
            Some(i) => {
                let pair = self.comps.remove(i);
                proof {
                    lemma_at(old(self).comps@, i as int);
                    lemma_remove(old(self).comps@, i as int);
                    assert forall|j: int| 0 <= j < self.comps@.len() implies self.entities@
                        .contains((#[trigger] self.comps@[j]).0) by {
                        let j0 = if j < i { j } else { j + 1 };
                        assert(self.comps@[j] == old(self).comps@[j0]);
                    }
                }
                Some(pair.1)
            },
            None => None,
        }
    }

    /// Re-attach a component produced by a dispatcher to `e`.  If `e` was
    /// despawned in the meantime the value is dropped and the store is
    /// unchanged: a missing target is tolerated, never an error.  The
    /// write-back is an ordinary write, so it does not mark the component
    /// as newly added and cannot re-trigger a load.
    pub fn write_back(&mut self, e: u64, c: T)
        requires
            old(self).wf(),
        ensures
            final(self).wf(),
            final(self).entities@ == old(self).entities@,
            final(self).marked@ == old(self).marked@,
            final(self).next_id == old(self).next_id,
            feeds_unchanged(*old(self), *final(self)),
            old(self).has_entity(e) ==> final(self).has_comp(e) && final(self).comp_of(e) == c && (
            forall|x: u64| x != e ==> (final(self).has_comp(x) <==> old(self).has_comp(x))) && (
            forall|x: u64|
                x != e && old(self).has_comp(x) ==> final(self).comp_of(x) == old(self).comp_of(x)),
            !old(self).has_entity(e) ==> final(self).comps@ == old(self).comps@,
    {
        if !contains_id(&self.entities, e) {
            return ;
        }
        match comp_index(&self.comps, e) {
            Some(i) => {
                self.comps.remove(i);
                self.comps.insert(i, (e, c));
                proof {
                    assert(self.comps@ =~= old(self).comps@.update(i as int, (e, c)));
                    lemma_update(old(self).comps@, i as int, (e, c));
                    assert(forall|j: int|
                        0 <= j < self.comps@.len() ==> (#[trigger] self.comps@[j]).0 == old(self).comps@[j].0);
                }
            },
            None => {
                self.comps.push((e, c));
                proof {
                    lemma_push(old(self).comps@, (e, c));
                    assert forall|j: int| 0 <= j < self.comps@.len() implies self.entities@
                        .contains((#[trigger] self.comps@[j]).0) by {
                        if j < old(self).comps@.len() {
                            assert(self.comps@[j] == old(self).comps@[j]);
                        } else {
                            assert(self.comps@[j] == (e, c));
                        }
                    }
                }
            },
        }
    }

    /// Read `e`'s component.
    pub fn get(&self, e: u64) -> (r: Option<&T>)
        requires
            self.wf(),
        ensures
            match r {
                Some(c) => self.has_comp(e) && *c == self.comp_of(e),
                None => !self.has_comp(e),
            },
    {
        match comp_index(&self.comps, e) {
            Some(i) => {
                proof {
                    lemma_at(self.comps@, i as int);
                }
                Some(&self.comps[i].1)
            },
            None => None,
        }
    }

    /// Whether `e` is live.
    pub fn contains_entity(&self, e: u64) -> (r: bool)
        ensures
            r == self.has_entity(e),
    {
        contains_id(&self.entities, e)
    }

    /// Whether `e` carries the active marker.
    pub fn contains_marker(&self, e: u64) -> (r: bool)
        ensures
            r == self.is_marked(e),
    {
        contains_id(&self.marked, e)
    }

    /// The entities that currently carry a component, as a duplicate-free
    /// list for the detector.
    pub fn carrier_list(&self) -> (r: Vec<u64>)
        requires
            self.wf(),
        ensures
            no_dups(r@),
            forall|e: u64| r@.contains(e) <==> self.has_comp(e),
    {
        let mut r: Vec<u64> = Vec::new();
        let mut k: usize = 0;
        while k < self.comps.len()
            invariant
                self.wf(),
                k <= self.comps@.len(),
                r@.len() == k,
                forall|j: int| 0 <= j < k ==> r@[j] == (#[trigger] self.comps@[j]).0,
            decreases self.comps@.len() - k,
        {
            let pair = &self.comps[k];
            r.push(pair.0);
            k += 1;
        }
        proof {
            assert forall|i: int, j: int| 0 <= i < j < r@.len() implies r@[i] != r@[j] by {
                assert(r@[i] == self.comps@[i].0);
                assert(r@[j] == self.comps@[j].0);
            }
            assert forall|e: u64| r@.contains(e) implies self.has_comp(e) by {
                let j = choose|j: int| 0 <= j < r@.len() && r@[j] == e;
                assert(self.comps@[j].0 == e);
            }
            assert forall|e: u64| self.has_comp(e) implies r@.contains(e) by {
                let j = choose|j: int|
                    0 <= j < self.comps@.len() && (#[trigger] self.comps@[j]).0 == e;
                assert(r@[j] == e);
            }
        }
        r
    }

    /// End the tick: clear the change feeds.  The host's change tracking
    /// is per tick and non-retroactive.
    pub fn clear_tick(&mut self)
        requires
            old(self).wf(),
        ensures
            final(self).wf(),
            final(self).added_marker@.len() == 0,
            final(self).removed_marker@.len() == 0,
            final(self).added_comp@.len() == 0,
            final(self).entities@ == old(self).entities@,
            final(self).comps@ == old(self).comps@,
            final(self).marked@ == old(self).marked@,
            final(self).next_id == old(self).next_id,
    {
        self.added_marker.clear();
        self.removed_marker.clear();
        self.added_comp.clear();
    }

    /// Idempotence of detection: on a tick with no new marker or component
    /// changes, the detector schedules no load and no unload at all.
    pub proof fn lemma_quiet_tick_schedules_nothing(self)
        requires
            self.added_marker@.len() == 0,
            self.added_comp@.len() == 0,
            self.removed_marker@.len() == 0,
        ensures
            forall|e: u64| !self.in_load_set(e),
            forall|e: u64| !self.in_unload_set(e),
    {
    }

    /// Load precedes unload: for an entity that carries the component
    /// throughout and is marked, then unmarked, then re-marked across
    /// three ticks, the detector schedules a load on the first tick, an
    /// unload on the second and a load again on the third — never an
    /// unload before the first load.
    pub proof fn lemma_load_precedes_unload(t1: Store<T>, t2: Store<T>, t3: Store<T>, e: u64)
        requires
            t1.is_marked(e),
            t1.has_comp(e),
            t1.added_marker@.contains(e),
            t1.removed_marker@.len() == 0,
            t2.has_comp(e),
            t2.removed_marker@.contains(e),
            !t2.is_marked(e),
            t3.is_marked(e),
            t3.has_comp(e),
            t3.added_marker@.contains(e),
        ensures
            t1.in_load_set(e),
            !t1.in_unload_set(e),
            t2.in_unload_set(e),
            !t2.in_load_set(e),
            t3.in_load_set(e),
    {
    }
}

/// The position of `e`'s component entry, by linear search.
fn comp_index<T>(comps: &Vec<(u64, T)>, e: u64) -> (r: Option<usize>)
    ensures
        match r {
            Some(i) => i < comps@.len() && comps@[i as int].0 == e,
            None => !key_in(comps@, e),
        },
{
    let mut k: usize = 0;
    while k < comps.len()
        invariant
            k <= comps@.len(),
            forall|j: int| 0 <= j < k ==> (#[trigger] comps@[j]).0 != e,
        decreases comps@.len() - k,
    {
        if comps[k].0 == e {
            return Some(k);
        }
        k += 1;
    }
    None
}

} // verus!

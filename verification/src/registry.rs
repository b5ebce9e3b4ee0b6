//! The registration interface: the start-up configuration table that says
//! which component types take part in lifecycle management and with which
//! dispatch strategy.
//!
//! Registration happens once, before the scheduler starts ticking, and
//! the table is immutable afterwards.  Registering the same type twice
//! would mean duplicate dispatch, so it is rejected as a configuration
//! error at registration time.

use vstd::prelude::*;

use crate::assoc::key_in;
use crate::assoc::lemma_push;
use crate::assoc::unique_keys;
use crate::assoc::val_of;

verus! {

/// How a registered component type is dispatched.
#[derive(Clone, Copy, PartialEq, Eq, Structural, Debug)]
pub enum DispatchMode {
    /// In-place mutation of the single component, one entity at a time.
    Immediate,
    /// Batched mutation under exclusive access to the whole store.
    Exclusive,
}

/// The configuration error for registering a component type twice.
#[derive(Clone, Copy, PartialEq, Eq, Structural, Debug)]
pub struct DuplicateRegistration {
    /// The identity of the component type that was already registered.
    pub type_id: u64,
}

/// The table from component-type identity to dispatch mode, built once
/// at start-up and consulted by the scheduler each tick.
pub struct Registry {
    /// The registered types and their modes, keyed by type identity.
    pub entries: Vec<(u64, DispatchMode)>,
}

impl Registry {
    /// Well-formedness: each type is registered at most once.
    pub open spec fn wf(self) -> bool {
        unique_keys(self.entries@)
    }

    /// The type `t` is registered.
    pub open spec fn is_registered(self, t: u64) -> bool {
        key_in(self.entries@, t)
    }

    /// The mode `t` was registered with (meaningful when registered).
    pub open spec fn mode_spec(self, t: u64) -> DispatchMode {
        val_of(self.entries@, t)
    }

    /// An empty table.
    pub fn new() -> (r: Registry)
        ensures
            r.wf(),
            r.entries@.len() == 0,
    {
        Registry { entries: Vec::new() }
    }

    /// Register the component type `type_id` with the given dispatch
    /// mode.  Succeeds exactly when the type was not registered before;
    /// a second registration is rejected and leaves the table unchanged.
    pub fn register(&mut self, type_id: u64, mode: DispatchMode) -> (r: Result<
        (),
        DuplicateRegistration,
    >)
        requires
            old(self).wf(),
        ensures
            final(self).wf(),
            r is Ok <==> !old(self).is_registered(type_id),
            r is Err ==> final(self).entries@ == old(self).entries@ && r == Err::<
                (),
                DuplicateRegistration,
            >(DuplicateRegistration { type_id }),
            r is Ok ==> final(self).entries@ == old(self).entries@.push((type_id, mode)),
            r is Ok ==> forall|t: u64|
                final(self).is_registered(t) <==> (old(self).is_registered(t) || t == type_id),
            r is Ok ==> final(self).mode_spec(type_id) == mode,
            r is Ok ==> forall|t: u64|
                t != type_id && old(self).is_registered(t) ==> final(self).mode_spec(t) == old(
                    self,
                ).mode_spec(t),
    {
        if self.contains_type(type_id) {
            return Err(DuplicateRegistration { type_id });
        }
        self.entries.push((type_id, mode));
        proof {
            lemma_push(old(self).entries@, (type_id, mode));
        }
        Ok(())
    }

    /// Register `type_id` for immediate, in-place dispatch.
    pub fn register_loadable(&mut self, type_id: u64) -> (r: Result<(), DuplicateRegistration>)
        requires
            old(self).wf(),
        ensures
            final(self).wf(),
            r is Ok <==> !old(self).is_registered(type_id),
            r is Err ==> final(self).entries@ == old(self).entries@,
            r is Ok ==> final(self).entries@ == old(self).entries@.push(
                (type_id, DispatchMode::Immediate),
            ),
            r is Ok ==> final(self).is_registered(type_id) && final(self).mode_spec(type_id)
                == DispatchMode::Immediate,
    {
        self.register(type_id, DispatchMode::Immediate)
    }

    /// Register `type_id` for exclusive, batched dispatch.
    pub fn register_loadable_ex(&mut self, type_id: u64) -> (r: Result<(), DuplicateRegistration>)
        requires
            old(self).wf(),
        ensures
            final(self).wf(),
            r is Ok <==> !old(self).is_registered(type_id),
            r is Err ==> final(self).entries@ == old(self).entries@,
            r is Ok ==> final(self).entries@ == old(self).entries@.push(
                (type_id, DispatchMode::Exclusive),
            ),
            r is Ok ==> final(self).is_registered(type_id) && final(self).mode_spec(type_id)
                == DispatchMode::Exclusive,
    {
        self.register(type_id, DispatchMode::Exclusive)
    }

    /// Whether `type_id` is registered.
    pub fn contains_type(&self, type_id: u64) -> (r: bool)
        ensures
            r == self.is_registered(type_id),
    {
        let mut k: usize = 0;
        while k < self.entries.len()
            invariant
                k <= self.entries@.len(),
                forall|j: int| 0 <= j < k ==> (#[trigger] self.entries@[j]).0 != type_id,
            decreases self.entries@.len() - k,
        {
            if self.entries[k].0 == type_id {
                return true;
            }
            k += 1;
        }
        false
    }

    /// Look up the dispatch mode `type_id` was registered with.
    pub fn mode_of(&self, type_id: u64) -> (r: Option<DispatchMode>)
        requires
            self.wf(),
        ensures
            match r {
                Some(m) => self.is_registered(type_id) && m == self.mode_spec(type_id),
                None => !self.is_registered(type_id),
            },
    {
        let mut k: usize = 0;
        while k < self.entries.len()
            invariant
                self.wf(),
                k <= self.entries@.len(),
                forall|j: int| 0 <= j < k ==> (#[trigger] self.entries@[j]).0 != type_id,
            decreases self.entries@.len() - k,
        {
            if self.entries[k].0 == type_id {
                proof {
                    crate::assoc::lemma_at(self.entries@, k as int);
                }
                return Some(self.entries[k].1);
            }
            k += 1;
        }
        None
    }
}

} // verus!

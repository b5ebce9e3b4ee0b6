//! The callback contracts a component type implements to take part in
//! lifecycle management, and the values its callbacks receive.
//!
//! A [`Loadable`] runs in place: its `load_data` sees only its own
//! component plus the read-only asset context.  A [`LoadableEx`] needs
//! exclusive access to the whole store (to spawn, despawn, or touch other
//! entities), so its callbacks run during the deferred command's
//! application phase and receive the store itself.
//!
//! Each trait describes the callback's effect on the component through
//! spec functions: `load_post` and `unload_post` relate the component
//! before and after the call, and `load_ok` says on which component
//! states loading succeeds.  A load failure is recoverable: the component
//! keeps whatever partial state the callback produced, and the dispatcher
//! reports the failure and moves on.

use vstd::prelude::*;

use crate::store::Store;

verus! {

/// A recoverable load failure, reported and then set aside: it never
/// aborts a batch and never propagates past the dispatcher.
pub struct LoadError {
    /// What went wrong, for the reporting channel.
    pub message: String,
}

/// The external resources a `load_data` call may read: the asset source
/// and the loading-progress sink.
pub struct LoadContext {
    /// Handles whose loading progress is being watched.
    pub pending: Vec<u64>,
}

impl LoadContext {
    /// A context watching nothing.
    pub fn new() -> (c: LoadContext)
        ensures
            c.pending@.len() == 0,
    {
        LoadContext { pending: Vec::new() }
    }

    /// Report `handle` to the loading-progress sink.
    pub fn track(&mut self, handle: u64)
        ensures
            final(self).pending@ == old(self).pending@.push(handle),
    {
        self.pending.push(handle);
    }
}

/// A component with in-place lifecycle callbacks.
pub trait Loadable: Sized {
    /// How `load_data` transforms the component.
    spec fn load_post(pre: Self, post: Self) -> bool;

    /// On which component states `load_data` succeeds.
    spec fn load_ok(pre: Self) -> bool;

    /// How `unload_data` transforms the component.
    spec fn unload_post(pre: Self, post: Self) -> bool;

    /// Acquire the component's resources.  Failure is recoverable; the
    /// component keeps the partial state the call produced.
    fn load_data(&mut self, ctx: &mut LoadContext) -> (r: Result<(), LoadError>)
        ensures
            Self::load_post(*old(self), *final(self)),
            r is Ok <==> Self::load_ok(*old(self)),
    ;

    /// Release the component's resources.  Unloading is infallible.
    fn unload_data(&mut self)
        ensures
            Self::unload_post(*old(self), *final(self)),
    ;
}

/// A component whose lifecycle callbacks need exclusive access to the
/// whole store.  The callbacks may read and write arbitrary entities,
/// spawn and despawn; each implementing type says what its callbacks do
/// to the store through `load_store_post` and `unload_store_post`.
pub trait LoadableEx: Sized {
    /// How `load_data` transforms the component itself.
    spec fn load_post(pre: Self, post: Self) -> bool;

    /// On which component states `load_data` succeeds.
    spec fn load_ok(pre: Self) -> bool;

    /// How `unload_data` transforms the component itself.
    spec fn unload_post(pre: Self, post: Self) -> bool;

    /// How `load_data` transforms the store it is handed, as a function
    /// of the component's pre-state.
    spec fn load_store_post(pre: Self, store_pre: Store<Self>, store_post: Store<Self>) -> bool;

    /// How `unload_data` transforms the store it is handed.
    spec fn unload_store_post(pre: Self, store_pre: Store<Self>, store_post: Store<Self>) -> bool;

    /// Acquire the component's resources, with exclusive store access.
    /// While the call runs the component itself is outside the store.
    fn load_data(&mut self, store: &mut Store<Self>) -> (r: Result<(), LoadError>)
        requires
            old(store).wf(),
        ensures
            final(store).wf(),
            Self::load_post(*old(self), *final(self)),
            Self::load_store_post(*old(self), *old(store), *final(store)),
            r is Ok <==> Self::load_ok(*old(self)),
    ;

    /// Release the component's resources, with exclusive store access.
    /// Unloading is infallible.
    fn unload_data(&mut self, store: &mut Store<Self>)
        requires
            old(store).wf(),
        ensures
            final(store).wf(),
            Self::unload_post(*old(self), *final(self)),
            Self::unload_store_post(*old(self), *old(store), *final(store)),
    ;
}

/// What a dispatcher did with one batch: which entities had their
/// callback invoked, which of those invocations reported a load failure,
/// and which entities were skipped because they had vanished by their
/// turn.
pub struct DispatchReport {
    /// Entities whose callback ran, each exactly once.
    pub invoked: Vec<u64>,
    /// Entities whose `load_data` returned a failure.
    pub failed: Vec<u64>,
    /// Entities skipped because no component was there by their turn.
    pub skipped: Vec<u64>,
}

} // verus!

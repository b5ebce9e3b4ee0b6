//! Sample components implementing the callback contracts.
//!
//! [`Foo`] is the canonical greeting component: loading fills its message,
//! unloading clears it.  [`AssetRef`] models a component whose load
//! depends on an external resource and fails when the resource is
//! missing.  [`Despawner`] is an exclusive-mode component whose load
//! despawns another entity, exercising the deferred dispatcher's
//! tolerance for targets that vanish mid-batch.

use vstd::prelude::*;

use crate::deferred::load_batch_applied;
use crate::deferred::load_batch_chain;
use crate::deferred::load_step;
use crate::deferred::load_step_witness;
use crate::loadable::DispatchReport;
use crate::loadable::LoadContext;
use crate::loadable::LoadError;
use crate::loadable::Loadable;
use crate::loadable::LoadableEx;
use crate::store::feeds_unchanged;
use crate::store::store_unchanged;
use crate::store::Store;

verus! {

/// A component that greets while loaded.
pub struct Foo {
    /// The greeting; present exactly while the component is loaded.
    pub message: Option<String>,
}

impl Default for Foo {
    /// A `Foo` that has not been loaded: no message.
    fn default() -> (r: Foo)
        ensures
            r.message is None,
    {
        Foo { message: None }
    }
}

impl Loadable for Foo {
    open spec fn load_post(pre: Foo, post: Foo) -> bool {
        match post.message {
            Option::Some(m) => m@ == "Hello World!"@,
            Option::None => false,
        }
    }

    open spec fn load_ok(pre: Foo) -> bool {
        true
    }

    open spec fn unload_post(pre: Foo, post: Foo) -> bool {
        post.message is None
    }

    fn load_data(&mut self, _ctx: &mut LoadContext) -> (r: Result<(), LoadError>) {
        self.message = Some("Hello World!".to_owned());
        Ok(())
    }

    fn unload_data(&mut self) {
        self.message = None;
    }
}

/// A component that needs an external resource to load: its load reports
/// the handle to the progress sink and succeeds exactly when a handle is
/// there.
pub struct AssetRef {
    /// The handle of the external resource, if any.
    pub handle: Option<u64>,
    /// Whether the resource is currently acquired.
    pub ready: bool,
}

impl Loadable for AssetRef {
    open spec fn load_post(pre: AssetRef, post: AssetRef) -> bool {
        &&& post.handle == pre.handle
        &&& post.ready == (pre.handle is Some)
    }

    open spec fn load_ok(pre: AssetRef) -> bool {
        pre.handle is Some
    }

    open spec fn unload_post(pre: AssetRef, post: AssetRef) -> bool {
        &&& post.handle == pre.handle
        &&& !post.ready
    }

    fn load_data(&mut self, ctx: &mut LoadContext) -> (r: Result<(), LoadError>) {
        match self.handle {
            Some(h) => {
                ctx.track(h);
                self.ready = true;
                Ok(())
            },
            None => {
                self.ready = false;
                Err(LoadError { message: "no asset handle to load".to_owned() })
            },
        }
    }

    fn unload_data(&mut self) {
        self.ready = false;
    }
}

/// An exclusive-mode component: loading may despawn a chosen entity, so
/// it needs write access to the whole store.
pub struct Despawner {
    /// The entity to despawn when this component loads, if any.
    pub target: Option<u64>,
    /// Whether this component is currently loaded.
    pub ready: bool,
}

impl LoadableEx for Despawner {
    open spec fn load_post(pre: Despawner, post: Despawner) -> bool {
        &&& post.target == pre.target
        &&& post.ready
    }

    open spec fn load_ok(pre: Despawner) -> bool {
        true
    }

    open spec fn unload_post(pre: Despawner, post: Despawner) -> bool {
        &&& post.target == pre.target
        &&& !post.ready
    }

    open spec fn load_store_post(
        pre: Despawner,
        store_pre: Store<Despawner>,
        store_post: Store<Despawner>,
    ) -> bool {
        match pre.target {
            Option::Some(victim) => {
                &&& forall|x: u64|
                    store_post.has_entity(x) <==> (store_pre.has_entity(x) && x != victim)
                &&& forall|x: u64|
                    store_post.has_comp(x) <==> (store_pre.has_comp(x) && x != victim)
                &&& forall|x: u64|
                    x != victim && store_pre.has_comp(x) ==> store_post.comp_of(x)
                        == store_pre.comp_of(x)
                &&& forall|x: u64|
                    store_post.is_marked(x) <==> (store_pre.is_marked(x) && x != victim)
                &&& store_post.next_id == store_pre.next_id
                &&& feeds_unchanged(store_pre, store_post)
            },
            Option::None => store_unchanged(store_pre, store_post),
        }
    }

    open spec fn unload_store_post(
        pre: Despawner,
        store_pre: Store<Despawner>,
        store_post: Store<Despawner>,
    ) -> bool {
        store_unchanged(store_pre, store_post)
    }

    fn load_data(&mut self, store: &mut Store<Despawner>) -> (r: Result<(), LoadError>) {
        match self.target {
            Some(victim) => {
                store.despawn(victim);
            },
            None => {},
        }
        self.ready = true;
        Ok(())
    }

    fn unload_data(&mut self, _store: &mut Store<Despawner>) {
        self.ready = false;
    }
}

/// Batch isolation under exclusive dispatch: in a two-target load batch
/// of [`Despawner`] components where the first target's load despawns
/// the second, the first is invoked, and the second — despawned
/// mid-batch — is skipped rather than invoked, without an error: the
/// report still accounts for both targets.
pub proof fn lemma_despawn_mid_batch_skips_victim(
    targets: Seq<u64>,
    s0: Store<Despawner>,
    s1: Store<Despawner>,
    report: DispatchReport,
)
    requires
        load_batch_applied::<Despawner>(targets, s0, s1, report),
        forall|x: u64|
            (report.invoked@.contains(x) || report.skipped@.contains(x)) <==> targets.contains(x),
        forall|x: u64| !(report.invoked@.contains(x) && report.skipped@.contains(x)),
        targets.len() == 2,
        targets[0] != targets[1],
        s0.has_comp(targets[0]),
        s0.has_comp(targets[1]),
        s0.comp_of(targets[0]).target == Some(targets[1]),
    ensures
        report.invoked@.contains(targets[0]),
        report.skipped@.contains(targets[1]),
        !report.invoked@.contains(targets[1]),
{
    let t0 = targets[0];
    let t1 = targets[1];
    let chain = choose|chain: Seq<Store<Despawner>>| #[trigger] load_batch_chain(
        targets,
        s0,
        s1,
        report,
        chain,
    );
    assert(load_batch_chain(targets, s0, s1, report, chain));
    crate::deferred::lemma_load_batch_step(targets, s0, s1, report, chain, 0);
    crate::deferred::lemma_load_batch_step(targets, s0, s1, report, chain, 1);
    assert(load_step(
        t0,
        chain[0],
        chain[1],
        report.invoked@.contains(t0),
        report.failed@.contains(t0),
    ));
    let (taken, after_cb, c) = choose|
        taken: Store<Despawner>,
        after_cb: Store<Despawner>,
        c: Despawner,
    | #[trigger] load_step_witness(t0, chain[0], chain[1], taken, after_cb, c);
    assert(load_step_witness(t0, chain[0], chain[1], taken, after_cb, c));
    assert(taken.has_comp(t1));
    assert(!after_cb.has_comp(t1));
    assert(!chain[1].has_comp(t1));
    assert(load_step(
        t1,
        chain[1],
        chain[2],
        report.invoked@.contains(t1),
        report.failed@.contains(t1),
    ));
    assert(!report.invoked@.contains(t1));
    assert(targets.contains(t1));
}

} // verus!

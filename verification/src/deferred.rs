//! The deferred dispatcher: batched lifecycle for [`LoadableEx`] types.
//!
//! Dispatch happens in two phases.  The collection phase is read-only:
//! [`load_ex_data_system`] and [`unload_ex_data_system`] detect the
//! transitions and gather the target entities into a pending command,
//! without holding any exclusive access.  The application phase runs
//! later, under exclusive store access: the command's `write` takes each
//! target's component out of the store, runs the callback with the whole
//! store, and writes the value back onto the same entity.  An entity that
//! has vanished by its turn — for instance despawned by an earlier
//! callback in the same batch — is skipped silently; the rest of the
//! batch still executes.  A pending command is consumed exactly once and
//! never survives the tick.
//!
//! The application contracts pin each target's fate step by step, as a
//! chain of stores ([`load_batch_applied`], [`unload_batch_applied`]):
//! a target is invoked exactly when it carries a component at its turn,
//! and what the store holds for it afterwards is the callback's own
//! result, written back whether the call succeeded or failed.

use vstd::prelude::*;

use crate::detect::detect_load;
use crate::detect::detect_unload;
use crate::ids::no_dups;
use crate::loadable::DispatchReport;
use crate::loadable::LoadableEx;
use crate::store::feeds_unchanged;
use crate::store::store_unchanged;
use crate::store::Store;

verus! {

/// A pending batch of entities to load, produced by the collection phase
/// and applied exactly once under exclusive access.
pub struct LoadCommand {
    /// The entities to load, free of duplicates.
    pub targets: Vec<u64>,
}

/// A pending batch of entities to unload, produced by the collection
/// phase and applied exactly once under exclusive access.
pub struct UnloadCommand {
    /// The entities to unload, free of duplicates.
    pub targets: Vec<u64>,
}

/// Collection phase for loads: gather this tick's load-set into a
/// pending command, holding only read access.  Returns nothing when the
/// load-set is empty, so no command is queued at all.
pub fn load_ex_data_system<L: LoadableEx>(store: &Store<L>) -> (r: Option<LoadCommand>)
    requires
        store.wf(),
    ensures
        match r {
            Some(cmd) => no_dups(cmd.targets@) && cmd.targets@.len() > 0 && (forall|x: u64|
                cmd.targets@.contains(x) <==> store.in_load_set(x)),
            None => forall|x: u64| !store.in_load_set(x),
        },
{
    let carriers = store.carrier_list();
    let targets = detect_load(&store.added_marker, &store.added_comp, &store.marked, &carriers);
    proof {
        assert forall|x: u64| targets@.contains(x) <==> store.in_load_set(x) by {
            assert(carriers@.contains(x) <==> store.has_comp(x));
            assert(targets@.contains(x) <==> crate::detect::load_transition(
                x,
                store.added_marker@,
                store.added_comp@,
                store.marked@,
                carriers@,
            ));
        }
    }
    if targets.len() == 0 {
        None
    } else {
        Some(LoadCommand { targets })
    }
}

/// Collection phase for unloads: intersect the entities whose marker was
/// removed this tick with those still carrying the component, and gather
/// the result into a pending command.  Returns nothing when that
/// intersection is empty.
pub fn unload_ex_data_system<L: LoadableEx>(store: &Store<L>) -> (r: Option<UnloadCommand>)
    requires
        store.wf(),
    ensures
        match r {
            Some(cmd) => no_dups(cmd.targets@) && cmd.targets@.len() > 0 && (forall|x: u64|
                cmd.targets@.contains(x) <==> store.in_unload_set(x)),
            None => forall|x: u64| !store.in_unload_set(x),
        },
{
    let carriers = store.carrier_list();
    let targets = detect_unload(&store.removed_marker, &carriers);
    proof {
        assert forall|x: u64| targets@.contains(x) <==> store.in_unload_set(x) by {
            assert(carriers@.contains(x) <==> store.has_comp(x));
            assert(targets@.contains(x) <==> crate::detect::unload_transition(
                x,
                store.removed_marker@,
                carriers@,
            ));
        }
    }
    if targets.len() == 0 {
        None
    } else {
        Some(UnloadCommand { targets })
    }
}

/// `post` is `pre` with `e`'s component moved out: what [`Store::take_comp`]
/// leaves behind when the component is there.
pub open spec fn comp_removed<L>(pre: Store<L>, e: u64, post: Store<L>) -> bool {
    &&& post.wf()
    &&& post.entities@ == pre.entities@
    &&& post.marked@ == pre.marked@
    &&& post.next_id == pre.next_id
    &&& feeds_unchanged(pre, post)
    &&& !post.has_comp(e)
    &&& forall|x: u64| x != e ==> (post.has_comp(x) <==> pre.has_comp(x))
    &&& forall|x: u64| x != e && pre.has_comp(x) ==> post.comp_of(x) == pre.comp_of(x)
}

/// `post` is `pre` with the value `c` written back onto `e`: what
/// [`Store::write_back`] produces, dropping the value if the target has
/// vanished.
pub open spec fn written_back<L>(pre: Store<L>, e: u64, c: L, post: Store<L>) -> bool {
    &&& post.wf()
    &&& post.entities@ == pre.entities@
    &&& post.marked@ == pre.marked@
    &&& post.next_id == pre.next_id
    &&& feeds_unchanged(pre, post)
    &&& (pre.has_entity(e) ==> post.has_comp(e) && post.comp_of(e) == c && (forall|x: u64|
        x != e ==> (post.has_comp(x) <==> pre.has_comp(x))) && (forall|x: u64|
        x != e && pre.has_comp(x) ==> post.comp_of(x) == pre.comp_of(x)))
    &&& (!pre.has_entity(e) ==> post.comps@ == pre.comps@)
}

/// One step of the load batch at target `e`.  If `e` carries a component
/// when its turn comes, the callback runs on exactly that value: the
/// component is taken out (`taken`), `load_data` turns it into some `c`
/// with `load_post`, acting on the store per `load_store_post`
/// (`after_cb`), and the step ends with `c` written back onto `e` —
/// whether the call succeeded or failed, with no rollback.  Otherwise
/// the target is not invoked and the step leaves the store untouched.
pub open spec fn load_step_witness<L: LoadableEx>(
    e: u64,
    s_pre: Store<L>,
    s_post: Store<L>,
    taken: Store<L>,
    after_cb: Store<L>,
    c: L,
) -> bool {
    &&& comp_removed(s_pre, e, taken)
    &&& L::load_post(s_pre.comp_of(e), c)
    &&& L::load_store_post(s_pre.comp_of(e), taken, after_cb)
    &&& after_cb.wf()
    &&& written_back(after_cb, e, c, s_post)
}

pub open spec fn load_step<L: LoadableEx>(
    e: u64,
    s_pre: Store<L>,
    s_post: Store<L>,
    invoked: bool,
    failed: bool,
) -> bool {
    if s_pre.has_comp(e) {
        &&& invoked
        &&& (failed <==> !L::load_ok(s_pre.comp_of(e)))
        &&& exists|taken: Store<L>, after_cb: Store<L>, c: L| #[trigger] load_step_witness(
            e,
            s_pre,
            s_post,
            taken,
            after_cb,
            c,
        )
    } else {
        &&& !invoked
        &&& !failed
        &&& store_unchanged(s_pre, s_post)
    }
}

/// One step of the unload batch at target `e`; as [`load_step`], with
/// `unload_post` and `unload_store_post`, and no failure.
pub open spec fn unload_step_witness<L: LoadableEx>(
    e: u64,
    s_pre: Store<L>,
    s_post: Store<L>,
    taken: Store<L>,
    after_cb: Store<L>,
    c: L,
) -> bool {
    &&& comp_removed(s_pre, e, taken)
    &&& L::unload_post(s_pre.comp_of(e), c)
    &&& L::unload_store_post(s_pre.comp_of(e), taken, after_cb)
    &&& after_cb.wf()
    &&& written_back(after_cb, e, c, s_post)
}

pub open spec fn unload_step<L: LoadableEx>(
    e: u64,
    s_pre: Store<L>,
    s_post: Store<L>,
    invoked: bool,
) -> bool {
    if s_pre.has_comp(e) {
        &&& invoked
        &&& exists|taken: Store<L>, after_cb: Store<L>, c: L| #[trigger] unload_step_witness(
            e,
            s_pre,
            s_post,
            taken,
            after_cb,
            c,
        )
    } else {
        &&& !invoked
        &&& store_unchanged(s_pre, s_post)
    }
}

/// The whole load batch as a chain of stores, one per target: `chain[i]`
/// is the store when `targets[i]`'s turn comes, and each consecutive
/// pair is one [`load_step`].  So a target is invoked exactly when it
/// carries a component at its turn, and what is stored afterwards is the
/// callback's own result.
pub open spec fn load_batch_chain<L: LoadableEx>(
    targets: Seq<u64>,
    s0: Store<L>,
    s1: Store<L>,
    report: DispatchReport,
    chain: Seq<Store<L>>,
) -> bool {
    &&& chain.len() == targets.len() + 1
    &&& chain[0] == s0
    &&& chain[targets.len() as int] == s1
    &&& forall|i: int|
        0 <= i < targets.len() ==> #[trigger] load_step(
            targets[i],
            chain[i],
            chain[i + 1],
            report.invoked@.contains(targets[i]),
            report.failed@.contains(targets[i]),
        )
}

pub open spec fn load_batch_applied<L: LoadableEx>(
    targets: Seq<u64>,
    s0: Store<L>,
    s1: Store<L>,
    report: DispatchReport,
) -> bool {
    exists|chain: Seq<Store<L>>| #[trigger] load_batch_chain(targets, s0, s1, report, chain)
}

/// Single out one step of a load batch chain.
pub proof fn lemma_load_batch_step<L: LoadableEx>(
    targets: Seq<u64>,
    s0: Store<L>,
    s1: Store<L>,
    report: DispatchReport,
    chain: Seq<Store<L>>,
    i: int,
)
    requires
        load_batch_chain(targets, s0, s1, report, chain),
        0 <= i < targets.len(),
    ensures
        load_step(
            targets[i],
            chain[i],
            chain[i + 1],
            report.invoked@.contains(targets[i]),
            report.failed@.contains(targets[i]),
        ),
{
}

/// The whole unload batch as a chain of stores; as
/// [`load_batch_applied`], with [`unload_step`].
pub open spec fn unload_batch_chain<L: LoadableEx>(
    targets: Seq<u64>,
    s0: Store<L>,
    s1: Store<L>,
    report: DispatchReport,
    chain: Seq<Store<L>>,
) -> bool {
    &&& chain.len() == targets.len() + 1
    &&& chain[0] == s0
    &&& chain[targets.len() as int] == s1
    &&& forall|i: int|
        0 <= i < targets.len() ==> #[trigger] unload_step(
            targets[i],
            chain[i],
            chain[i + 1],
            report.invoked@.contains(targets[i]),
        )
}

pub open spec fn unload_batch_applied<L: LoadableEx>(
    targets: Seq<u64>,
    s0: Store<L>,
    s1: Store<L>,
    report: DispatchReport,
) -> bool {
    exists|chain: Seq<Store<L>>| #[trigger] unload_batch_chain(targets, s0, s1, report, chain)
}

impl LoadCommand {
    /// Application phase: under exclusive access, take each target's
    /// component out, run `load_data` with the whole store, and write the
    /// value back.  Every target is either invoked exactly once or
    /// skipped because it had no component by its turn — a target
    /// despawned mid-batch by an earlier callback is skipped without
    /// failing the batch, and a load failure is recorded and the batch
    /// continues.
    pub fn write<L: LoadableEx>(self, store: &mut Store<L>) -> (report: DispatchReport)
        requires
            old(store).wf(),
            no_dups(self.targets@),
        ensures
            final(store).wf(),
            no_dups(report.invoked@),
            no_dups(report.skipped@),
            no_dups(report.failed@),
            forall|x: u64|
                (report.invoked@.contains(x) || report.skipped@.contains(x)) <==> self.targets@
                    .contains(x),
            forall|x: u64| !(report.invoked@.contains(x) && report.skipped@.contains(x)),
            forall|x: u64| report.failed@.contains(x) ==> report.invoked@.contains(x),
            self.targets@.len() > 0 ==> (report.invoked@.contains(self.targets@[0]) <==> old(
                store,
            ).has_comp(self.targets@[0])),
            load_batch_applied(self.targets@, *old(store), *final(store), report),
    {
        let targets = self.targets;
        let ghost tg = targets@;
        let ghost mut chain: Seq<Store<L>> = seq![*old(store)];
        let mut invoked: Vec<u64> = Vec::new();
        let mut failed: Vec<u64> = Vec::new();
        let mut skipped: Vec<u64> = Vec::new();
        let mut k: usize = 0;
        while k < targets.len()
            invariant
                targets@ == tg,
                no_dups(tg),
                store.wf(),
                k <= tg.len(),
                no_dups(invoked@),
                no_dups(skipped@),
                no_dups(failed@),
                forall|x: u64|
                    (invoked@.contains(x) || skipped@.contains(x)) <==> tg.take(
                        k as int,
                    ).contains(x),
                forall|x: u64| !(invoked@.contains(x) && skipped@.contains(x)),
                forall|x: u64| failed@.contains(x) ==> invoked@.contains(x),
                k == 0 ==> *store == *old(store),
                k > 0 && tg.len() > 0 ==> (invoked@.contains(tg[0]) <==> old(store).has_comp(
                    tg[0],
                )),
                chain.len() == k + 1,
                chain[0] == *old(store),
                chain[k as int] == *store,
                forall|i: int|
                    0 <= i < k ==> #[trigger] load_step(
                        tg[i],
                        chain[i],
                        chain[i + 1],
                        invoked@.contains(tg[i]),
                        failed@.contains(tg[i]),
                    ),
            decreases tg.len() - k,
        {
            let e = targets[k];
            let ghost s_pre = *store;
            let ghost chain0 = chain;
            proof {
                if tg.take(k as int).contains(e) {
                    let j = choose|j: int| 0 <= j < k && tg.take(k as int)[j] == e;
                    assert(tg[j] == tg[k as int]);
                }
                assert(tg.take(k as int + 1) =~= tg.take(k as int).push(e));
                crate::ids::lemma_push_contains(tg.take(k as int), e);
            }
            match store.take_comp(e) {
                Some(mut c) => {
                    let ghost taken = *store;
                    let ghost c_pre = c;
                    let res = c.load_data(store);
                    let ghost after_cb = *store;
                    let ghost c_post = c;
                    store.write_back(e, c);
                    let ghost prev_invoked = invoked@;
                    invoked.push(e);
                    proof {
                        crate::ids::lemma_push_contains(prev_invoked, e);
                        crate::ids::lemma_push_no_dups(prev_invoked, e);
                    }
                    let ghost prev_failed = failed@;
                    if res.is_err() {
                        failed.push(e);
                        proof {
                            crate::ids::lemma_push_contains(prev_failed, e);
                            crate::ids::lemma_push_no_dups(prev_failed, e);
                        }
                    }
                    proof {
                        assert forall|x: u64| (invoked@.contains(x) || skipped@.contains(x))
                            <==> tg.take(k as int + 1).contains(x) by {
                            if x != e {
                                assert(invoked@.contains(x) <==> prev_invoked.contains(x));
                                assert(tg.take(k as int + 1).contains(x) <==> tg.take(
                                    k as int,
                                ).contains(x));
                            }
                        }
                        assert forall|x: u64| failed@.contains(x) implies invoked@.contains(
                            x,
                        ) by {
                            if x != e {
                                assert(prev_failed.contains(x));
                                assert(prev_invoked.contains(x));
                            }
                        }
                        assert(!prev_failed.contains(e));
                        assert(failed@.contains(e) <==> !L::load_ok(s_pre.comp_of(e)));
                        assert(comp_removed(s_pre, e, taken));
                        assert(c_pre == s_pre.comp_of(e));
                        assert(L::load_post(s_pre.comp_of(e), c_post));
                        assert(L::load_store_post(s_pre.comp_of(e), taken, after_cb));
                        assert(written_back(after_cb, e, c_post, *store));
                        assert(load_step_witness(e, s_pre, *store, taken, after_cb, c_post));
                        assert(load_step(
                            e,
                            s_pre,
                            *store,
                            invoked@.contains(e),
                            failed@.contains(e),
                        ));
                        chain = chain.push(*store);
                        assert forall|i: int| 0 <= i < k + 1 implies #[trigger] load_step(
                            tg[i],
                            chain[i],
                            chain[i + 1],
                            invoked@.contains(tg[i]),
                            failed@.contains(tg[i]),
                        ) by {
                            if i < k {
                                assert(tg[i] != e);
                                assert(load_step(
                                    tg[i],
                                    chain0[i],
                                    chain0[i + 1],
                                    prev_invoked.contains(tg[i]),
                                    prev_failed.contains(tg[i]),
                                ));
                                assert(invoked@.contains(tg[i]) <==> prev_invoked.contains(
                                    tg[i],
                                ));
                                assert(failed@.contains(tg[i]) <==> prev_failed.contains(tg[i]));
                                assert(chain[i] == chain0[i]);
                                assert(chain[i + 1] == chain0[i + 1]);
                            } else {
                                assert(chain[i] == s_pre);
                                assert(chain[i + 1] == *store);
                            }
                        }
                    }
                },
                None => {
                    let ghost prev_skipped = skipped@;
                    skipped.push(e);
                    proof {
                        crate::ids::lemma_push_contains(prev_skipped, e);
                        crate::ids::lemma_push_no_dups(prev_skipped, e);
                        assert forall|x: u64| (invoked@.contains(x) || skipped@.contains(x))
                            <==> tg.take(k as int + 1).contains(x) by {
                            if x != e {
                                assert(skipped@.contains(x) <==> prev_skipped.contains(x));
                                assert(tg.take(k as int + 1).contains(x) <==> tg.take(
                                    k as int,
                                ).contains(x));
                            }
                        }
                        assert(store_unchanged(s_pre, *store));
                        assert(!invoked@.contains(e));
                        assert(!failed@.contains(e));
                        assert(load_step(
                            e,
                            s_pre,
                            *store,
                            invoked@.contains(e),
                            failed@.contains(e),
                        ));
                        chain = chain.push(*store);
                        assert forall|i: int| 0 <= i < k + 1 implies #[trigger] load_step(
                            tg[i],
                            chain[i],
                            chain[i + 1],
                            invoked@.contains(tg[i]),
                            failed@.contains(tg[i]),
                        ) by {
                            if i < k {
                                assert(tg[i] != e);
                                assert(load_step(
                                    tg[i],
                                    chain0[i],
                                    chain0[i + 1],
                                    invoked@.contains(tg[i]),
                                    failed@.contains(tg[i]),
                                ));
                                assert(chain[i] == chain0[i]);
                                assert(chain[i + 1] == chain0[i + 1]);
                            } else {
                                assert(chain[i] == s_pre);
                                assert(chain[i + 1] == *store);
                            }
                        }
                    }
                },
            }
            k += 1;
        }
        proof {
            assert(tg.take(tg.len() as int) =~= tg);
        }
        let report = DispatchReport { invoked, failed, skipped };
        proof {
            assert(load_batch_chain(tg, *old(store), *store, report, chain));
            assert(load_batch_applied(tg, *old(store), *store, report));
        }
        report
    }
}

impl UnloadCommand {
    /// Application phase: under exclusive access, take each target's
    /// component out, run `unload_data` with the whole store, and write
    /// the value back.  Unloading is infallible; a target with no
    /// component by its turn is skipped and the batch continues.
    pub fn write<L: LoadableEx>(self, store: &mut Store<L>) -> (report: DispatchReport)
        requires
            old(store).wf(),
            no_dups(self.targets@),
        ensures
            final(store).wf(),
            no_dups(report.invoked@),
            no_dups(report.skipped@),
            forall|x: u64|
                (report.invoked@.contains(x) || report.skipped@.contains(x)) <==> self.targets@
                    .contains(x),
            forall|x: u64| !(report.invoked@.contains(x) && report.skipped@.contains(x)),
            report.failed@.len() == 0,
            self.targets@.len() > 0 ==> (report.invoked@.contains(self.targets@[0]) <==> old(
                store,
            ).has_comp(self.targets@[0])),
            unload_batch_applied(self.targets@, *old(store), *final(store), report),
    {
        let targets = self.targets;
        let ghost tg = targets@;
        let ghost mut chain: Seq<Store<L>> = seq![*old(store)];
        let mut invoked: Vec<u64> = Vec::new();
        let mut skipped: Vec<u64> = Vec::new();
        let mut k: usize = 0;
        while k < targets.len()
            invariant
                targets@ == tg,
                no_dups(tg),
                store.wf(),
                k <= tg.len(),
                no_dups(invoked@),
                no_dups(skipped@),
                forall|x: u64|
                    (invoked@.contains(x) || skipped@.contains(x)) <==> tg.take(
                        k as int,
                    ).contains(x),
                forall|x: u64| !(invoked@.contains(x) && skipped@.contains(x)),
                k == 0 ==> *store == *old(store),
                k > 0 && tg.len() > 0 ==> (invoked@.contains(tg[0]) <==> old(store).has_comp(
                    tg[0],
                )),
                chain.len() == k + 1,
                chain[0] == *old(store),
                chain[k as int] == *store,
                forall|i: int|
                    0 <= i < k ==> #[trigger] unload_step(
                        tg[i],
                        chain[i],
                        chain[i + 1],
                        invoked@.contains(tg[i]),
                    ),
            decreases tg.len() - k,
        {
            let e = targets[k];
            let ghost s_pre = *store;
            let ghost chain0 = chain;
            proof {
                if tg.take(k as int).contains(e) {
                    let j = choose|j: int| 0 <= j < k && tg.take(k as int)[j] == e;
                    assert(tg[j] == tg[k as int]);
                }
                assert(tg.take(k as int + 1) =~= tg.take(k as int).push(e));
                crate::ids::lemma_push_contains(tg.take(k as int), e);
            }
            match store.take_comp(e) {
                Some(mut c) => {
                    let ghost taken = *store;
                    c.unload_data(store);
                    let ghost after_cb = *store;
                    let ghost c_post = c;
                    store.write_back(e, c);
                    let ghost prev_invoked = invoked@;
                    invoked.push(e);
                    proof {
                        crate::ids::lemma_push_contains(prev_invoked, e);
                        crate::ids::lemma_push_no_dups(prev_invoked, e);
                        assert forall|x: u64| (invoked@.contains(x) || skipped@.contains(x))
                            <==> tg.take(k as int + 1).contains(x) by {
                            if x != e {
                                assert(invoked@.contains(x) <==> prev_invoked.contains(x));
                                assert(tg.take(k as int + 1).contains(x) <==> tg.take(
                                    k as int,
                                ).contains(x));
                            }
                        }
                        assert(comp_removed(s_pre, e, taken));
                        assert(L::unload_post(s_pre.comp_of(e), c_post));
                        assert(L::unload_store_post(s_pre.comp_of(e), taken, after_cb));
                        assert(written_back(after_cb, e, c_post, *store));
                        assert(unload_step_witness(e, s_pre, *store, taken, after_cb, c_post));
                        assert(unload_step(e, s_pre, *store, invoked@.contains(e)));
                        chain = chain.push(*store);
                        assert forall|i: int| 0 <= i < k + 1 implies #[trigger] unload_step(
                            tg[i],
                            chain[i],
                            chain[i + 1],
                            invoked@.contains(tg[i]),
                        ) by {
                            if i < k {
                                assert(tg[i] != e);
                                assert(unload_step(
                                    tg[i],
                                    chain0[i],
                                    chain0[i + 1],
                                    prev_invoked.contains(tg[i]),
                                ));
                                assert(invoked@.contains(tg[i]) <==> prev_invoked.contains(
                                    tg[i],
                                ));
                                assert(chain[i] == chain0[i]);
                                assert(chain[i + 1] == chain0[i + 1]);
                            } else {
                                assert(chain[i] == s_pre);
                                assert(chain[i + 1] == *store);
                            }
                        }
                    }
                },
                None => {
                    let ghost prev_skipped = skipped@;
                    skipped.push(e);
                    proof {
                        crate::ids::lemma_push_contains(prev_skipped, e);
                        crate::ids::lemma_push_no_dups(prev_skipped, e);
                        assert forall|x: u64| (invoked@.contains(x) || skipped@.contains(x))
                            <==> tg.take(k as int + 1).contains(x) by {
                            if x != e {
                                assert(skipped@.contains(x) <==> prev_skipped.contains(x));
                                assert(tg.take(k as int + 1).contains(x) <==> tg.take(
                                    k as int,
                                ).contains(x));
                            }
                        }
                        assert(store_unchanged(s_pre, *store));
                        assert(!invoked@.contains(e));
                        assert(unload_step(e, s_pre, *store, invoked@.contains(e)));
                        chain = chain.push(*store);
                        assert forall|i: int| 0 <= i < k + 1 implies #[trigger] unload_step(
                            tg[i],
                            chain[i],
                            chain[i + 1],
                            invoked@.contains(tg[i]),
                        ) by {
                            if i < k {
                                assert(tg[i] != e);
                                assert(unload_step(
                                    tg[i],
                                    chain0[i],
                                    chain0[i + 1],
                                    invoked@.contains(tg[i]),
                                ));
                                assert(chain[i] == chain0[i]);
                                assert(chain[i + 1] == chain0[i + 1]);
                            } else {
                                assert(chain[i] == s_pre);
                                assert(chain[i + 1] == *store);
                            }
                        }
                    }
                },
            }
            k += 1;
        }
        proof {
            assert(tg.take(tg.len() as int) =~= tg);
        }
        let report = DispatchReport { invoked, failed: Vec::new(), skipped };
        proof {
            assert(unload_batch_chain(tg, *old(store), *store, report, chain));
            assert(unload_batch_applied(tg, *old(store), *store, report));
        }
        report
    }
}

/// The targets of a pending load command; an absent command has none.
pub open spec fn load_command_targets(cmd: Option<LoadCommand>) -> Seq<u64> {
    match cmd {
        Option::Some(c) => c.targets@,
        Option::None => Seq::empty(),
    }
}

/// The targets of a pending unload command; an absent command has none.
pub open spec fn unload_command_targets(cmd: Option<UnloadCommand>) -> Seq<u64> {
    match cmd {
        Option::Some(c) => c.targets@,
        Option::None => Seq::empty(),
    }
}

/// Apply a pending load command, if one was queued.
fn apply_load_command<L: LoadableEx>(cmd: Option<LoadCommand>, store: &mut Store<L>) -> (report:
    DispatchReport)
    requires
        old(store).wf(),
        no_dups(load_command_targets(cmd)),
    ensures
        final(store).wf(),
        no_dups(report.invoked@),
        no_dups(report.skipped@),
        no_dups(report.failed@),
        forall|x: u64|
            (report.invoked@.contains(x) || report.skipped@.contains(x)) <==> load_command_targets(
                cmd,
            ).contains(x),
        forall|x: u64| !(report.invoked@.contains(x) && report.skipped@.contains(x)),
        forall|x: u64| report.failed@.contains(x) ==> report.invoked@.contains(x),
        load_batch_applied(load_command_targets(cmd), *old(store), *final(store), report),
{
    match cmd {
        Some(c) => c.write(store),
        None => {
            let report = DispatchReport {
                invoked: Vec::new(),
                failed: Vec::new(),
                skipped: Vec::new(),
            };
            proof {
                let chain: Seq<Store<L>> = seq![*old(store)];
                assert(load_batch_chain(
                    load_command_targets(cmd),
                    *old(store),
                    *old(store),
                    report,
                    chain,
                ));
            }
            report
        },
    }
}

/// Apply a pending unload command, if one was queued.
fn apply_unload_command<L: LoadableEx>(cmd: Option<UnloadCommand>, store: &mut Store<L>) -> (report:
    DispatchReport)
    requires
        old(store).wf(),
        no_dups(unload_command_targets(cmd)),
    ensures
        final(store).wf(),
        no_dups(report.invoked@),
        no_dups(report.skipped@),
        forall|x: u64|
            (report.invoked@.contains(x) || report.skipped@.contains(x))
                <==> unload_command_targets(cmd).contains(x),
        forall|x: u64| !(report.invoked@.contains(x) && report.skipped@.contains(x)),
        report.failed@.len() == 0,
        unload_batch_applied(unload_command_targets(cmd), *old(store), *final(store), report),
{
    match cmd {
        Some(c) => c.write(store),
        None => {
            let report = DispatchReport {
                invoked: Vec::new(),
                failed: Vec::new(),
                skipped: Vec::new(),
            };
            proof {
                let chain: Seq<Store<L>> = seq![*old(store)];
                assert(unload_batch_chain(
                    unload_command_targets(cmd),
                    *old(store),
                    *old(store),
                    report,
                    chain,
                ));
            }
            report
        },
    }
}

/// The two phases of a deferred tick, end to end: the load batch —
/// exactly the tick's load-set — was applied to the starting store, the
/// unload batch — exactly the tick's unload-set — to the store the load
/// batch left, and the tick ended with the change feeds cleared.
pub open spec fn tick_ex_witness<L: LoadableEx>(
    s0: Store<L>,
    s1: Store<L>,
    load_report: DispatchReport,
    unload_report: DispatchReport,
    tl: Seq<u64>,
    tu: Seq<u64>,
    mid: Store<L>,
    end: Store<L>,
) -> bool {
    &&& no_dups(tl)
    &&& (forall|x: u64| tl.contains(x) <==> s0.in_load_set(x))
    &&& no_dups(tu)
    &&& (forall|x: u64| tu.contains(x) <==> s0.in_unload_set(x))
    &&& load_batch_applied(tl, s0, mid, load_report)
    &&& unload_batch_applied(tu, mid, end, unload_report)
    &&& s1.entities@ == end.entities@
    &&& s1.comps@ == end.comps@
    &&& s1.marked@ == end.marked@
    &&& s1.next_id == end.next_id
}

pub open spec fn tick_ex_trace<L: LoadableEx>(
    s0: Store<L>,
    s1: Store<L>,
    load_report: DispatchReport,
    unload_report: DispatchReport,
) -> bool {
    exists|tl: Seq<u64>, tu: Seq<u64>, mid: Store<L>, end: Store<L>| #[trigger] tick_ex_witness(
        s0,
        s1,
        load_report,
        unload_report,
        tl,
        tu,
        mid,
        end,
    )
}

/// One full tick of the deferred pipeline.  The collection phase runs
/// first and completes in full, under read access only: both pending
/// commands are gathered before any application begins.  Then the load
/// command and the unload command are applied in turn, under exclusive
/// access, and the tick ends by clearing the change feeds.  Returns the
/// load report and the unload report.
pub fn run_tick_ex<L: LoadableEx>(store: &mut Store<L>) -> (r: (DispatchReport, DispatchReport))
    requires
        old(store).wf(),
    ensures
        final(store).wf(),
        final(store).added_marker@.len() == 0,
        final(store).removed_marker@.len() == 0,
        final(store).added_comp@.len() == 0,
        no_dups(r.0.invoked@),
        no_dups(r.0.skipped@),
        no_dups(r.0.failed@),
        no_dups(r.1.invoked@),
        no_dups(r.1.skipped@),
        forall|x: u64|
            (r.0.invoked@.contains(x) || r.0.skipped@.contains(x)) <==> old(store).in_load_set(x),
        forall|x: u64| !(r.0.invoked@.contains(x) && r.0.skipped@.contains(x)),
        forall|x: u64| r.0.failed@.contains(x) ==> r.0.invoked@.contains(x),
        forall|x: u64|
            (r.1.invoked@.contains(x) || r.1.skipped@.contains(x)) <==> old(store).in_unload_set(
                x,
            ),
        forall|x: u64| !(r.1.invoked@.contains(x) && r.1.skipped@.contains(x)),
        r.1.failed@.len() == 0,
        tick_ex_trace(*old(store), *final(store), r.0, r.1),
{
    let ghost s0 = *old(store);
    let load_cmd = load_ex_data_system(store);
    let unload_cmd = unload_ex_data_system(store);
    let ghost tl = load_command_targets(load_cmd);
    let ghost tu = unload_command_targets(unload_cmd);
    proof {
        assert(forall|x: u64| tl.contains(x) <==> s0.in_load_set(x));
        assert(forall|x: u64| tu.contains(x) <==> s0.in_unload_set(x));
    }
    let lr = apply_load_command(load_cmd, store);
    let ghost mid = *store;
    let ur = apply_unload_command(unload_cmd, store);
    let ghost end = *store;
    store.clear_tick();
    proof {
        assert(load_batch_applied(tl, s0, mid, lr));
        assert(unload_batch_applied(tu, mid, end, ur));
        assert(tick_ex_witness(s0, *store, lr, ur, tl, tu, mid, end));
        assert(tick_ex_trace(s0, *store, lr, ur));
        assert forall|x: u64| (lr.invoked@.contains(x) || lr.skipped@.contains(x))
            <==> s0.in_load_set(x) by {
            assert((lr.invoked@.contains(x) || lr.skipped@.contains(x)) <==> tl.contains(x));
            assert(tl.contains(x) <==> s0.in_load_set(x));
        }
        assert forall|x: u64| (ur.invoked@.contains(x) || ur.skipped@.contains(x))
            <==> s0.in_unload_set(x) by {
            assert((ur.invoked@.contains(x) || ur.skipped@.contains(x)) <==> tu.contains(x));
            assert(tu.contains(x) <==> s0.in_unload_set(x));
        }
    }
    (lr, ur)
}

} // verus!

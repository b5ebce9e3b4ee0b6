//! The immediate dispatcher: in-place lifecycle for [`Loadable`] types.
//!
//! Each tick, [`load_data_system`] and [`unload_data_system`] detect the
//! transitions on the active marker and run the callbacks one entity at a
//! time, within the current phase, with no cross-entity ordering
//! guarantee.  A load failure is reported and the batch continues: one
//! entity's failure never blocks another's load.

use vstd::prelude::*;

use crate::detect::detect_load;
use crate::detect::detect_unload;
use crate::ids::no_dups;
use crate::loadable::DispatchReport;
use crate::loadable::LoadContext;
use crate::loadable::Loadable;
use crate::store::feeds_unchanged;
use crate::store::Store;

verus! {

/// Run `load_data` in place on every target entity that carries a
/// component, one after another, continuing past failures.
pub fn dispatch_load<L: Loadable>(
    store: &mut Store<L>,
    targets: &Vec<u64>,
    ctx: &mut LoadContext,
) -> (report: DispatchReport)
    requires
        old(store).wf(),
        no_dups(targets@),
    ensures
        final(store).wf(),
        final(store).entities@ == old(store).entities@,
        final(store).marked@ == old(store).marked@,
        final(store).next_id == old(store).next_id,
        feeds_unchanged(*old(store), *final(store)),
        forall|x: u64| final(store).has_comp(x) <==> old(store).has_comp(x),
        no_dups(report.invoked@),
        forall|x: u64|
            report.invoked@.contains(x) <==> (targets@.contains(x) && old(store).has_comp(x)),
        forall|x: u64|
            targets@.contains(x) && old(store).has_comp(x) ==> L::load_post(
                old(store).comp_of(x),
                final(store).comp_of(x),
            ),
        forall|x: u64|
            !targets@.contains(x) && old(store).has_comp(x) ==> final(store).comp_of(x) == old(
                store,
            ).comp_of(x),
        no_dups(report.failed@),
        forall|x: u64|
            report.failed@.contains(x) <==> (targets@.contains(x) && old(store).has_comp(x)
                && !L::load_ok(old(store).comp_of(x))),
        report.skipped@.len() == 0,
{
    let ghost pre = *old(store);
    let mut invoked: Vec<u64> = Vec::new();
    let mut failed: Vec<u64> = Vec::new();
    let mut k: usize = 0;
    while k < targets.len()
        invariant
            pre == *old(store),
            pre.wf(),
            no_dups(targets@),
            store.wf(),
            store.entities@ == pre.entities@,
            store.marked@ == pre.marked@,
            store.next_id == pre.next_id,
            feeds_unchanged(pre, *store),
            forall|x: u64| store.has_comp(x) <==> pre.has_comp(x),
            k <= targets@.len(),
            no_dups(invoked@),
            forall|x: u64|
                invoked@.contains(x) <==> (targets@.take(k as int).contains(x) && pre.has_comp(x)),
            forall|x: u64|
                targets@.take(k as int).contains(x) && pre.has_comp(x) ==> L::load_post(
                    pre.comp_of(x),
                    store.comp_of(x),
                ),
            forall|x: u64|
                !targets@.take(k as int).contains(x) && pre.has_comp(x) ==> store.comp_of(x)
                    == pre.comp_of(x),
            no_dups(failed@),
            forall|x: u64|
                failed@.contains(x) <==> (targets@.take(k as int).contains(x) && pre.has_comp(x)
                    && !L::load_ok(pre.comp_of(x))),
        decreases targets@.len() - k,
    {
        let e = targets[k];
        proof {
            if targets@.take(k as int).contains(e) {
                let j = choose|j: int| 0 <= j < k && targets@.take(k as int)[j] == e;
                assert(targets@[j] == targets@[k as int]);
            }
            assert(targets@.take(k as int + 1) =~= targets@.take(k as int).push(e));
            crate::ids::lemma_push_contains(targets@.take(k as int), e);
        }
        let ghost at_turn = *store;
        match store.take_comp(e) {
            Some(mut c) => {
                proof {
                    assert(at_turn.comp_of(e) == pre.comp_of(e));
                }
                let res = c.load_data(ctx);
                proof {
                    assert(at_turn.has_entity(e)) by {
                        let i = choose|i: int|
                            0 <= i < at_turn.comps@.len() && (#[trigger] at_turn.comps@[i]).0 == e;
                        assert(at_turn.entities@.contains(at_turn.comps@[i].0));
                    }
                }
                store.write_back(e, c);
                let ghost prev_invoked = invoked@;
                invoked.push(e);
                proof {
                    crate::ids::lemma_push_contains(prev_invoked, e);
                    crate::ids::lemma_push_no_dups(prev_invoked, e);
                }
                let ghost prev_failed = failed@;
                if res.is_err() {
                    failed.push(e);
                    proof {
                        crate::ids::lemma_push_contains(prev_failed, e);
                        crate::ids::lemma_push_no_dups(prev_failed, e);
                    }
                }
                proof {
                    assert forall|x: u64| invoked@.contains(x) <==> (targets@.take(
                        k as int + 1,
                    ).contains(x) && pre.has_comp(x)) by {
                        if x != e {
                            assert(invoked@.contains(x) <==> prev_invoked.contains(x));
                            assert(targets@.take(k as int + 1).contains(x) <==> targets@.take(
                                k as int,
                            ).contains(x));
                        }
                    }
                    assert forall|x: u64| failed@.contains(x) <==> (targets@.take(
                        k as int + 1,
                    ).contains(x) && pre.has_comp(x) && !L::load_ok(pre.comp_of(x))) by {
                        if x != e {
                            assert(failed@.contains(x) <==> prev_failed.contains(x));
                            assert(targets@.take(k as int + 1).contains(x) <==> targets@.take(
                                k as int,
                            ).contains(x));
                        } else {
                            assert(pre.has_comp(e));
                        }
                    }
                }
            },
            None => {
                proof {
                    assert(!pre.has_comp(e));
                    assert forall|x: u64| invoked@.contains(x) <==> (targets@.take(
                        k as int + 1,
                    ).contains(x) && pre.has_comp(x)) by {
                        if x != e {
                            assert(targets@.take(k as int + 1).contains(x) <==> targets@.take(
                                k as int,
                            ).contains(x));
                        }
                    }
                    assert forall|x: u64| failed@.contains(x) <==> (targets@.take(
                        k as int + 1,
                    ).contains(x) && pre.has_comp(x) && !L::load_ok(pre.comp_of(x))) by {
                        if x != e {
                            assert(targets@.take(k as int + 1).contains(x) <==> targets@.take(
                                k as int,
                            ).contains(x));
                        }
                    }
                }
            },
        }
        k += 1;
    }
    proof {
        assert(targets@.take(targets@.len() as int) =~= targets@);
    }
    DispatchReport { invoked, failed, skipped: Vec::new() }
}

/// Run `unload_data` in place on every target entity that carries a
/// component, one after another.  Unloading is infallible.
pub fn dispatch_unload<L: Loadable>(store: &mut Store<L>, targets: &Vec<u64>) -> (report:
    DispatchReport)
    requires
        old(store).wf(),
        no_dups(targets@),
    ensures
        final(store).wf(),
        final(store).entities@ == old(store).entities@,
        final(store).marked@ == old(store).marked@,
        final(store).next_id == old(store).next_id,
        feeds_unchanged(*old(store), *final(store)),
        forall|x: u64| final(store).has_comp(x) <==> old(store).has_comp(x),
        no_dups(report.invoked@),
        forall|x: u64|
            report.invoked@.contains(x) <==> (targets@.contains(x) && old(store).has_comp(x)),
        forall|x: u64|
            targets@.contains(x) && old(store).has_comp(x) ==> L::unload_post(
                old(store).comp_of(x),
                final(store).comp_of(x),
            ),
        forall|x: u64|
            !targets@.contains(x) && old(store).has_comp(x) ==> final(store).comp_of(x) == old(
                store,
            ).comp_of(x),
        report.failed@.len() == 0,
        report.skipped@.len() == 0,
{
    let ghost pre = *old(store);
    let mut invoked: Vec<u64> = Vec::new();
    let mut k: usize = 0;
    while k < targets.len()
        invariant
            pre == *old(store),
            pre.wf(),
            no_dups(targets@),
            store.wf(),
            store.entities@ == pre.entities@,
            store.marked@ == pre.marked@,
            store.next_id == pre.next_id,
            feeds_unchanged(pre, *store),
            forall|x: u64| store.has_comp(x) <==> pre.has_comp(x),
            k <= targets@.len(),
            no_dups(invoked@),
            forall|x: u64|
                invoked@.contains(x) <==> (targets@.take(k as int).contains(x) && pre.has_comp(x)),
            forall|x: u64|
                targets@.take(k as int).contains(x) && pre.has_comp(x) ==> L::unload_post(
                    pre.comp_of(x),
                    store.comp_of(x),
                ),
            forall|x: u64|
                !targets@.take(k as int).contains(x) && pre.has_comp(x) ==> store.comp_of(x)
                    == pre.comp_of(x),
        decreases targets@.len() - k,
    {
        let e = targets[k];
        proof {
            if targets@.take(k as int).contains(e) {
                let j = choose|j: int| 0 <= j < k && targets@.take(k as int)[j] == e;
                assert(targets@[j] == targets@[k as int]);
            }
            assert(targets@.take(k as int + 1) =~= targets@.take(k as int).push(e));
            crate::ids::lemma_push_contains(targets@.take(k as int), e);
        }
        let ghost at_turn = *store;
        match store.take_comp(e) {
            Some(mut c) => {
                proof {
                    assert(at_turn.comp_of(e) == pre.comp_of(e));
                }
                c.unload_data();
                proof {
                    assert(at_turn.has_entity(e)) by {
                        let i = choose|i: int|
                            0 <= i < at_turn.comps@.len() && (#[trigger] at_turn.comps@[i]).0 == e;
                        assert(at_turn.entities@.contains(at_turn.comps@[i].0));
                    }
                }
                store.write_back(e, c);
                let ghost prev_invoked = invoked@;
                invoked.push(e);
                proof {
                    crate::ids::lemma_push_contains(prev_invoked, e);
                    crate::ids::lemma_push_no_dups(prev_invoked, e);
                    assert forall|x: u64| invoked@.contains(x) <==> (targets@.take(
                        k as int + 1,
                    ).contains(x) && pre.has_comp(x)) by {
                        if x != e {
                            assert(invoked@.contains(x) <==> prev_invoked.contains(x));
                            assert(targets@.take(k as int + 1).contains(x) <==> targets@.take(
                                k as int,
                            ).contains(x));
                        }
                    }
                }
            },
            None => {
                proof {
                    assert(!pre.has_comp(e));
                    assert forall|x: u64| invoked@.contains(x) <==> (targets@.take(
                        k as int + 1,
                    ).contains(x) && pre.has_comp(x)) by {
                        if x != e {
                            assert(targets@.take(k as int + 1).contains(x) <==> targets@.take(
                                k as int,
                            ).contains(x));
                        }
                    }
                }
            },
        }
        k += 1;
    }
    proof {
        assert(targets@.take(targets@.len() as int) =~= targets@);
    }
    DispatchReport { invoked, failed: Vec::new(), skipped: Vec::new() }
}

/// Detect this tick's load transitions and run `load_data` in place on
/// each of them: every entity that carries both the marker and the
/// component, where either was newly added, has its callback invoked
/// exactly once by the end of the tick.
pub fn load_data_system<L: Loadable>(store: &mut Store<L>, ctx: &mut LoadContext) -> (report:
    DispatchReport)
    requires
        old(store).wf(),
    ensures
        final(store).wf(),
        final(store).entities@ == old(store).entities@,
        final(store).marked@ == old(store).marked@,
        final(store).next_id == old(store).next_id,
        feeds_unchanged(*old(store), *final(store)),
        forall|x: u64| final(store).has_comp(x) <==> old(store).has_comp(x),
        no_dups(report.invoked@),
        forall|x: u64| report.invoked@.contains(x) <==> old(store).in_load_set(x),
        forall|x: u64|
            old(store).in_load_set(x) ==> L::load_post(
                old(store).comp_of(x),
                final(store).comp_of(x),
            ),
        forall|x: u64|
            old(store).has_comp(x) && !old(store).in_load_set(x) ==> final(store).comp_of(x) == old(
                store,
            ).comp_of(x),
        no_dups(report.failed@),
        forall|x: u64|
            report.failed@.contains(x) <==> (old(store).in_load_set(x) && !L::load_ok(
                old(store).comp_of(x),
            )),
        report.skipped@.len() == 0,
{
    let ghost pre0 = *old(store);
    let carriers = store.carrier_list();
    let targets = detect_load(&store.added_marker, &store.added_comp, &store.marked, &carriers);
    proof {
        assert forall|x: u64| (targets@.contains(x) && old(store).has_comp(x)) <==> old(
            store,
        ).in_load_set(x) by {
            assert(carriers@.contains(x) <==> old(store).has_comp(x));
            assert(targets@.contains(x) <==> crate::detect::load_transition(
                x,
                old(store).added_marker@,
                old(store).added_comp@,
                old(store).marked@,
                carriers@,
            ));
        }
    }
    let report = dispatch_load(store, &targets, ctx);
    proof {
        assert(*old(store) == pre0);
        assert(forall|x: u64|
            report.invoked@.contains(x) <==> (targets@.contains(x) && pre0.has_comp(x)));
        assert(forall|x: u64| (targets@.contains(x) && pre0.has_comp(x)) <==> pre0.in_load_set(x));
    }
    report
}

/// Detect this tick's unload transitions and run `unload_data` in place
/// on each of them: every entity whose marker was removed this tick and
/// that still carries the component has its callback invoked exactly
/// once; an entity without the component gets no callback at all.
pub fn unload_data_system<L: Loadable>(store: &mut Store<L>) -> (report: DispatchReport)
    requires
        old(store).wf(),
    ensures
        final(store).wf(),
        final(store).entities@ == old(store).entities@,
        final(store).marked@ == old(store).marked@,
        final(store).next_id == old(store).next_id,
        feeds_unchanged(*old(store), *final(store)),
        forall|x: u64| final(store).has_comp(x) <==> old(store).has_comp(x),
        no_dups(report.invoked@),
        forall|x: u64| report.invoked@.contains(x) <==> old(store).in_unload_set(x),
        forall|x: u64|
            old(store).in_unload_set(x) ==> L::unload_post(
                old(store).comp_of(x),
                final(store).comp_of(x),
            ),
        forall|x: u64|
            old(store).has_comp(x) && !old(store).in_unload_set(x) ==> final(store).comp_of(x)
                == old(store).comp_of(x),
        report.failed@.len() == 0,
        report.skipped@.len() == 0,
{
    let ghost pre0 = *old(store);
    let carriers = store.carrier_list();
    let targets = detect_unload(&store.removed_marker, &carriers);
    proof {
        assert forall|x: u64| (targets@.contains(x) && old(store).has_comp(x)) <==> old(
            store,
        ).in_unload_set(x) by {
            assert(carriers@.contains(x) <==> old(store).has_comp(x));
            assert(targets@.contains(x) <==> crate::detect::unload_transition(
                x,
                old(store).removed_marker@,
                carriers@,
            ));
        }
    }
    let report = dispatch_unload(store, &targets);
    proof {
        assert(*old(store) == pre0);
        assert(forall|x: u64|
            report.invoked@.contains(x) <==> (targets@.contains(x) && pre0.has_comp(x)));
        assert(forall|x: u64|
            (targets@.contains(x) && pre0.has_comp(x)) <==> pre0.in_unload_set(x));
    }
    report
}

/// One full tick of the immediate pipeline: detect and dispatch the
/// loads, then the unloads, then end the tick by clearing the change
/// feeds.  Returns the load report and the unload report.
pub fn run_tick<L: Loadable>(store: &mut Store<L>, ctx: &mut LoadContext) -> (r: (
    DispatchReport,
    DispatchReport,
))
    requires
        old(store).wf(),
    ensures
        final(store).wf(),
        final(store).entities@ == old(store).entities@,
        final(store).marked@ == old(store).marked@,
        final(store).next_id == old(store).next_id,
        final(store).added_marker@.len() == 0,
        final(store).removed_marker@.len() == 0,
        final(store).added_comp@.len() == 0,
        forall|x: u64| final(store).has_comp(x) <==> old(store).has_comp(x),
        no_dups(r.0.invoked@),
        no_dups(r.1.invoked@),
        forall|x: u64| r.0.invoked@.contains(x) <==> old(store).in_load_set(x),
        forall|x: u64| r.1.invoked@.contains(x) <==> old(store).in_unload_set(x),
        forall|x: u64|
            r.0.failed@.contains(x) <==> (old(store).in_load_set(x) && !L::load_ok(
                old(store).comp_of(x),
            )),
        forall|x: u64|
            old(store).in_load_set(x) && !old(store).in_unload_set(x) ==> L::load_post(
                old(store).comp_of(x),
                final(store).comp_of(x),
            ),
        forall|x: u64|
            old(store).in_unload_set(x) && !old(store).in_load_set(x) ==> L::unload_post(
                old(store).comp_of(x),
                final(store).comp_of(x),
            ),
        forall|x: u64|
            old(store).in_load_set(x) && old(store).in_unload_set(x) ==> exists|m: L|
                L::load_post(old(store).comp_of(x), m) && L::unload_post(
                    m,
                    final(store).comp_of(x),
                ),
        forall|x: u64|
            old(store).has_comp(x) && !old(store).in_load_set(x) && !old(store).in_unload_set(x)
                ==> final(store).comp_of(x) == old(store).comp_of(x),
        r.0.skipped@.len() == 0,
        r.1.failed@.len() == 0,
        r.1.skipped@.len() == 0,
{
    let lr = load_data_system(store, ctx);
    let ghost mid = *store;
    let ur = unload_data_system(store);
    store.clear_tick();
    proof {
        assert forall|x: u64|
            old(store).in_load_set(x) && old(store).in_unload_set(x) implies exists|m: L|
            L::load_post(old(store).comp_of(x), m) && L::unload_post(
                m,
                final(store).comp_of(x),
            ) by {
            let m = mid.comp_of(x);
            assert(L::load_post(old(store).comp_of(x), m));
            assert(L::unload_post(m, final(store).comp_of(x)));
        }
    }
    (lr, ur)
}

} // verus!

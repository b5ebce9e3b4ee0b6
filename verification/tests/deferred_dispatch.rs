use component_lifecycle::components::Despawner;
use component_lifecycle::deferred::load_ex_data_system;
use component_lifecycle::deferred::run_tick_ex;
use component_lifecycle::deferred::unload_ex_data_system;
use component_lifecycle::registry::DispatchMode;
use component_lifecycle::registry::Registry;
use component_lifecycle::store::IsLoaded;
use component_lifecycle::store::Store;

#[test]
fn exclusive_load_collects_then_applies() {
    let mut store: Store<Despawner> = Store::new();
    let e = store.spawn();
    store.insert(e, Despawner { target: None, ready: false });
    store.insert_marker(e, IsLoaded);

    let cmd = load_ex_data_system(&store).expect("a load command should be pending");
    assert_eq!(cmd.targets, vec![e]);

    let report = cmd.write(&mut store);
    assert_eq!(report.invoked, vec![e]);
    assert_eq!(report.skipped.len(), 0);
    assert_eq!(report.failed.len(), 0);
    assert!(store.get(e).unwrap().ready);
    store.clear_tick();

    assert!(load_ex_data_system(&store).is_none());
}

#[test]
fn despawn_mid_batch_skips_victim_without_error() {
    let mut store: Store<Despawner> = Store::new();
    let a = store.spawn();
    let b = store.spawn();
    store.insert(a, Despawner { target: Some(b), ready: false });
    store.insert(b, Despawner { target: None, ready: false });
    store.insert_marker(a, IsLoaded);
    store.insert_marker(b, IsLoaded);

    let cmd = load_ex_data_system(&store).expect("a load command should be pending");
    assert_eq!(cmd.targets.len(), 2);
    assert!(cmd.targets.contains(&a));
    assert!(cmd.targets.contains(&b));

    let report = cmd.write(&mut store);
    assert_eq!(report.invoked, vec![a]);
    assert_eq!(report.skipped, vec![b]);
    assert_eq!(report.failed.len(), 0);
    assert!(store.get(a).unwrap().ready);
    assert!(!store.contains_entity(b));
    assert!(store.get(b).is_none());
}

#[test]
fn exclusive_unload_requires_component_presence() {
    let mut store: Store<Despawner> = Store::new();
    let loaded = store.spawn();
    let bare = store.spawn();
    store.insert(loaded, Despawner { target: None, ready: false });
    store.insert_marker(loaded, IsLoaded);
    store.insert_marker(bare, IsLoaded);

    if let Some(cmd) = load_ex_data_system(&store) {
        cmd.write(&mut store);
    }
    store.clear_tick();

    store.remove_marker(loaded);
    store.remove_marker(bare);

    let cmd = unload_ex_data_system(&store).expect("an unload command should be pending");
    assert_eq!(cmd.targets, vec![loaded]);

    let report = cmd.write(&mut store);
    assert_eq!(report.invoked, vec![loaded]);
    assert_eq!(report.skipped.len(), 0);
    assert!(!store.get(loaded).unwrap().ready);
}

#[test]
fn no_transitions_queue_no_command() {
    let mut store: Store<Despawner> = Store::new();
    let e = store.spawn();
    store.insert(e, Despawner { target: None, ready: false });

    assert!(load_ex_data_system(&store).is_none());
    assert!(unload_ex_data_system(&store).is_none());
}

#[test]
fn registering_twice_is_a_configuration_error() {
    let mut registry = Registry::new();
    assert!(registry.register_loadable(1).is_ok());
    assert!(registry.register_loadable_ex(2).is_ok());

    let dup = registry.register_loadable(1);
    assert!(dup.is_err());
    assert_eq!(dup.unwrap_err().type_id, 1);
    let dup = registry.register_loadable_ex(2);
    assert!(dup.is_err());

    assert_eq!(registry.mode_of(1), Some(DispatchMode::Immediate));
    assert_eq!(registry.mode_of(2), Some(DispatchMode::Exclusive));
    assert_eq!(registry.mode_of(3), None);
    assert!(registry.contains_type(1));
    assert!(!registry.contains_type(3));
}

#[test]
fn self_despawn_drops_write_back_silently() {
    let mut store: Store<Despawner> = Store::new();
    let a = store.spawn();
    store.insert(a, Despawner { target: Some(a), ready: false });
    store.insert_marker(a, IsLoaded);

    let cmd = load_ex_data_system(&store).expect("a load command should be pending");
    let report = cmd.write(&mut store);
    assert_eq!(report.invoked, vec![a]);
    assert_eq!(report.skipped.len(), 0);
    assert_eq!(report.failed.len(), 0);
    assert!(!store.contains_entity(a));
    assert!(store.get(a).is_none());
}

#[test]
fn exclusive_tick_driver_runs_both_phases() {
    let mut store: Store<Despawner> = Store::new();
    let e = store.spawn();
    store.insert(e, Despawner { target: None, ready: false });
    store.insert_marker(e, IsLoaded);

    let (load_report, unload_report) = run_tick_ex(&mut store);
    assert_eq!(load_report.invoked, vec![e]);
    assert_eq!(unload_report.invoked.len(), 0);
    assert!(store.get(e).unwrap().ready);

    store.remove_marker(e);
    let (load_report, unload_report) = run_tick_ex(&mut store);
    assert_eq!(load_report.invoked.len(), 0);
    assert_eq!(unload_report.invoked, vec![e]);
    assert!(!store.get(e).unwrap().ready);
}

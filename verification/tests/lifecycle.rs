use component_lifecycle::components::AssetRef;
use component_lifecycle::components::Foo;
use component_lifecycle::detect::detect_load;
use component_lifecycle::detect::detect_unload;
use component_lifecycle::immediate::load_data_system;
use component_lifecycle::immediate::run_tick;
use component_lifecycle::immediate::unload_data_system;
use component_lifecycle::loadable::LoadContext;
use component_lifecycle::store::IsLoaded;
use component_lifecycle::store::Store;

#[test]
fn test_loading() {
    let mut store: Store<Foo> = Store::new();
    let mut ctx = LoadContext::new();
    let foo_entity = store.spawn();
    store.insert(foo_entity, Foo::default());
    store.insert_marker(foo_entity, IsLoaded);

    run_tick(&mut store, &mut ctx);

    let foo = match store.get(foo_entity) {
        Some(foo) => foo,
        None => panic!("Unable to find Foo on entity!"),
    };
    assert!(foo.message == Some("Hello World!".to_string()));

    store.remove_marker(foo_entity);

    run_tick(&mut store, &mut ctx);

    let foo = match store.get(foo_entity) {
        Some(foo) => foo,
        None => panic!("Unable to find Foo on entity!"),
    };
    assert!(foo.message == None);
}

#[test]
fn late_attached_component_loads_immediately() {
    let mut store: Store<Foo> = Store::new();
    let mut ctx = LoadContext::new();
    let e = store.spawn();
    store.insert_marker(e, IsLoaded);

    let (load_report, unload_report) = run_tick(&mut store, &mut ctx);
    assert_eq!(load_report.invoked.len(), 0);
    assert_eq!(unload_report.invoked.len(), 0);

    store.insert(e, Foo::default());

    let (load_report, _) = run_tick(&mut store, &mut ctx);
    assert_eq!(load_report.invoked, vec![e]);
    assert!(store.get(e).unwrap().message == Some("Hello World!".to_string()));
}

#[test]
fn quiet_tick_invokes_nothing() {
    let mut store: Store<Foo> = Store::new();
    let mut ctx = LoadContext::new();
    let e = store.spawn();
    store.insert(e, Foo::default());
    store.insert_marker(e, IsLoaded);
    run_tick(&mut store, &mut ctx);

    let (load_report, unload_report) = run_tick(&mut store, &mut ctx);
    assert_eq!(load_report.invoked.len(), 0);
    assert_eq!(load_report.failed.len(), 0);
    assert_eq!(unload_report.invoked.len(), 0);
    assert!(store.get(e).unwrap().message == Some("Hello World!".to_string()));
}

#[test]
fn unmarking_without_component_invokes_nothing() {
    let mut store: Store<Foo> = Store::new();
    let mut ctx = LoadContext::new();
    let e = store.spawn();
    store.insert_marker(e, IsLoaded);
    run_tick(&mut store, &mut ctx);

    store.remove_marker(e);
    let (load_report, unload_report) = run_tick(&mut store, &mut ctx);
    assert_eq!(load_report.invoked.len(), 0);
    assert_eq!(unload_report.invoked.len(), 0);
}

#[test]
fn marked_unmarked_remarked_gives_load_unload_load() {
    let mut store: Store<Foo> = Store::new();
    let mut ctx = LoadContext::new();
    let e = store.spawn();
    store.insert(e, Foo::default());

    store.insert_marker(e, IsLoaded);
    let (load_report, unload_report) = run_tick(&mut store, &mut ctx);
    assert_eq!(load_report.invoked, vec![e]);
    assert_eq!(unload_report.invoked.len(), 0);
    assert!(store.get(e).unwrap().message == Some("Hello World!".to_string()));

    store.remove_marker(e);
    let (load_report, unload_report) = run_tick(&mut store, &mut ctx);
    assert_eq!(load_report.invoked.len(), 0);
    assert_eq!(unload_report.invoked, vec![e]);
    assert!(store.get(e).unwrap().message == None);

    store.insert_marker(e, IsLoaded);
    let (load_report, unload_report) = run_tick(&mut store, &mut ctx);
    assert_eq!(load_report.invoked, vec![e]);
    assert_eq!(unload_report.invoked.len(), 0);
    assert!(store.get(e).unwrap().message == Some("Hello World!".to_string()));
}

#[test]
fn load_failure_does_not_block_other_entities() {
    let mut store: Store<AssetRef> = Store::new();
    let mut ctx = LoadContext::new();
    let a = store.spawn();
    let b = store.spawn();
    store.insert(a, AssetRef { handle: None, ready: false });
    store.insert(b, AssetRef { handle: Some(7), ready: false });
    store.insert_marker(a, IsLoaded);
    store.insert_marker(b, IsLoaded);

    let (load_report, _) = run_tick(&mut store, &mut ctx);
    assert_eq!(load_report.invoked.len(), 2);
    assert!(load_report.invoked.contains(&a));
    assert!(load_report.invoked.contains(&b));
    assert_eq!(load_report.failed, vec![a]);
    assert!(!store.get(a).unwrap().ready);
    assert!(store.get(b).unwrap().ready);
    assert_eq!(ctx.pending, vec![7]);
}

#[test]
fn load_and_unload_systems_run_separately() {
    let mut store: Store<AssetRef> = Store::new();
    let mut ctx = LoadContext::new();
    let e = store.spawn();
    store.insert(e, AssetRef { handle: Some(3), ready: false });
    store.insert_marker(e, IsLoaded);

    let load_report = load_data_system(&mut store, &mut ctx);
    assert_eq!(load_report.invoked, vec![e]);
    assert!(store.get(e).unwrap().ready);

    let unload_report = unload_data_system(&mut store);
    assert_eq!(unload_report.invoked.len(), 0);
    store.clear_tick();

    store.remove_marker(e);
    let unload_report = unload_data_system(&mut store);
    assert_eq!(unload_report.invoked, vec![e]);
    assert!(!store.get(e).unwrap().ready);
}

#[test]
fn detector_computes_exact_sets() {
    let added_marker: Vec<u64> = vec![1, 2];
    let added_comp: Vec<u64> = vec![3];
    let marked: Vec<u64> = vec![1, 3, 4];
    let carriers: Vec<u64> = vec![1, 3, 4, 5];
    let load_set = detect_load(&added_marker, &added_comp, &marked, &carriers);
    assert_eq!(load_set, vec![1, 3]);

    let removed_marker: Vec<u64> = vec![4, 9];
    let unload_set = detect_unload(&removed_marker, &carriers);
    assert_eq!(unload_set, vec![4]);
}

#[test]
fn despawned_entity_is_not_dispatched() {
    let mut store: Store<Foo> = Store::new();
    let mut ctx = LoadContext::new();
    let e = store.spawn();
    store.insert(e, Foo::default());
    store.insert_marker(e, IsLoaded);
    store.despawn(e);

    let (load_report, unload_report) = run_tick(&mut store, &mut ctx);
    assert_eq!(load_report.invoked.len(), 0);
    assert_eq!(unload_report.invoked.len(), 0);
    assert!(!store.contains_entity(e));
}

#[test]
fn overwriting_a_component_does_not_retrigger_load() {
    let mut store: Store<Foo> = Store::new();
    let mut ctx = LoadContext::new();
    let e = store.spawn();
    store.insert(e, Foo::default());
    store.insert_marker(e, IsLoaded);
    run_tick(&mut store, &mut ctx);

    store.insert(e, Foo { message: None });
    let (load_report, _) = run_tick(&mut store, &mut ctx);
    assert_eq!(load_report.invoked.len(), 0);
    assert!(store.get(e).unwrap().message == None);
}

#[test]
fn dead_entity_rejects_attachments() {
    let mut store: Store<Foo> = Store::new();
    let e = store.spawn();
    store.despawn(e);
    assert!(!store.insert(e, Foo::default()));
    assert!(!store.insert_marker(e, IsLoaded));
    assert!(store.get(e).is_none());
    assert!(!store.contains_marker(e));
}

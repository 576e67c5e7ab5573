use datastore_core::namespace::BackupNamespace;
use datastore_core::prune::PruneOptions;
use datastore_core::records::{
    Counts, DataStoreConfig, DatastoreTuning, DatastoreWithNamespace, TypeCounts,
};

#[test]
fn new_config_sets_nothing_else() {
    let c = DataStoreConfig::new("store1".to_string(), "/srv/store1".to_string());
    assert_eq!(c.name, "store1");
    assert_eq!(c.path, "/srv/store1");
    assert_eq!(c.comment, None);
    assert_eq!(c.gc_schedule, None);
    assert_eq!(c.prune_schedule, None);
    assert_eq!(c.verify_new, None);
    assert_eq!(c.notify_user, None);
    assert_eq!(c.notify, None);
    assert_eq!(c.tuning, None);
    assert_eq!(c.maintenance_mode, None);
    assert_eq!(c.prune_options(), PruneOptions::default());
}

#[test]
fn config_holds_the_policy() {
    let mut c = DataStoreConfig::new("store1".to_string(), "/srv/store1".to_string());
    c.keep_last = Some(3);
    c.keep_yearly = Some(1);
    assert_eq!(
        c.prune_options(),
        PruneOptions { keep_last: Some(3), keep_yearly: Some(1), ..PruneOptions::default() }
    );
}

#[test]
fn store_with_namespace_text() {
    let root = DatastoreWithNamespace { store: "store1".to_string(), ns: BackupNamespace::root() };
    assert_eq!(root.to_string(), "store1");
    let sub = DatastoreWithNamespace {
        store: "store1".to_string(),
        ns: BackupNamespace::new("a/b").unwrap(),
    };
    assert_eq!(sub.to_string(), "store1/a/b");
}

#[test]
fn defaults() {
    assert_eq!(TypeCounts::default(), TypeCounts { groups: 0, snapshots: 0 });
    assert_eq!(Counts::default(), Counts { ct: None, host: None, vm: None, other: None });
    assert_eq!(DatastoreTuning::default().chunk_order, None);
}

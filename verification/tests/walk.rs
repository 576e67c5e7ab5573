use datastore_core::error::{GcError, NamespaceError};
use datastore_core::gc::{GarbageCollectionStatus, GcSlot};
use datastore_core::namespace::BackupNamespace;
use datastore_core::walk::NamespaceWalk;

fn ns(name: &str) -> BackupNamespace {
    BackupNamespace::new(name).unwrap()
}

fn names(list: &[&str]) -> Vec<String> {
    list.iter().map(|s| s.to_string()).collect()
}

/// The sub-namespaces of a small tree: a { b { d }, c }, e.
fn found_below(name: &str) -> Vec<String> {
    match name {
        "" => names(&["a", "e"]),
        "a" => names(&["b", "c"]),
        "a/b" => names(&["d"]),
        _ => Vec::new(),
    }
}

fn visit_all(start: &str, max_depth: usize) -> Vec<String> {
    let mut walk = NamespaceWalk::new(ns(start), max_depth);
    let mut seen = Vec::new();
    while let Some(current) = walk.next() {
        let name = current.name();
        walk.expand(&found_below(&name)).unwrap();
        seen.push(name);
    }
    seen
}

#[test]
fn walk_without_recursion_visits_the_start() {
    assert_eq!(visit_all("", 0), vec![""]);
    assert_eq!(visit_all("a", 0), vec!["a"]);
}

#[test]
fn walk_is_depth_first_in_the_order_found() {
    assert_eq!(visit_all("", 7), vec!["", "a", "a/b", "a/b/d", "a/c", "e"]);
    assert_eq!(visit_all("a", 7), vec!["a", "a/b", "a/b/d", "a/c"]);
}

#[test]
fn walk_stops_at_the_depth_asked_for() {
    assert_eq!(visit_all("", 1), vec!["", "a", "e"]);
    assert_eq!(visit_all("", 2), vec!["", "a", "a/b", "a/c", "e"]);
    assert_eq!(visit_all("a", 1), vec!["a", "a/b", "a/c"]);
}

#[test]
fn walk_refuses_an_invalid_name_and_stays() {
    let mut walk = NamespaceWalk::new(ns(""), 7);
    assert_eq!(walk.next(), Some(ns("")));
    assert_eq!(walk.expand(&names(&["a", "b c"])), Err(NamespaceError::InvalidComponent));
    assert_eq!(walk.expand(&names(&["a", "b"])), Ok(()));
    assert_eq!(walk.next(), Some(ns("a")));
    assert_eq!(walk.expand(&names(&[])), Ok(()));
    assert_eq!(walk.next(), Some(ns("b")));
    assert_eq!(walk.next(), None);
}

#[test]
fn walk_below_the_deepest_level_fails() {
    let mut walk = NamespaceWalk::new(ns("1/2/3/4/5/6/7"), 1);
    assert_eq!(walk.next(), Some(ns("1/2/3/4/5/6/7")));
    assert_eq!(walk.expand(&names(&["8"])), Err(NamespaceError::TooDeep));
}

#[test]
fn expand_without_a_namespace_does_nothing() {
    let mut walk = NamespaceWalk::new(ns(""), 7);
    assert_eq!(walk.expand(&names(&["a"])), Ok(()));
    assert_eq!(walk.next(), Some(ns("")));
    assert_eq!(walk.expand(&names(&["a"])), Ok(()));
    assert_eq!(walk.expand(&names(&["b"])), Ok(()));
    assert_eq!(walk.next(), Some(ns("a")));
    assert_eq!(walk.next(), None);
}

#[test]
fn only_one_run_at_a_time() {
    let mut slot = GcSlot::new();
    assert!(!slot.is_running());
    assert!(slot.last_status().is_none());
    let mark = slot.try_start(100).unwrap();
    assert!(slot.is_running());
    assert_eq!(slot.try_start(200).err(), Some(GcError::AlreadyRunning));
    assert!(slot.is_running());
    let status = mark.begin_sweep().finish();
    slot.finish(status);
    assert!(!slot.is_running());
    assert_eq!(slot.last_status().as_ref().map(|s| s.disk_chunks), Some(0));
    assert!(slot.try_start(300).is_ok());
    slot.abort();
    assert!(!slot.is_running());
    assert!(slot.last_status().is_some());
}

#[test]
fn finished_run_is_remembered() {
    let mut slot = GcSlot::new();
    let mut status = GarbageCollectionStatus::default();
    status.removed_chunks = 4;
    slot.finish(status);
    assert_eq!(slot.last_status().as_ref().map(|s| s.removed_chunks), Some(4));
}

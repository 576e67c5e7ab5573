use datastore_core::error::NamespaceError;
use datastore_core::namespace::BackupNamespace;

fn ns(name: &str) -> BackupNamespace {
    BackupNamespace::new(name).unwrap()
}

#[test]
fn root_is_empty() {
    let root = BackupNamespace::root();
    assert!(root.is_root());
    assert_eq!(root.depth(), 0);
    assert_eq!(root.name(), "");
    assert_eq!(root.path(), "");
    assert_eq!(root.name_len(), 0);
    assert_eq!(root.path_len(), 0);
}

#[test]
fn empty_name_is_root() {
    assert_eq!(ns(""), BackupNamespace::root());
}

#[test]
fn name_round_trip() {
    for name in ["a", "a/b", "a/b/c", "site-1/rack.2/host_3", "0/1/2/3/4/5/6"] {
        assert_eq!(ns(name).name(), name);
    }
}

#[test]
fn parse_gives_components() {
    let n = ns("a/bb/ccc");
    assert_eq!(n.depth(), 3);
    assert_eq!(n.components(), &vec!["a".to_string(), "bb".to_string(), "ccc".to_string()]);
    assert_eq!(n.name_len(), 8);
    assert_eq!(n.path(), "ns/a/ns/bb/ns/ccc");
    assert_eq!(n.path_len(), 17);
    assert_eq!(n.display_as_path().to_string(), "ns/a/ns/bb/ns/ccc");
}

#[test]
fn depth_limit() {
    assert_eq!(ns("a/b/c/d/e/f/g").depth(), 7);
    assert_eq!(BackupNamespace::new("a/b/c/d/e/f/g/h"), Err(NamespaceError::TooDeep));
}

#[test]
fn length_limit() {
    let part = "x".repeat(127);
    let at_limit = format!("{}/{}x", part, part);
    assert_eq!(at_limit.len(), 256);
    assert_eq!(ns(&at_limit).name_len(), 256);
    let single = "y".repeat(256);
    assert_eq!(ns(&single).name(), single);
    let over = format!("{}/{}xx", part, part);
    assert_eq!(BackupNamespace::new(&over), Err(NamespaceError::TooLong));
    let single_over = "y".repeat(257);
    assert_eq!(BackupNamespace::new(&single_over), Err(NamespaceError::TooLong));
}

#[test]
fn length_counts_bytes_before_shape() {
    let wide = "\u{e9}".repeat(200);
    assert_eq!(BackupNamespace::new(&wide), Err(NamespaceError::TooLong));
    assert_eq!(BackupNamespace::new("\u{e9}"), Err(NamespaceError::InvalidComponent));
}

#[test]
fn invalid_components() {
    for name in ["/", "a/", "/a", "a//b", ".a", "-a", "a b", "a/b!"] {
        assert_eq!(BackupNamespace::new(name), Err(NamespaceError::InvalidComponent), "{}", name);
    }
}

#[test]
fn first_offending_component_decides() {
    assert_eq!(BackupNamespace::new("a/b/c/d/e/f/g/!"), Err(NamespaceError::TooDeep));
    assert_eq!(BackupNamespace::new("a/!/c/d/e/f/g/h"), Err(NamespaceError::InvalidComponent));
}

#[test]
fn push_and_pop() {
    let mut n = BackupNamespace::root();
    assert_eq!(n.push("a".to_string()), Ok(()));
    assert_eq!(n.push("b".to_string()), Ok(()));
    assert_eq!(n, ns("a/b"));
    assert_eq!(n.name_len(), 3);
    assert_eq!(n.push("c/d".to_string()), Err(NamespaceError::ComponentContainsSlash));
    assert_eq!(n.push(String::new()), Err(NamespaceError::InvalidComponent));
    assert_eq!(n, ns("a/b"));
    assert_eq!(n.pop(), Some("b".to_string()));
    assert_eq!(n.name_len(), 1);
    assert_eq!(n.pop(), Some("a".to_string()));
    assert_eq!(n.name_len(), 0);
    assert_eq!(n.pop(), None);
    assert!(n.is_root());
}

#[test]
fn push_at_depth_limit_fails() {
    let mut n = ns("a/b/c/d/e/f/g");
    assert_eq!(n.push("h".to_string()), Err(NamespaceError::TooDeep));
    assert_eq!(n.depth(), 7);
}

#[test]
fn parent_of_namespace() {
    assert_eq!(ns("a/b/c").parent(), ns("a/b"));
    assert_eq!(ns("a").parent(), BackupNamespace::root());
    assert_eq!(BackupNamespace::root().parent(), BackupNamespace::root());
}

#[test]
fn from_parent() {
    let parent = ns("a/b");
    assert_eq!(BackupNamespace::from_parent_ns(&parent, "c".to_string()), Ok(ns("a/b/c")));
    assert_eq!(
        BackupNamespace::from_parent_ns(&parent, "c/d".to_string()),
        Err(NamespaceError::ComponentContainsSlash)
    );
}

#[test]
fn path_round_trip() {
    for name in ["", "a", "a/b", "a/b/c/d/e/f/g"] {
        let n = ns(name);
        assert_eq!(BackupNamespace::from_path(&n.path()), Ok(n));
    }
}

#[test]
fn path_parsing() {
    assert_eq!(BackupNamespace::from_path("ns/a/ns/b"), Ok(ns("a/b")));
    assert_eq!(BackupNamespace::from_path(""), Ok(BackupNamespace::root()));
    for path in ["a", "ns", "x/a", "ns/a/b", "ns/a/ns", "ns/a/", "/ns/a", "ns/a//ns/b", "nsx/a"] {
        assert_eq!(BackupNamespace::from_path(path), Err(NamespaceError::InvalidPath), "{}", path);
    }
    assert_eq!(BackupNamespace::from_path("ns/"), Err(NamespaceError::InvalidComponent));
    assert_eq!(BackupNamespace::from_path("ns/a/ns/"), Err(NamespaceError::InvalidComponent));
    assert_eq!(
        BackupNamespace::from_path("ns/a/ns/b/ns/c/ns/d/ns/e/ns/f/ns/g/ns/h"),
        Err(NamespaceError::TooDeep)
    );
}

#[test]
fn prefix_remap() {
    assert_eq!(ns("a/b/c").map_prefix(&ns("a"), &ns("x/y")), Ok(ns("x/y/b/c")));
    assert_eq!(ns("a/b/c").map_prefix(&ns(""), &ns("x")), Ok(ns("x/a/b/c")));
    assert_eq!(ns("a/b/c").map_prefix(&ns("a/b/c"), &ns("")), Ok(ns("")));
    assert_eq!(ns("a/b/c").map_prefix(&ns("a/b"), &ns("a/b")), Ok(ns("a/b/c")));
}

#[test]
fn prefix_remap_mismatch() {
    assert_eq!(ns("a/b/c").map_prefix(&ns("b"), &ns("x")), Err(NamespaceError::PrefixMismatch));
    assert_eq!(ns("a").map_prefix(&ns("a/b"), &ns("x")), Err(NamespaceError::PrefixMismatch));
    assert_eq!(ns("ab/c").map_prefix(&ns("a"), &ns("x")), Err(NamespaceError::PrefixMismatch));
}

#[test]
fn prefix_remap_limits() {
    assert_eq!(
        ns("a/b/c/d").map_prefix(&ns("a"), &ns("1/2/3/4/5")),
        Err(NamespaceError::TooDeep)
    );
    let long = "z".repeat(250);
    assert_eq!(ns("a/bbbbbb").map_prefix(&ns("a"), &ns(&long)), Err(NamespaceError::TooLong));
}

#[test]
fn clone_and_default() {
    let n = ns("a/b");
    assert_eq!(n.clone(), n);
    assert_eq!(BackupNamespace::default(), BackupNamespace::root());
    assert_ne!(ns("a/b"), ns("a/c"));
    assert_ne!(ns("a/b"), ns("a"));
}

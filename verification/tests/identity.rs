use datastore_core::backup_type::BackupType;
use datastore_core::error::PathError;
use datastore_core::filter::{search_selects, GroupFilter};
use datastore_core::group::BackupGroup;
use datastore_core::snapshot::{check_backup_time, BackupDir, BackupPart};
use std::cmp::Ordering;

fn group(ty: BackupType, id: &str) -> BackupGroup {
    BackupGroup::new(ty, id.to_string())
}

#[test]
fn backup_type_text() {
    assert_eq!(BackupType::Vm.as_str(), "vm");
    assert_eq!(BackupType::Ct.as_str(), "ct");
    assert_eq!(BackupType::Host.as_str(), "host");
    assert_eq!(BackupType::Host.to_string(), "host");
}

#[test]
fn backup_type_parse() {
    assert_eq!(BackupType::from_str("vm"), Ok(BackupType::Vm));
    assert_eq!(BackupType::from_str("ct"), Ok(BackupType::Ct));
    assert_eq!(BackupType::from_str("host"), Ok(BackupType::Host));
    for text in ["", "VM", "vm ", "hosts", "hos", "cv", "vt"] {
        assert_eq!(BackupType::from_str(text), Err(PathError::InvalidBackupType), "{}", text);
    }
}

#[test]
fn backup_type_order_is_not_declaration_order() {
    assert_eq!(BackupType::Ct.order(), 0);
    assert_eq!(BackupType::Host.order(), 1);
    assert_eq!(BackupType::Vm.order(), 2);
    assert!(BackupType::Ct < BackupType::Host);
    assert!(BackupType::Host < BackupType::Vm);
    assert!(BackupType::Ct < BackupType::Vm);
    assert_eq!(BackupType::Vm.cmp(&BackupType::Ct), Ordering::Greater);
    assert_eq!(BackupType::Host.cmp(&BackupType::Host), Ordering::Equal);
}

#[test]
fn backup_type_iter() {
    assert_eq!(BackupType::iter(), [BackupType::Vm, BackupType::Ct, BackupType::Host]);
}

#[test]
fn group_order_by_type_first() {
    let ct = group(BackupType::Ct, "5");
    let host = group(BackupType::Host, "alpha");
    let vm = group(BackupType::Vm, "5");
    assert!(ct < host);
    assert!(host < vm);
    assert!(ct < vm);
    assert_eq!(vm.cmp(&ct), Ordering::Greater);
}

#[test]
fn group_order_numeric_ids() {
    let five = group(BackupType::Vm, "5");
    let ten = group(BackupType::Vm, "10");
    assert!(five < ten);
    assert_eq!(five.cmp(&ten), Ordering::Less);
    assert_eq!(ten.cmp(&five), Ordering::Greater);
    assert_eq!(five.order_sign(&ten), -1);
    assert_eq!(five.cmp(&five), Ordering::Equal);
}

#[test]
fn group_order_numbers_before_names() {
    let number = group(BackupType::Host, "99999");
    let name = group(BackupType::Host, "alpha");
    assert_eq!(number.cmp(&name), Ordering::Less);
    assert_eq!(name.cmp(&number), Ordering::Greater);
}

#[test]
fn group_order_names_as_text() {
    let a = group(BackupType::Host, "alpha");
    let b = group(BackupType::Host, "beta");
    let ab = group(BackupType::Host, "alphabet");
    assert_eq!(a.cmp(&b), Ordering::Less);
    assert_eq!(b.cmp(&a), Ordering::Greater);
    assert_eq!(a.cmp(&ab), Ordering::Less);
    assert_eq!(a.cmp(&a), Ordering::Equal);
    assert_eq!(group(BackupType::Host, "Z").cmp(&a), Ordering::Less);
}

#[test]
fn group_order_number_forms() {
    let plain = group(BackupType::Vm, "7");
    let padded = group(BackupType::Vm, "007");
    assert_eq!(plain.cmp(&padded), Ordering::Equal);
    assert_ne!(plain, padded);
    let too_large = group(BackupType::Vm, "18446744073709551616");
    let largest = group(BackupType::Vm, "18446744073709551615");
    assert_eq!(largest.cmp(&too_large), Ordering::Less);
    assert_eq!(too_large.cmp(&largest), Ordering::Greater);
    assert_eq!(group(BackupType::Vm, "18446744073709551614").cmp(&largest), Ordering::Less);
}

#[test]
fn group_text_and_parse() {
    let g = group(BackupType::Vm, "100");
    assert_eq!(g.to_string(), "vm/100");
    assert_eq!(BackupGroup::from_str("vm/100"), Ok(g));
    assert_eq!(BackupGroup::from_str("host/elsa"), Ok(group(BackupType::Host, "elsa")));
    for text in ["", "vm", "vm/", "/100", "vm/100/", "xx/100", "vm/a b", "vm/.a", "vm/100/x"] {
        assert_eq!(BackupGroup::from_str(text), Err(PathError::InvalidGroupPath), "{}", text);
    }
}

#[test]
fn group_from_tuple() {
    let g: BackupGroup = (BackupType::Ct, "101".to_string()).into();
    assert_eq!(g, group(BackupType::Ct, "101"));
    assert_eq!(g.clone(), g);
}

#[test]
fn group_matches_type_and_group() {
    let g = group(BackupType::Vm, "100");
    assert!(g.matches(&GroupFilter::BackupType(BackupType::Vm)));
    assert!(!g.matches(&GroupFilter::BackupType(BackupType::Ct)));
    assert!(g.matches(&GroupFilter::Group("vm/100".to_string())));
    assert!(!g.matches(&GroupFilter::Group("vm/101".to_string())));
    assert!(!g.matches(&GroupFilter::Group("not a group".to_string())));
}

#[test]
fn group_matches_regex() {
    let g = group(BackupType::Vm, "100");
    assert!(g.matches(&GroupFilter::Regex("^vm/1".to_string())));
    assert!(g.matches(&GroupFilter::Regex("00$".to_string())));
    assert!(!g.matches(&GroupFilter::Regex("^ct/".to_string())));
    assert!(!g.matches(&GroupFilter::Regex("^vm/100/".to_string())));
    assert!(!g.matches(&GroupFilter::Regex("vm/(100".to_string())));
}

#[test]
fn search_outcomes() {
    assert!(search_selects(Some(true)));
    assert!(!search_selects(Some(false)));
    assert!(!search_selects(None));
}

#[test]
fn snapshot_parts() {
    let dir = BackupDir::new(group(BackupType::Host, "elsa"), 1592198313);
    assert_eq!(dir.ty(), BackupType::Host);
    assert_eq!(dir.id(), "elsa");
    assert_eq!(dir.path_with_time("2020-06-15T05:18:33Z"), "host/elsa/2020-06-15T05:18:33Z");
    let from_pair: BackupDir = (group(BackupType::Host, "elsa"), 1592198313).into();
    assert_eq!(from_pair, dir);
    let from_triple: BackupDir = (BackupType::Host, "elsa".to_string(), 1592198313).into();
    assert_eq!(from_triple, dir);
    assert_eq!(dir.clone(), dir);
    assert_ne!(dir, BackupDir::new(group(BackupType::Host, "elsa"), 1592198314));
}

#[test]
fn snapshot_path_parse() {
    assert_eq!(
        BackupDir::split_path("host/elsa/2020-06-15T05:18:33Z"),
        Ok((group(BackupType::Host, "elsa"), "2020-06-15T05:18:33Z".to_string()))
    );
    for text in [
        "",
        "host/elsa",
        "host/elsa/",
        "host/elsa/2020-06-15T05:18:33",
        "host/elsa/2020-06-15 05:18:33Z",
        "host/elsa/2020-06-15T05:18:33+",
        "host/elsa/2020-6-15T05:18:33Z",
        "host/elsa/2020-06-15T05:18:33Z/",
        "disk/elsa/2020-06-15T05:18:33Z",
        "host/el sa/2020-06-15T05:18:33Z",
    ] {
        assert_eq!(BackupDir::split_path(text), Err(PathError::InvalidSnapshotPath), "{}", text);
    }
}

#[test]
fn written_time_shape() {
    let chars = |s: &str| s.chars().collect::<Vec<char>>();
    assert!(check_backup_time(&chars("2020-06-15T05:18:33Z")));
    assert!(check_backup_time(&chars("0000-00-00T00:00:00Z")));
    assert!(!check_backup_time(&chars("2020-06-15T05:18:33z")));
    assert!(!check_backup_time(&chars("2020-06-15t05:18:33Z")));
    assert!(!check_backup_time(&chars("2020/06/15T05:18:33Z")));
    assert!(!check_backup_time(&chars("2020-06-15T05:18:3Z")));
    assert!(!check_backup_time(&chars("2020-06-15T05:18:334Z")));
}

#[test]
fn group_or_snapshot_parse() {
    assert_eq!(
        BackupPart::split_path("vm/100"),
        Ok((group(BackupType::Vm, "100"), None))
    );
    assert_eq!(
        BackupPart::split_path("vm/100/2020-06-15T05:18:33Z"),
        Ok((group(BackupType::Vm, "100"), Some("2020-06-15T05:18:33Z".to_string())))
    );
    for text in ["vm", "vm/100/", "vm/100/yesterday", "vm/100/2020-06-15T05:18:33Z/x"] {
        assert_eq!(BackupPart::split_path(text), Err(PathError::InvalidSnapshotPath), "{}", text);
    }
}

#[test]
fn part_from_parts() {
    match BackupPart::from_parts(group(BackupType::Vm, "100"), None) {
        BackupPart::Group(g) => assert_eq!(g, group(BackupType::Vm, "100")),
        BackupPart::Dir(_) => panic!("a group was expected"),
    }
    match BackupPart::from_parts(group(BackupType::Vm, "100"), Some(17)) {
        BackupPart::Dir(d) => assert_eq!(d, BackupDir::new(group(BackupType::Vm, "100"), 17)),
        BackupPart::Group(_) => panic!("a snapshot was expected"),
    }
}

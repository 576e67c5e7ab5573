use datastore_core::acl::{acl_viewer, check_acl_update, AclUpdateError, Authid};
use datastore_core::media_pool::{
    apply_pool_update, comment_from_trimmed, DeletableProperty, MediaPoolConfig,
    MediaPoolConfigUpdater,
};

fn user(name: &str) -> Authid {
    Authid { user: name.to_string(), tokenname: None }
}

fn token(name: &str, token: &str) -> Authid {
    Authid { user: name.to_string(), tokenname: Some(token.to_string()) }
}

#[test]
fn privileged_update() {
    let alice = user("alice@pbs");
    assert_eq!(check_acl_update(true, &alice, &Some(user("bob@pbs")), &None), Ok(()));
    assert_eq!(check_acl_update(true, &alice, &Some(token("bob@pbs", "t")), &None), Ok(()));
    assert_eq!(
        check_acl_update(true, &token("alice@pbs", "t"), &Some(user("bob@pbs")), &None),
        Ok(())
    );
    assert_eq!(
        check_acl_update(true, &alice, &None, &Some("ops".to_string())),
        Err(AclUpdateError::GroupsNotSupported)
    );
    assert_eq!(
        check_acl_update(true, &alice, &Some(user("bob@pbs")), &Some("ops".to_string())),
        Err(AclUpdateError::GroupsNotSupported)
    );
    assert_eq!(check_acl_update(true, &alice, &None, &None), Err(AclUpdateError::TargetMissing));
}

#[test]
fn unprivileged_update() {
    let alice = user("alice@pbs");
    assert_eq!(check_acl_update(false, &alice, &Some(token("alice@pbs", "ci")), &None), Ok(()));
    assert_eq!(
        check_acl_update(false, &alice, &Some(token("alice@pbs", "ci")), &Some("ops".to_string())),
        Err(AclUpdateError::GroupNeedsPrivilege)
    );
    assert_eq!(
        check_acl_update(false, &alice, &None, &Some("ops".to_string())),
        Err(AclUpdateError::GroupNeedsPrivilege)
    );
    assert_eq!(check_acl_update(false, &alice, &None, &None), Err(AclUpdateError::AuthIdNeeded));
    assert_eq!(
        check_acl_update(false, &token("alice@pbs", "ci"), &Some(token("alice@pbs", "ci")), &None),
        Err(AclUpdateError::TokenNeedsPrivilege)
    );
    assert_eq!(
        check_acl_update(false, &alice, &Some(user("alice@pbs")), &None),
        Err(AclUpdateError::OnlyForTokens)
    );
    assert_eq!(
        check_acl_update(false, &alice, &Some(token("bob@pbs", "ci")), &None),
        Err(AclUpdateError::OnlyForOwnTokens)
    );
}

#[test]
fn who_is_shown() {
    assert!(acl_viewer(true, user("alice@pbs")).is_none());
    assert_eq!(acl_viewer(false, user("alice@pbs")).map(|a| a.user), Some("alice@pbs".to_string()));
}

fn pool() -> MediaPoolConfig {
    MediaPoolConfig {
        name: "daily".to_string(),
        allocation: Some("continue".to_string()),
        retention: Some("keep".to_string()),
        template: Some("%c".to_string()),
        encrypt: Some("aa:bb".to_string()),
        comment: Some("old".to_string()),
    }
}

fn no_update() -> MediaPoolConfigUpdater {
    MediaPoolConfigUpdater {
        allocation: None,
        retention: None,
        template: None,
        encrypt: None,
        comment: None,
    }
}

#[test]
fn pool_without_change() {
    let mut p = pool();
    apply_pool_update(&mut p, no_update(), None);
    assert_eq!(p.name, "daily");
    assert_eq!(p.allocation.as_deref(), Some("continue"));
    assert_eq!(p.retention.as_deref(), Some("keep"));
    assert_eq!(p.template.as_deref(), Some("%c"));
    assert_eq!(p.encrypt.as_deref(), Some("aa:bb"));
    assert_eq!(p.comment.as_deref(), Some("old"));
    apply_pool_update(&mut p, no_update(), Some(vec![]));
    assert_eq!(p.comment.as_deref(), Some("old"));
}

#[test]
fn pool_delete_settings() {
    let mut p = pool();
    apply_pool_update(
        &mut p,
        no_update(),
        Some(vec![
            DeletableProperty::retention,
            DeletableProperty::comment,
            DeletableProperty::retention,
        ]),
    );
    assert_eq!(p.allocation.as_deref(), Some("continue"));
    assert_eq!(p.retention, None);
    assert_eq!(p.template.as_deref(), Some("%c"));
    assert_eq!(p.encrypt.as_deref(), Some("aa:bb"));
    assert_eq!(p.comment, None);
    let mut q = pool();
    apply_pool_update(
        &mut q,
        no_update(),
        Some(vec![
            DeletableProperty::allocation,
            DeletableProperty::template,
            DeletableProperty::encrypt,
        ]),
    );
    assert_eq!(q.allocation, None);
    assert_eq!(q.template, None);
    assert_eq!(q.encrypt, None);
    assert_eq!(q.retention.as_deref(), Some("keep"));
}

#[test]
fn pool_update_wins_over_delete() {
    let mut p = pool();
    let update = MediaPoolConfigUpdater {
        allocation: Some("always".to_string()),
        encrypt: Some("cc:dd".to_string()),
        ..no_update()
    };
    apply_pool_update(
        &mut p,
        update,
        Some(vec![DeletableProperty::allocation, DeletableProperty::template]),
    );
    assert_eq!(p.allocation.as_deref(), Some("always"));
    assert_eq!(p.template, None);
    assert_eq!(p.encrypt.as_deref(), Some("cc:dd"));
    assert_eq!(p.retention.as_deref(), Some("keep"));
}

#[test]
fn pool_comment_is_trimmed() {
    let mut p = pool();
    apply_pool_update(
        &mut p,
        MediaPoolConfigUpdater { comment: Some("  hello world \n".to_string()), ..no_update() },
        None,
    );
    assert_eq!(p.comment.as_deref(), Some("hello world"));
    apply_pool_update(
        &mut p,
        MediaPoolConfigUpdater { comment: Some(" \t ".to_string()), ..no_update() },
        None,
    );
    assert_eq!(p.comment, None);
}

#[test]
fn comment_from_text() {
    assert_eq!(comment_from_trimmed(""), None);
    assert_eq!(comment_from_trimmed("x").as_deref(), Some("x"));
}

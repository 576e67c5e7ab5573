use datastore_core::acl::{
    extract_acl_node_data, AclChild, AclListItem, AclTreeNode, Authid, GroupRoles, RoleEntry,
    UserRoles,
};

fn user(name: &str) -> Authid {
    Authid { user: name.to_string(), tokenname: None }
}

fn token(name: &str, token: &str) -> Authid {
    Authid { user: name.to_string(), tokenname: Some(token.to_string()) }
}

fn role(name: &str, propagate: bool) -> RoleEntry {
    RoleEntry { role: name.to_string(), propagate }
}

fn tree() -> AclTreeNode {
    AclTreeNode {
        users: vec![
            UserRoles { auth_id: user("root@pam"), roles: vec![role("Admin", true)] },
            UserRoles {
                auth_id: token("alice@pbs", "ci"),
                roles: vec![role("DatastoreBackup", false), role("DatastoreAudit", true)],
            },
        ],
        groups: vec![GroupRoles { group: "ops".to_string(), roles: vec![role("Audit", true)] }],
        children: vec![AclChild {
            name: "datastore".to_string(),
            node: AclTreeNode {
                users: vec![UserRoles {
                    auth_id: token("bob@pbs", "sync"),
                    roles: vec![role("DatastoreReader", true)],
                }],
                groups: vec![],
                children: vec![AclChild {
                    name: "store1".to_string(),
                    node: AclTreeNode {
                        users: vec![UserRoles {
                            auth_id: token("alice@pbs", "ci"),
                            roles: vec![role("DatastorePowerUser", true)],
                        }],
                        groups: vec![],
                        children: vec![],
                    },
                }],
            },
        }],
    }
}

fn rows(list: &[AclListItem]) -> Vec<(String, String, String, bool, String)> {
    list.iter()
        .map(|i| {
            (i.path.clone(), i.ugid_type.clone(), i.ugid.clone(), i.propagate, i.roleid.clone())
        })
        .collect()
}

fn row(
    path: &str,
    kind: &str,
    ugid: &str,
    propagate: bool,
    role: &str,
) -> (String, String, String, bool, String) {
    (path.to_string(), kind.to_string(), ugid.to_string(), propagate, role.to_string())
}

#[test]
fn authid_text() {
    assert_eq!(user("root@pam").to_string(), "root@pam");
    assert_eq!(token("alice@pbs", "ci").to_string(), "alice@pbs!ci");
    assert!(!user("root@pam").is_token());
    assert!(token("alice@pbs", "ci").is_token());
    assert_eq!(token("alice@pbs", "ci").user(), "alice@pbs");
}

#[test]
fn whole_tree() {
    let mut list = Vec::new();
    extract_acl_node_data(&tree(), "", &mut list, false, &None);
    assert_eq!(
        rows(&list),
        vec![
            row("/", "user", "root@pam", true, "Admin"),
            row("/", "user", "alice@pbs!ci", false, "DatastoreBackup"),
            row("/", "user", "alice@pbs!ci", true, "DatastoreAudit"),
            row("/", "group", "ops", true, "Audit"),
            row("/datastore", "user", "bob@pbs!sync", true, "DatastoreReader"),
            row("/datastore/store1", "user", "alice@pbs!ci", true, "DatastorePowerUser"),
        ]
    );
}

#[test]
fn exact_path_only() {
    let mut list = Vec::new();
    extract_acl_node_data(&tree(), "", &mut list, true, &None);
    assert_eq!(list.len(), 4);
    assert!(list.iter().all(|i| i.path == "/"));
}

#[test]
fn appends_to_what_is_there() {
    let mut list = Vec::new();
    extract_acl_node_data(&tree(), "", &mut list, true, &None);
    extract_acl_node_data(&tree().children[0].node, "/datastore", &mut list, true, &None);
    assert_eq!(list.len(), 5);
    assert_eq!(list[4].path, "/datastore");
}

#[test]
fn user_sees_own_tokens_only() {
    let mut list = Vec::new();
    extract_acl_node_data(&tree(), "", &mut list, false, &Some(user("alice@pbs")));
    assert_eq!(
        rows(&list),
        vec![
            row("/", "user", "alice@pbs!ci", false, "DatastoreBackup"),
            row("/", "user", "alice@pbs!ci", true, "DatastoreAudit"),
            row("/datastore/store1", "user", "alice@pbs!ci", true, "DatastorePowerUser"),
        ]
    );
}

#[test]
fn token_sees_nothing() {
    let mut list = Vec::new();
    extract_acl_node_data(&tree(), "", &mut list, false, &Some(token("alice@pbs", "ci")));
    assert!(list.is_empty());
}

//! Listing the entries of an access control tree.
//!
//! The tree has a node for each path component. A node holds the roles
//! that users, API tokens and groups have at its path, and the nodes of
//! the components below it.

use vstd::prelude::*;
use vstd::string::StringExecFns;

verus! {

/// Who acts: a user, or an API token of a user.
#[derive(Debug)]
pub struct Authid {
    /// The user, as `name@realm`.
    pub user: String,
    /// The name of the token, for an API token.
    pub tokenname: Option<String>,
}

/// A role granted at a node.
#[derive(Debug)]
pub struct RoleEntry {
    /// The name of the role.
    pub role: String,
    /// Whether the role also holds for the paths below.
    pub propagate: bool,
}

/// The roles of one user or token at a node.
#[derive(Debug)]
pub struct UserRoles {
    pub auth_id: Authid,
    pub roles: Vec<RoleEntry>,
}

/// The roles of one group at a node.
#[derive(Debug)]
pub struct GroupRoles {
    pub group: String,
    pub roles: Vec<RoleEntry>,
}

/// The node of a path component below another node.
#[derive(Debug)]
pub struct AclChild {
    /// The path component.
    pub name: String,
    /// Its node.
    pub node: AclTreeNode,
}

/// A node of the access control tree.
#[derive(Debug)]
pub struct AclTreeNode {
    pub users: Vec<UserRoles>,
    pub groups: Vec<GroupRoles>,
    pub children: Vec<AclChild>,
}

/// One entry of the access control list.
#[derive(Debug)]
pub struct AclListItem {
    /// The path that the entry holds for.
    pub path: String,
    /// The user, token or group.
    pub ugid: String,
    /// `user` for a user or token, `group` for a group.
    pub ugid_type: String,
    /// Whether the role also holds for the paths below.
    pub propagate: bool,
    /// The name of the role.
    pub roleid: String,
}

/// An entry of the list with its texts as characters.
pub struct AclItemView {
    pub path: Seq<char>,
    pub ugid: Seq<char>,
    pub ugid_type: Seq<char>,
    pub propagate: bool,
    pub roleid: Seq<char>,
}

impl View for AclListItem {
    type V = AclItemView;

    open spec fn view(&self) -> AclItemView {
        AclItemView {
            path: self.path@,
            ugid: self.ugid@,
            ugid_type: self.ugid_type@,
            propagate: self.propagate,
            roleid: self.roleid@,
        }
    }
}

/// The entries of a list, each with its texts as characters.
pub open spec fn item_views(list: Seq<AclListItem>) -> Seq<AclItemView> {
    list.map_values(|item: AclListItem| item@)
}

/// The text `user`.
pub open spec fn user_kind() -> Seq<char> {
    seq!['u', 's', 'e', 'r']
}

/// The text `group`.
pub open spec fn group_kind() -> Seq<char> {
    seq!['g', 'r', 'o', 'u', 'p']
}

/// The path as the list shows it: `/` for the root, whose path is empty.
pub open spec fn shown_path(path: Seq<char>) -> Seq<char> {
    if path.len() == 0 {
        seq!['/']
    } else {
        path
    }
}

impl Authid {
    /// Whether this is an API token.
    pub open spec fn token(&self) -> bool {
        self.tokenname is Some
    }

    /// The text of the id: the user, and for a token `!` and its name.
    pub open spec fn text(&self) -> Seq<char> {
        match self.tokenname {
            Some(name) => self.user@ + seq!['!'] + name@,
            None => self.user@,
        }
    }

    /// Whether this is an API token.
    pub fn is_token(&self) -> (b: bool)
        ensures
            b == self.token(),
    {
        self.tokenname.is_some()
    }

    /// The user, or the user that the token belongs to.
    pub fn user(&self) -> (r: &String)
        ensures
            r@ == self.user@,
    {
        &self.user
    }

    /// The text of the id.
    pub fn to_string(&self) -> (r: String)
        ensures
            r@ == self.text(),
    {
        let mut r = self.user.clone();
        match &self.tokenname {
            Some(name) => {
                proof {
                    reveal_strlit("!");
                    assert("!"@ =~= seq!['!']);
                }
                r.append("!");
                r.append(name.as_str());
            },
            None => {},
        }
        r
    }
}

/// Whether the entries of `auth_id` are shown to `viewer`: to everyone
/// where no viewer is given, else only the tokens of the viewer.
pub open spec fn shows_user(auth_id: Authid, viewer: Option<Authid>) -> bool {
    match viewer {
        Some(v) => auth_id.token() && auth_id.user@ == v.user@,
        None => true,
    }
}

/// The entries for the first `k` of the given roles.
pub open spec fn role_items(
    path: Seq<char>,
    ugid: Seq<char>,
    kind: Seq<char>,
    roles: Seq<RoleEntry>,
    k: int,
) -> Seq<AclItemView>
    decreases k,
{
    if k <= 0 {
        Seq::<AclItemView>::empty()
    } else {
        role_items(path, ugid, kind, roles, k - 1).push(
            AclItemView {
                path: shown_path(path),
                ugid: ugid,
                ugid_type: kind,
                propagate: roles[k - 1].propagate,
                roleid: roles[k - 1].role@,
            },
        )
    }
}

/// The entries of the first `k` users and tokens of a node.
pub open spec fn user_items(
    users: Seq<UserRoles>,
    path: Seq<char>,
    viewer: Option<Authid>,
    k: int,
) -> Seq<AclItemView>
    decreases k,
{
    if k <= 0 {
        Seq::<AclItemView>::empty()
    } else if shows_user(users[k - 1].auth_id, viewer) {
        user_items(users, path, viewer, k - 1) + role_items(
            path,
            users[k - 1].auth_id.text(),
            user_kind(),
            users[k - 1].roles@,
            users[k - 1].roles@.len() as int,
        )
    } else {
        user_items(users, path, viewer, k - 1)
    }
}

/// The entries of the first `k` groups of a node; a viewer is shown none.
pub open spec fn group_items(
    groups: Seq<GroupRoles>,
    path: Seq<char>,
    viewer: Option<Authid>,
    k: int,
) -> Seq<AclItemView>
    decreases k,
{
    if k <= 0 || viewer is Some {
        Seq::<AclItemView>::empty()
    } else {
        group_items(groups, path, viewer, k - 1) + role_items(
            path,
            groups[k - 1].group@,
            group_kind(),
            groups[k - 1].roles@,
            groups[k - 1].roles@.len() as int,
        )
    }
}

/// The entries of a node at `path`: those of its users and tokens, then
/// those of its groups, then, unless only the exact path is asked for,
/// those of the nodes below it. A viewer that is itself a token is shown
/// nothing.
pub open spec fn node_items(
    node: AclTreeNode,
    path: Seq<char>,
    exact: bool,
    viewer: Option<Authid>,
) -> Seq<AclItemView>
    decreases node, node.children@.len() + 1,
{
    if viewer is Some && viewer->0.token() {
        Seq::<AclItemView>::empty()
    } else {
        let own = user_items(node.users@, path, viewer, node.users@.len() as int) + group_items(
            node.groups@,
            path,
            viewer,
            node.groups@.len() as int,
        );
        if exact {
            own
        } else {
            own + child_items(node, path, exact, viewer, node.children@.len() as int)
        }
    }
}

/// The entries of the first `k` nodes below `node`.
pub open spec fn child_items(
    node: AclTreeNode,
    path: Seq<char>,
    exact: bool,
    viewer: Option<Authid>,
    k: int,
) -> Seq<AclItemView>
    decreases node, k,
{
    if k <= 0 || k > node.children@.len() {
        Seq::<AclItemView>::empty()
    } else {
        child_items(node, path, exact, viewer, k - 1) + node_items(
            node.children@[k - 1].node,
            path + seq!['/'] + node.children@[k - 1].name@,
            exact,
            viewer,
        )
    }
}

} // verus!

verus! {

/// Appends to `list` one entry for each of `roles`.
fn push_role_items(
    list: &mut Vec<AclListItem>,
    path: &str,
    ugid: &str,
    kind: &str,
    roles: &Vec<RoleEntry>,
)
    ensures
        item_views(final(list)@) == item_views(old(list)@) + role_items(
            path@,
            ugid@,
            kind@,
            roles@,
            roles@.len() as int,
        ),
{
    let mut i: usize = 0;
    proof {
        assert(item_views(list@) + Seq::<AclItemView>::empty() =~= item_views(list@));
    }
    while i < roles.len()
        invariant
            i <= roles@.len(),
            item_views(list@) == item_views(old(list)@) + role_items(
                path@,
                ugid@,
                kind@,
                roles@,
                i as int,
            ),
        decreases roles@.len() - i,
    {
        let shown = if path.is_empty() {
            proof {
                reveal_strlit("/");
                assert("/"@ =~= seq!['/']);
            }
            String::from_str("/")
        } else {
            String::from_str(path)
        };
        let item = AclListItem {
            path: shown,
            propagate: roles[i].propagate,
            ugid_type: String::from_str(kind),
            ugid: String::from_str(ugid),
            roleid: roles[i].role.clone(),
        };
        proof {
            let before = item_views(list@);
            assert(item_views(list@.push(item)) =~= before.push(item@));
            let done = role_items(path@, ugid@, kind@, roles@, i as int);
            let next = role_items(path@, ugid@, kind@, roles@, i as int + 1);
            assert((item_views(old(list)@) + done).push(item@) =~= item_views(old(list)@) + next);
        }
        list.push(item);
        i += 1;
    }
}

/// Appends to `list` the entries of `node`, which stands at `path`, and,
/// unless `exact`, of the nodes below it. With a `token_user`, only the
/// entries of that user's tokens are listed, and none if it is a token
/// itself.
pub fn extract_acl_node_data(
    node: &AclTreeNode,
    path: &str,
    list: &mut Vec<AclListItem>,
    exact: bool,
    token_user: &Option<Authid>,
)
    ensures
        item_views(final(list)@) == item_views(old(list)@) + node_items(
            *node,
            path@,
            exact,
            *token_user,
        ),
    decreases node,
{
    let ghost start = item_views(list@);
    proof {
        assert(start + Seq::<AclItemView>::empty() =~= start);
    }
    match token_user {
        Some(viewer) => {
            if viewer.is_token() {
                return ;
            }
        },
        None => {},
    }
    proof {
        reveal_strlit("user");
        reveal_strlit("group");
        reveal_strlit("/");
        assert("user"@ =~= user_kind());
        assert("group"@ =~= group_kind());
        assert("/"@ =~= seq!['/']);
    }
    let mut u: usize = 0;
    while u < node.users.len()
        invariant
            u <= node.users@.len(),
            "user"@ == user_kind(),
            item_views(list@) == start + user_items(node.users@, path@, *token_user, u as int),
        decreases node.users@.len() - u,
    {
        let entry = &node.users[u];
        let shown = match token_user {
            Some(viewer) => entry.auth_id.is_token() && *entry.auth_id.user() == *viewer.user(),
            None => true,
        };
        if shown {
            let ugid = entry.auth_id.to_string();
            let ghost before = item_views(list@);
            push_role_items(list, path, ugid.as_str(), "user", &entry.roles);
            proof {
                let mine = role_items(
                    path@,
                    entry.auth_id.text(),
                    user_kind(),
                    entry.roles@,
                    entry.roles@.len() as int,
                );
                assert((start + user_items(node.users@, path@, *token_user, u as int)) + mine
                    =~= start + (user_items(node.users@, path@, *token_user, u as int) + mine));
            }
        }
        u += 1;
    }
    let ghost after_users = item_views(list@);
    proof {
        assert(after_users + Seq::<AclItemView>::empty() =~= after_users);
    }
    let mut g: usize = 0;
    while g < node.groups.len()
        invariant
            g <= node.groups@.len(),
            "group"@ == group_kind(),
            item_views(list@) == after_users + group_items(
                node.groups@,
                path@,
                *token_user,
                g as int,
            ),
        decreases node.groups@.len() - g,
    {
        if token_user.is_none() {
            let entry = &node.groups[g];
            push_role_items(list, path, entry.group.as_str(), "group", &entry.roles);
            proof {
                let mine = role_items(
                    path@,
                    entry.group@,
                    group_kind(),
                    entry.roles@,
                    entry.roles@.len() as int,
                );
                assert((after_users + group_items(node.groups@, path@, *token_user, g as int))
                    + mine =~= after_users + (group_items(
                    node.groups@,
                    path@,
                    *token_user,
                    g as int,
                ) + mine));
            }
        }
        g += 1;
    }
    let ghost own = user_items(node.users@, path@, *token_user, node.users@.len() as int)
        + group_items(node.groups@, path@, *token_user, node.groups@.len() as int);
    proof {
        assert(item_views(list@) =~= start + own);
    }
    if exact {
        return ;
    }
    let mut c: usize = 0;
    proof {
        assert((start + own) + Seq::<AclItemView>::empty() =~= start + own);
    }
    while c < node.children.len()
        invariant
            c <= node.children@.len(),
            "/"@ == seq!['/'],
            item_views(list@) == (start + own) + child_items(
                *node,
                path@,
                exact,
                *token_user,
                c as int,
            ),
        decreases node.children@.len() - c,
    {
        let child = &node.children[c];
        let mut new_path = String::from_str(path);
        new_path.append("/");
        new_path.append(child.name.as_str());
        extract_acl_node_data(&child.node, new_path.as_str(), list, exact, token_user);
        proof {
            let below = node_items(child.node, path@ + seq!['/'] + child.name@, exact, *token_user);
            assert(((start + own) + child_items(*node, path@, exact, *token_user, c as int)) + below
                =~= (start + own) + (child_items(*node, path@, exact, *token_user, c as int)
                + below));
        }
        c += 1;
    }
    proof {
        assert((start + own) + child_items(
            *node,
            path@,
            exact,
            *token_user,
            node.children@.len() as int,
        ) =~= start + (own + child_items(
            *node,
            path@,
            exact,
            *token_user,
            node.children@.len() as int,
        )));
    }
}

} // verus!

verus! {

/// Why a change of the access control list is refused.
#[derive(Clone, Copy, Debug, PartialEq, Eq, Structural)]
pub enum AclUpdateError {
    /// Without the privilege to modify permissions no entry for a group
    /// may be set.
    GroupNeedsPrivilege,
    /// Without that privilege an API token may set no entry.
    TokenNeedsPrivilege,
    /// Without that privilege a user may set entries for API tokens only.
    OnlyForTokens,
    /// Without that privilege a user may set entries for own tokens only.
    OnlyForOwnTokens,
    /// Without that privilege the change must name whom it is for.
    AuthIdNeeded,
    /// Entries for groups are not supported.
    GroupsNotSupported,
    /// The change names neither a user or token nor a group.
    TargetMissing,
}

/// What the check of a change gives. Someone without the privilege to
/// modify permissions may change only the entries of the API tokens of
/// the own user, and not as a token. Whoever asks, the change must name
/// a user or token, and no group.
pub open spec fn acl_update_verdict(
    may_modify: bool,
    current: Authid,
    auth_id: Option<Authid>,
    group: Option<String>,
) -> Result<(), AclUpdateError> {
    if !may_modify && group is Some {
        Err(AclUpdateError::GroupNeedsPrivilege)
    } else if !may_modify && auth_id is None {
        Err(AclUpdateError::AuthIdNeeded)
    } else if !may_modify && current.token() {
        Err(AclUpdateError::TokenNeedsPrivilege)
    } else if !may_modify && !auth_id->0.token() {
        Err(AclUpdateError::OnlyForTokens)
    } else if !may_modify && auth_id->0.user@ != current.user@ {
        Err(AclUpdateError::OnlyForOwnTokens)
    } else if group is Some {
        Err(AclUpdateError::GroupsNotSupported)
    } else if auth_id is None {
        Err(AclUpdateError::TargetMissing)
    } else {
        Ok(())
    }
}

/// Checks whether `current` may change the entries of `auth_id` or
/// `group`; `may_modify` says whether `current` has the privilege to
/// modify permissions.
pub fn check_acl_update(
    may_modify: bool,
    current: &Authid,
    auth_id: &Option<Authid>,
    group: &Option<String>,
) -> (r: Result<(), AclUpdateError>)
    ensures
        r == acl_update_verdict(may_modify, *current, *auth_id, *group),
{
    if !may_modify {
        if group.is_some() {
            return Err(AclUpdateError::GroupNeedsPrivilege);
        }
        match auth_id {
            Some(target) => {
                if current.is_token() {
                    return Err(AclUpdateError::TokenNeedsPrivilege);
                } else if !target.is_token() {
                    return Err(AclUpdateError::OnlyForTokens);
                } else if *target.user() != *current.user() {
                    return Err(AclUpdateError::OnlyForOwnTokens);
                }
            },
            None => {
                return Err(AclUpdateError::AuthIdNeeded);
            },
        }
    }
    if group.is_some() {
        Err(AclUpdateError::GroupsNotSupported)
    } else if auth_id.is_none() {
        Err(AclUpdateError::TargetMissing)
    } else {
        Ok(())
    }
}

/// Whose entries a reader is shown: everyone's with the privilege to
/// audit, else only those of the reader's own tokens.
pub fn acl_viewer(may_audit: bool, reader: Authid) -> (r: Option<Authid>)
    ensures
        r == if may_audit {
            None::<Authid>
        } else {
            Some(reader)
        },
{
    if may_audit {
        None
    } else {
        Some(reader)
    }
}

} // verus!

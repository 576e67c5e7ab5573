//! Backup groups: the series of snapshots of one backup target.

use crate::backup_type::{sign_of, sign_of_ordering, BackupType};
use crate::error::PathError;
use crate::text::{
    chars_of, check_safe_id, compare_text, decimal_u64, is_safe_id, lex_order, parse_decimal_u64,
    split, split_ranges,
};
use std::cmp::Ordering;
use vstd::prelude::*;
use vstd::string::StrSliceExecFns;
use vstd::string::StringExecFns;

verus! {

/// A backup group: the type and the id of a backup target.
#[derive(Debug, Hash)]
pub struct BackupGroup {
    /// The type of the backups.
    pub ty: BackupType,
    /// The id of the target.
    pub id: String,
}

impl View for BackupGroup {
    type V = (BackupType, Seq<char>);

    /// The type, and the id as its characters.
    open spec fn view(&self) -> (BackupType, Seq<char>) {
        (self.ty, self.id@)
    }
}

/// The text of a group: `<type>/<id>`.
pub open spec fn group_text(g: (BackupType, Seq<char>)) -> Seq<char> {
    g.0.text() + seq!['/'] + g.1
}

/// The group that a text of the form `<type>/<id>` names: the type is one
/// of `vm`, `ct` and `host`, the id a safe identifier.
pub open spec fn parse_group(s: Seq<char>) -> Option<(BackupType, Seq<char>)> {
    let pieces = split(s, '/');
    if pieces.len() == 2 && BackupType::of_text(pieces[0]) is Some && is_safe_id(pieces[1]) {
        Some((BackupType::of_text(pieces[0])->0, pieces[1]))
    } else {
        None
    }
}

/// The order of two groups as a sign. The type decides first. Of two ids
/// that both read as unsigned 64-bit numbers the smaller number comes
/// first; an id that reads as a number comes before one that does not;
/// two ids that are no numbers are ordered as texts.
pub open spec fn group_order(a: (BackupType, Seq<char>), b: (BackupType, Seq<char>)) -> int {
    if a.0.rank() != b.0.rank() {
        sign_of(a.0.rank(), b.0.rank())
    } else {
        match (decimal_u64(a.1), decimal_u64(b.1)) {
            (Some(x), Some(y)) => sign_of(x as int, y as int),
            (Some(_), None) => -1,
            (None, Some(_)) => 1,
            (None, None) => lex_order(a.1, b.1),
        }
    }
}

/// The ordering that a sign stands for.
pub open spec fn ordering_of_sign(s: int) -> Ordering {
    if s < 0 {
        Ordering::Less
    } else if s == 0 {
        Ordering::Equal
    } else {
        Ordering::Greater
    }
}

impl BackupGroup {
    /// The group of type `ty` and id `id`.
    pub fn new(ty: BackupType, id: String) -> (r: Self)
        ensures
            r.ty == ty,
            r.id == id,
    {
        Self { ty, id }
    }

    /// The text of the group: `<type>/<id>`.
    pub fn to_string(&self) -> (r: String)
        ensures
            r@ == group_text(self@),
    {
        let mut r = self.ty.to_string();
        proof {
            reveal_strlit("/");
            assert("/"@ =~= seq!['/']);
        }
        r.append("/");
        r.append(self.id.as_str());
        r
    }

    /// Parses a text of the form `<type>/<id>`.
    pub fn from_str(path: &str) -> (r: Result<Self, PathError>)
        ensures
            match r {
                Ok(g) => parse_group(path@) == Some(g@),
                Err(e) => parse_group(path@) is None && e == PathError::InvalidGroupPath,
            },
    {
        let chars = chars_of(path);
        let ranges = split_ranges(&chars, '/');
        if ranges.len() != 2 {
            return Err(PathError::InvalidGroupPath);
        }
        let (t_from, t_to) = ranges[0];
        let (i_from, i_to) = ranges[1];
        let ty_text = chars_of(path.substring_char(t_from, t_to));
        let id_text = path.substring_char(i_from, i_to);
        let id_chars = chars_of(id_text);
        match BackupType::from_chars(&ty_text) {
            Ok(ty) => {
                if check_safe_id(&id_chars) {
                    Ok(Self { ty, id: String::from_str(id_text) })
                } else {
                    Err(PathError::InvalidGroupPath)
                }
            },
            Err(_) => Err(PathError::InvalidGroupPath),
        }
    }

    /// The order of this group and `other` as a sign: -1, 0 or 1.
    pub fn order_sign(&self, other: &Self) -> (r: i8)
        ensures
            r == group_order(self@, other@),
            -1 <= r <= 1,
    {
        let a = self.ty.order();
        let b = other.ty.order();
        if a < b {
            return -1;
        }
        if a > b {
            return 1;
        }
        let own = chars_of(self.id.as_str());
        let their = chars_of(other.id.as_str());
        match (parse_decimal_u64(&own), parse_decimal_u64(&their)) {
            (Some(x), Some(y)) => {
                if x < y {
                    -1
                } else if x == y {
                    0
                } else {
                    1
                }
            },
            (Some(_), None) => -1,
            (None, Some(_)) => 1,
            (None, None) => compare_text(&own, &their),
        }
    }

    /// The order of this group and `other`.
    pub fn cmp(&self, other: &Self) -> (r: Ordering)
        ensures
            sign_of_ordering(r) == group_order(self@, other@),
            r == ordering_of_sign(group_order(self@, other@)),
    {
        let s = self.order_sign(other);
        if s < 0 {
            Ordering::Less
        } else if s == 0 {
            Ordering::Equal
        } else {
            Ordering::Greater
        }
    }
}

impl Clone for BackupGroup {
    /// A group with the same type and id.
    fn clone(&self) -> (r: Self)
        ensures
            r == *self,
    {
        Self { ty: self.ty, id: self.id.clone() }
    }
}

impl PartialEq for BackupGroup {
    /// Whether type and id are the same.
    fn eq(&self, other: &Self) -> (r: bool) {
        self.ty == other.ty && self.id == other.id
    }
}

impl vstd::std_specs::cmp::PartialEqSpecImpl for BackupGroup {
    open spec fn obeys_eq_spec() -> bool {
        true
    }

    open spec fn eq_spec(&self, other: &Self) -> bool {
        self@ == other@
    }
}

impl Eq for BackupGroup {

}

impl PartialOrd for BackupGroup {
    /// The order of this group and `other`.
    fn partial_cmp(&self, other: &Self) -> (r: Option<Ordering>) {
        Some(self.cmp(other))
    }
}

impl vstd::std_specs::cmp::PartialOrdSpecImpl for BackupGroup {
    open spec fn obeys_partial_cmp_spec() -> bool {
        true
    }

    open spec fn partial_cmp_spec(&self, other: &Self) -> Option<Ordering> {
        Some(ordering_of_sign(group_order(self@, other@)))
    }
}

impl From<(BackupType, String)> for BackupGroup {
    /// The group of the given type and id.
    fn from(data: (BackupType, String)) -> (r: Self) {
        Self { ty: data.0, id: data.1 }
    }
}

impl vstd::std_specs::convert::FromSpecImpl<(BackupType, String)> for BackupGroup {
    open spec fn obeys_from_spec() -> bool {
        true
    }

    open spec fn from_spec(data: (BackupType, String)) -> Self {
        BackupGroup { ty: data.0, id: data.1 }
    }
}

} // verus!

verus! {

/// Equal ranks belong to equal types.
pub proof fn lemma_rank_decides(a: BackupType, b: BackupType)
    ensures
        a.rank() == b.rank() <==> a == b,
{
}

/// Every group is in no order with itself.
pub proof fn lemma_group_order_reflexive(a: (BackupType, Seq<char>))
    ensures
        group_order(a, a) == 0,
{
    crate::text::lemma_lex_order_equal(a.1, a.1, 0);
}

/// Swapping two groups flips their order: of two groups exactly one comes
/// first, or they are in no order.
pub proof fn lemma_group_order_flip(a: (BackupType, Seq<char>), b: (BackupType, Seq<char>))
    ensures
        group_order(a, b) == -group_order(b, a),
        -1 <= group_order(a, b) <= 1,
{
    crate::text::lemma_lex_order_flip(a.1, b.1, 0);
    crate::text::lemma_lex_order_equal(a.1, b.1, 0);
}

/// The order is transitive, and strict where one of the two steps is.
pub proof fn lemma_group_order_transitive(
    a: (BackupType, Seq<char>),
    b: (BackupType, Seq<char>),
    c: (BackupType, Seq<char>),
)
    requires
        group_order(a, b) <= 0,
        group_order(b, c) <= 0,
    ensures
        group_order(a, c) <= 0,
        group_order(a, b) < 0 || group_order(b, c) < 0 ==> group_order(a, c) < 0,
{
    if a.0.rank() == b.0.rank() && b.0.rank() == c.0.rank() {
        if decimal_u64(a.1) is None && decimal_u64(b.1) is None && decimal_u64(c.1) is None {
            crate::text::lemma_lex_order_transitive(a.1, b.1, c.1, 0);
        }
    }
}

/// Two groups are in no order exactly when they have the same type and
/// either the same id, or ids that read as the same number.
pub proof fn lemma_group_order_equal(a: (BackupType, Seq<char>), b: (BackupType, Seq<char>))
    ensures
        group_order(a, b) == 0 <==> a.0 == b.0 && (a.1 == b.1 || (decimal_u64(a.1) is Some
            && decimal_u64(a.1) == decimal_u64(b.1))),
{
    lemma_rank_decides(a.0, b.0);
    crate::text::lemma_lex_order_equal(a.1, b.1, 0);
    if group_order(a, b) == 0 && decimal_u64(a.1) is None && decimal_u64(b.1) is None {
        assert(a.1 =~= b.1);
    }
}

/// The text of a group with a safe id parses to that group, and a text
/// that parses is the text of its group.
pub proof fn lemma_group_round_trip(g: (BackupType, Seq<char>), s: Seq<char>)
    ensures
        is_safe_id(g.1) ==> parse_group(group_text(g)) == Some(g),
        parse_group(s) == Some(g) ==> group_text(g) == s,
{
    if is_safe_id(g.1) {
        let parts = seq![g.0.text(), g.1];
        crate::backup_type::lemma_backup_type_text(g.0);
        assert forall|i: int| 0 <= i < parts.len() implies is_safe_id(#[trigger] parts[i]) by {}
        crate::namespace::lemma_components_free_of_slash(parts);
        crate::text::lemma_join_pair(parts, '/');
        crate::text::lemma_split_join(parts, '/');
    }
    if parse_group(s) == Some(g) {
        let pieces = split(s, '/');
        crate::text::lemma_join_split(s, '/');
        crate::backup_type::lemma_backup_type_text(g.0);
        crate::text::lemma_join_pair(pieces, '/');
    }
}

} // verus!

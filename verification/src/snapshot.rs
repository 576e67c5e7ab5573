//! Snapshots: one backup of a group, taken at one time.
//!
//! The text of a snapshot is `<type>/<id>/<time>`, the time written as
//! `YYYY-MM-DDThh:mm:ssZ`. This module reads and writes the three parts
//! and holds the written time to that form. Which second a written time
//! stands for is not decided here: the caller hands in, and is handed,
//! the time as it is written.

use crate::backup_type::BackupType;
use crate::error::PathError;
use crate::group::{group_text, BackupGroup};
use crate::text::{chars_of, check_safe_id, is_digit, is_safe_id, split, split_ranges};
use vstd::prelude::*;
use vstd::string::StrSliceExecFns;
use vstd::string::StringExecFns;

verus! {

/// A snapshot: a group and the time of the backup in seconds since the epoch.
#[derive(Debug)]
pub struct BackupDir {
    /// The group that the snapshot belongs to.
    pub group: BackupGroup,
    /// The time of the backup, in seconds since the epoch.
    pub time: i64,
}

impl View for BackupDir {
    type V = ((BackupType, Seq<char>), i64);

    /// The group and the time.
    open spec fn view(&self) -> ((BackupType, Seq<char>), i64) {
        (self.group@, self.time)
    }
}

/// A group, or one snapshot of a group.
#[derive(Debug)]
pub enum BackupPart {
    /// A whole group.
    Group(BackupGroup),
    /// One snapshot.
    Dir(BackupDir),
}

/// The length of a written time.
pub const BACKUP_TIME_LENGTH: usize = 20;

/// What stands at position `i` of a written time is what the form
/// `YYYY-MM-DDThh:mm:ssZ` asks for there.
pub open spec fn time_char_fits(i: int, c: char) -> bool {
    if i == 4 || i == 7 {
        c == '-'
    } else if i == 10 {
        c == 'T'
    } else if i == 13 || i == 16 {
        c == ':'
    } else if i == 19 {
        c == 'Z'
    } else {
        is_digit(c)
    }
}

/// A written time: twenty characters of the form `YYYY-MM-DDThh:mm:ssZ`.
pub open spec fn is_backup_time(s: Seq<char>) -> bool {
    &&& s.len() == BACKUP_TIME_LENGTH
    &&& forall|i: int| 0 <= i < s.len() ==> time_char_fits(i, #[trigger] s[i])
}

/// The text of a snapshot with its time written as `time`.
pub open spec fn snapshot_text(g: (BackupType, Seq<char>), time: Seq<char>) -> Seq<char> {
    group_text(g) + seq!['/'] + time
}

/// The group and the written time that a text of the form
/// `<type>/<id>/<time>` names.
pub open spec fn parse_snapshot(s: Seq<char>) -> Option<((BackupType, Seq<char>), Seq<char>)> {
    let pieces = split(s, '/');
    if pieces.len() == 3 && BackupType::of_text(pieces[0]) is Some && is_safe_id(pieces[1])
        && is_backup_time(pieces[2]) {
        Some(((BackupType::of_text(pieces[0])->0, pieces[1]), pieces[2]))
    } else {
        None
    }
}

/// The group, and the written time if there is one, that a text of the
/// form `<type>/<id>` or `<type>/<id>/<time>` names.
pub open spec fn parse_part(s: Seq<char>) -> Option<((BackupType, Seq<char>), Option<Seq<char>>)> {
    let pieces = split(s, '/');
    if (pieces.len() == 2 || pieces.len() == 3) && BackupType::of_text(pieces[0]) is Some
        && is_safe_id(pieces[1]) && (pieces.len() == 3 ==> is_backup_time(pieces[2])) {
        Some(
            (
                (BackupType::of_text(pieces[0])->0, pieces[1]),
                if pieces.len() == 3 {
                    Some(pieces[2])
                } else {
                    None
                },
            ),
        )
    } else {
        None
    }
}

/// Whether `s` is a written time.
pub fn check_backup_time(s: &Vec<char>) -> (b: bool)
    ensures
        b == is_backup_time(s@),
{
    if s.len() != BACKUP_TIME_LENGTH {
        return false;
    }
    let mut i: usize = 0;
    while i < s.len()
        invariant
            i <= s.len(),
            s.len() == BACKUP_TIME_LENGTH,
            forall|j: int| 0 <= j < i ==> time_char_fits(j, #[trigger] s@[j]),
        decreases s.len() - i,
    {
        let c = s[i];
        let fits = if i == 4 || i == 7 {
            c == '-'
        } else if i == 10 {
            c == 'T'
        } else if i == 13 || i == 16 {
            c == ':'
        } else if i == 19 {
            c == 'Z'
        } else {
            c >= '0' && c <= '9'
        };
        if !fits {
            return false;
        }
        i += 1;
    }
    true
}

/// Reads `<type>/<id>` or `<type>/<id>/<time>`.
fn read_parts(path: &str) -> (r: Option<(BackupGroup, Option<String>)>)
    ensures
        match r {
            Some((g, time)) => parse_part(path@) == Some(
                (
                    g@,
                    match time {
                        Some(t) => Some(t@),
                        None => None,
                    },
                ),
            ),
            None => parse_part(path@) is None,
        },
{
    let chars = chars_of(path);
    let ranges = split_ranges(&chars, '/');
    if ranges.len() != 2 && ranges.len() != 3 {
        return None;
    }
    let (t_from, t_to) = ranges[0];
    let (i_from, i_to) = ranges[1];
    let ty_text = chars_of(path.substring_char(t_from, t_to));
    let id_text = path.substring_char(i_from, i_to);
    let id_chars = chars_of(id_text);
    let ty = match BackupType::from_chars(&ty_text) {
        Ok(ty) => ty,
        Err(_) => {
            return None;
        },
    };
    if !check_safe_id(&id_chars) {
        return None;
    }
    let group = BackupGroup::new(ty, String::from_str(id_text));
    if ranges.len() == 2 {
        return Some((group, None));
    }
    let (s_from, s_to) = ranges[2];
    let time_text = path.substring_char(s_from, s_to);
    let time_chars = chars_of(time_text);
    if !check_backup_time(&time_chars) {
        return None;
    }
    Some((group, Some(String::from_str(time_text))))
}

impl BackupDir {
    /// The snapshot of `group` taken at `time`.
    pub fn new(group: BackupGroup, time: i64) -> (r: Self)
        ensures
            r.group == group,
            r.time == time,
    {
        Self { group, time }
    }

    /// The type of the backup.
    pub fn ty(&self) -> (r: BackupType)
        ensures
            r == self.group.ty,
    {
        self.group.ty
    }

    /// The id of the backup target.
    pub fn id(&self) -> (r: &str)
        ensures
            r@ == self.group.id@,
    {
        self.group.id.as_str()
    }

    /// The text of the snapshot, `<type>/<id>/<time>`, with the time
    /// written as `time`.
    pub fn path_with_time(&self, time: &str) -> (r: String)
        ensures
            r@ == snapshot_text(self.group@, time@),
    {
        let mut r = self.group.to_string();
        proof {
            reveal_strlit("/");
            assert("/"@ =~= seq!['/']);
        }
        r.append("/");
        r.append(time);
        r
    }

    /// Reads a text of the form `<type>/<id>/<time>` and gives the group
    /// and the written time.
    pub fn split_path(path: &str) -> (r: Result<(BackupGroup, String), PathError>)
        ensures
            match r {
                Ok((g, time)) => parse_snapshot(path@) == Some((g@, time@)),
                Err(e) => parse_snapshot(path@) is None && e == PathError::InvalidSnapshotPath,
            },
    {
        match read_parts(path) {
            Some((group, Some(time))) => Ok((group, time)),
            _ => Err(PathError::InvalidSnapshotPath),
        }
    }
}

impl BackupPart {
    /// Reads a text of the form `<type>/<id>` or `<type>/<id>/<time>` and
    /// gives the group, and the written time if the text names a snapshot.
    pub fn split_path(path: &str) -> (r: Result<(BackupGroup, Option<String>), PathError>)
        ensures
            match r {
                Ok((g, time)) => parse_part(path@) == Some(
                    (
                        g@,
                        match time {
                            Some(t) => Some(t@),
                            None => None,
                        },
                    ),
                ),
                Err(e) => parse_part(path@) is None && e == PathError::InvalidSnapshotPath,
            },
    {
        match read_parts(path) {
            Some(parts) => Ok(parts),
            None => Err(PathError::InvalidSnapshotPath),
        }
    }

    /// The part that a group and, for a snapshot, the time of the backup
    /// stand for.
    pub fn from_parts(group: BackupGroup, time: Option<i64>) -> (r: Self)
        ensures
            r == match time {
                Some(t) => BackupPart::Dir(BackupDir { group, time: t }),
                None => BackupPart::Group(group),
            },
    {
        match time {
            Some(t) => BackupPart::Dir(BackupDir { group, time: t }),
            None => BackupPart::Group(group),
        }
    }
}

impl Clone for BackupDir {
    /// A snapshot with the same group and time.
    fn clone(&self) -> (r: Self)
        ensures
            r == *self,
    {
        Self { group: self.group.clone(), time: self.time }
    }
}

impl PartialEq for BackupDir {
    /// Whether group and time are the same.
    fn eq(&self, other: &Self) -> (r: bool) {
        self.group == other.group && self.time == other.time
    }
}

impl vstd::std_specs::cmp::PartialEqSpecImpl for BackupDir {
    open spec fn obeys_eq_spec() -> bool {
        true
    }

    open spec fn eq_spec(&self, other: &Self) -> bool {
        self@ == other@
    }
}

impl Eq for BackupDir {

}

impl From<(BackupGroup, i64)> for BackupDir {
    /// The snapshot of the given group and time.
    fn from(data: (BackupGroup, i64)) -> (r: Self) {
        Self { group: data.0, time: data.1 }
    }
}

impl vstd::std_specs::convert::FromSpecImpl<(BackupGroup, i64)> for BackupDir {
    open spec fn obeys_from_spec() -> bool {
        true
    }

    open spec fn from_spec(data: (BackupGroup, i64)) -> Self {
        BackupDir { group: data.0, time: data.1 }
    }
}

impl From<(BackupType, String, i64)> for BackupDir {
    /// The snapshot of the given type, id and time.
    fn from(data: (BackupType, String, i64)) -> (r: Self) {
        Self { group: BackupGroup { ty: data.0, id: data.1 }, time: data.2 }
    }
}

impl vstd::std_specs::convert::FromSpecImpl<(BackupType, String, i64)> for BackupDir {
    open spec fn obeys_from_spec() -> bool {
        true
    }

    open spec fn from_spec(data: (BackupType, String, i64)) -> Self {
        BackupDir { group: BackupGroup { ty: data.0, id: data.1 }, time: data.2 }
    }
}

/// The text of a snapshot with a safe id and a well-written time reads
/// back as its parts, and a text that reads is the text of its parts.
pub proof fn lemma_snapshot_round_trip(g: (BackupType, Seq<char>), time: Seq<char>, s: Seq<char>)
    ensures
        is_safe_id(g.1) && is_backup_time(time) ==> parse_snapshot(snapshot_text(g, time)) == Some(
            (g, time),
        ),
        parse_snapshot(s) == Some((g, time)) ==> snapshot_text(g, time) == s,
{
    if is_safe_id(g.1) && is_backup_time(time) {
        let parts = seq![g.0.text(), g.1, time];
        crate::backup_type::lemma_backup_type_text(g.0);
        assert(crate::text::free_of(parts, '/')) by {
            crate::text::lemma_safe_id_bytes(g.0.text());
            crate::text::lemma_safe_id_bytes(g.1);
            assert forall|k: int, i: int|
                0 <= k < parts.len() && 0 <= i < parts[k].len() implies (#[trigger] parts[k][i])
                != '/' by {
                if k == 2 {
                    assert(time_char_fits(i, time[i]));
                } else {
                    assert(parts[k].contains(parts[k][i]));
                }
            }
        }
        crate::text::lemma_join_triple(parts, '/');
        crate::text::lemma_split_join(parts, '/');
    }
    if parse_snapshot(s) == Some((g, time)) {
        let pieces = split(s, '/');
        crate::text::lemma_join_split(s, '/');
        crate::backup_type::lemma_backup_type_text(g.0);
        crate::text::lemma_join_triple(pieces, '/');
    }
}

} // verus!

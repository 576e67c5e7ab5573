//! Changing the settings of a media pool.

use vstd::prelude::*;
use vstd::string::StringExecFns;

verus! {

/// A setting of a media pool that can be deleted.
#[allow(non_camel_case_types)]
#[derive(Clone, Copy, Debug, PartialEq, Eq, Structural)]
pub enum DeletableProperty {
    /// The policy by which media sets are allocated.
    allocation,
    /// The policy by which media are retained.
    retention,
    /// The template for the names of media sets.
    template,
    /// The fingerprint of the encryption key.
    encrypt,
    /// The comment.
    comment,
}

/// The settings of a media pool.
#[derive(Debug)]
pub struct MediaPoolConfig {
    pub name: String,
    pub allocation: Option<String>,
    pub retention: Option<String>,
    pub template: Option<String>,
    pub encrypt: Option<String>,
    pub comment: Option<String>,
}

/// New values for the settings of a media pool; `None` leaves a setting as it is.
#[derive(Debug)]
pub struct MediaPoolConfigUpdater {
    pub allocation: Option<String>,
    pub retention: Option<String>,
    pub template: Option<String>,
    pub encrypt: Option<String>,
    pub comment: Option<String>,
}

/// The text without the white space at its beginning and its end.
pub uninterp spec fn trimmed_text(s: Seq<char>) -> Seq<char>;

/// Calls `str::trim`. The result is a function of the text alone: the
/// text without leading and trailing white space, as the standard
/// library defines white space. Nothing more is claimed of it.
#[verifier::external_body]
fn trim_text(s: &str) -> (r: &str)
    ensures
        r@ == trimmed_text(s@),
{
    s.trim()
}

/// An optional text as its characters.
pub open spec fn text_of(value: Option<String>) -> Option<Seq<char>> {
    match value {
        Some(s) => Some(s@),
        None => None,
    }
}

/// The comment that a trimmed text stands for: none for the empty text.
pub open spec fn comment_of(trimmed: Seq<char>) -> Option<Seq<char>> {
    if trimmed.len() == 0 {
        None
    } else {
        Some(trimmed)
    }
}

/// A setting after a change: the new value if one is given, else nothing
/// if the setting is deleted, else the value it had.
pub open spec fn changed(
    before: Option<String>,
    update: Option<String>,
    deleted: bool,
) -> Option<Seq<char>> {
    if update is Some {
        text_of(update)
    } else if deleted {
        None
    } else {
        text_of(before)
    }
}

/// Whether `property` is among those to delete.
pub open spec fn deletes(
    delete: Option<Vec<DeletableProperty>>,
    property: DeletableProperty,
) -> bool {
    match delete {
        Some(list) => list@.contains(property),
        None => false,
    }
}

/// The comment that a trimmed text stands for: none for the empty text.
pub fn comment_from_trimmed(trimmed: &str) -> (r: Option<String>)
    ensures
        text_of(r) == comment_of(trimmed@),
{
    if trimmed.is_empty() {
        None
    } else {
        Some(String::from_str(trimmed))
    }
}

/// Applies a change to the settings of a pool: first the settings in
/// `delete` are cleared, then the values given in `update` are set. A new
/// comment is trimmed, and an empty one clears the comment.
pub fn apply_pool_update(
    data: &mut MediaPoolConfig,
    update: MediaPoolConfigUpdater,
    delete: Option<Vec<DeletableProperty>>,
)
    ensures
        final(data).name == old(data).name,
        text_of(final(data).allocation) == changed(
            old(data).allocation,
            update.allocation,
            deletes(delete, DeletableProperty::allocation),
        ),
        text_of(final(data).retention) == changed(
            old(data).retention,
            update.retention,
            deletes(delete, DeletableProperty::retention),
        ),
        text_of(final(data).template) == changed(
            old(data).template,
            update.template,
            deletes(delete, DeletableProperty::template),
        ),
        text_of(final(data).encrypt) == changed(
            old(data).encrypt,
            update.encrypt,
            deletes(delete, DeletableProperty::encrypt),
        ),
        text_of(final(data).comment) == match update.comment {
            Some(text) => comment_of(trimmed_text(text@)),
            None => changed(
                old(data).comment,
                None,
                deletes(delete, DeletableProperty::comment),
            ),
        },
{
    match &delete {
        Some(list) => {
            let mut i: usize = 0;
            while i < list.len()
                invariant
                    i <= list@.len(),
                    data.name == old(data).name,
                    text_of(data.allocation) == changed(
                        old(data).allocation,
                        None,
                        list@.take(i as int).contains(DeletableProperty::allocation),
                    ),
                    text_of(data.retention) == changed(
                        old(data).retention,
                        None,
                        list@.take(i as int).contains(DeletableProperty::retention),
                    ),
                    text_of(data.template) == changed(
                        old(data).template,
                        None,
                        list@.take(i as int).contains(DeletableProperty::template),
                    ),
                    text_of(data.encrypt) == changed(
                        old(data).encrypt,
                        None,
                        list@.take(i as int).contains(DeletableProperty::encrypt),
                    ),
                    text_of(data.comment) == changed(
                        old(data).comment,
                        None,
                        list@.take(i as int).contains(DeletableProperty::comment),
                    ),
                decreases list@.len() - i,
            {
                proof {
                    let done = list@.take(i as int);
                    let next = list@.take(i as int + 1);
                    assert(next =~= done.push(list@[i as int]));
                    assert forall|p: DeletableProperty|
                        next.contains(p) == (done.contains(p) || p == list@[i as int]) by {
                        if done.contains(p) {
                            let j = choose|j: int| 0 <= j < done.len() && done[j] == p;
                            assert(next[j] == p);
                        }
                        if p == list@[i as int] {
                            assert(next[i as int] == p);
                        }
                    }
                }
                match list[i] {
                    DeletableProperty::allocation => {
                        data.allocation = None;
                    },
                    DeletableProperty::retention => {
                        data.retention = None;
                    },
                    DeletableProperty::template => {
                        data.template = None;
                    },
                    DeletableProperty::encrypt => {
                        data.encrypt = None;
                    },
                    DeletableProperty::comment => {
                        data.comment = None;
                    },
                }
                i += 1;
            }
            proof {
                assert(list@.take(list@.len() as int) =~= list@);
            }
        },
        None => {},
    }
    if update.allocation.is_some() {
        data.allocation = update.allocation;
    }
    if update.retention.is_some() {
        data.retention = update.retention;
    }
    if update.template.is_some() {
        data.template = update.template;
    }
    if update.encrypt.is_some() {
        data.encrypt = update.encrypt;
    }
    match update.comment {
        Some(text) => {
            data.comment = comment_from_trimmed(trim_text(text.as_str()));
        },
        None => {},
    }
}

} // verus!

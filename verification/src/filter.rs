//! Filters that select backup groups.

use crate::backup_type::BackupType;
use crate::group::{group_text, parse_group, BackupGroup};
use vstd::prelude::*;

verus! {

/// A condition on backup groups.
#[derive(Debug)]
pub enum GroupFilter {
    /// Groups of this type.
    BackupType(BackupType),
    /// The group with this text, `<type>/<id>`.
    Group(String),
    /// Groups whose text the regular expression with this pattern matches
    /// somewhere.
    Regex(String),
}

/// Whether the regular expression `pattern` matches somewhere in `text`;
/// `None` where `pattern` is not a regular expression that can be compiled.
pub uninterp spec fn regex_search(pattern: Seq<char>, text: Seq<char>) -> Option<bool>;

/// Compiles `pattern` with `regex::Regex::new` and searches `text` with
/// `Regex::is_match`. The outcome is a function of the two texts alone:
/// `None` where the pattern is refused, else whether a match exists
/// anywhere in `text`. Nothing more is claimed of it.
#[verifier::external_body]
fn regex_is_match(pattern: &str, text: &str) -> (r: Option<bool>)
    ensures
        r == regex_search(pattern@, text@),
{
    match regex::Regex::new(pattern) {
        Ok(re) => Some(re.is_match(text)),
        Err(_) => None,
    }
}

/// What the outcome of a search means for a filter: the group is selected
/// only by a pattern that compiled and matched.
pub fn search_selects(outcome: Option<bool>) -> (r: bool)
    ensures
        r == (outcome == Some(true)),
{
    match outcome {
        Some(found) => found,
        None => false,
    }
}

/// Whether the group `g` meets `filter`.
pub open spec fn filter_selects(g: (BackupType, Seq<char>), filter: GroupFilter) -> bool {
    match filter {
        GroupFilter::BackupType(ty) => g.0 == ty,
        GroupFilter::Group(text) => parse_group(text@) == Some(g),
        GroupFilter::Regex(pattern) => regex_search(pattern@, group_text(g)) == Some(true),
    }
}

impl BackupGroup {
    /// Whether this group meets `filter`.
    pub fn matches(&self, filter: &GroupFilter) -> (r: bool)
        ensures
            r == filter_selects(self@, *filter),
    {
        match filter {
            GroupFilter::Group(text) => {
                match BackupGroup::from_str(text.as_str()) {
                    Ok(group) => *self == group,
                    Err(_) => false,
                }
            },
            GroupFilter::BackupType(ty) => self.ty == *ty,
            GroupFilter::Regex(pattern) => {
                let text = self.to_string();
                search_selects(regex_is_match(pattern.as_str(), text.as_str()))
            },
        }
    }
}

} // verus!

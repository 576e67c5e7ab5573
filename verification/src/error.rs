//! The errors that the parsers and constructors of this crate return.

use vstd::prelude::*;

verus! {

/// Why a namespace could not be built or extended.
#[derive(Clone, Copy, Debug, PartialEq, Eq, Structural)]
pub enum NamespaceError {
    /// A single component held a `/`.
    ComponentContainsSlash,
    /// The namespace would be nested deeper than the limit.
    TooDeep,
    /// The name of the namespace would be longer than the limit.
    TooLong,
    /// A component is not a safe identifier.
    InvalidComponent,
    /// A path is not made of `ns/<component>` parts.
    InvalidPath,
    /// The namespace does not lie below the prefix that should be replaced.
    PrefixMismatch,
}

/// Why a backup type, group or snapshot path could not be parsed.
#[derive(Clone, Copy, Debug, PartialEq, Eq, Structural)]
pub enum PathError {
    /// The text is none of `vm`, `ct` and `host`.
    InvalidBackupType,
    /// The text is not of the form `<type>/<id>`.
    InvalidGroupPath,
    /// The text is not of the form `<type>/<id>/<time>`.
    InvalidSnapshotPath,
}

/// Why a garbage collection could not go on.
#[derive(Clone, Copy, Debug, PartialEq, Eq, Structural)]
pub enum GcError {
    /// A counter of the status would pass the largest value it can hold.
    CounterOverflow,
    /// A run on the same datastore has not ended yet.
    AlreadyRunning,
}

} // verus!

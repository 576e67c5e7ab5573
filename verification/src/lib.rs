//! Identity, hierarchy, garbage-collection and retention rules of a
//! deduplicating backup datastore.
//!
//! - [`namespace`]: the namespace tree that partitions a datastore.
//! - [`backup_type`], [`group`], [`snapshot`], [`filter`]: backup types,
//!   groups and snapshots, their texts and their order.
//! - [`digest`], [`gc`], [`walk`]: garbage collection of chunks, and the
//!   walk over the namespaces that it marks.
//! - [`prune`], [`calendar`]: the retention policy and the periods of the
//!   calendar it goes by.
//! - [`records`]: what a datastore reports about itself.
//! - [`acl`], [`media_pool`]: rules for listing and changing access
//!   control entries, and for changing the settings of a media pool.
//! - [`text`], [`error`]: helpers on texts, and the errors.
//!
//! Nothing here reads or writes files or looks at the clock: callers hand
//! in what they found and act on what they are told.

pub mod acl;
pub mod backup_type;
pub mod calendar;
pub mod digest;
pub mod error;
pub mod filter;
pub mod gc;
pub mod group;
pub mod media_pool;
pub mod namespace;
pub mod prune;
pub mod records;
pub mod snapshot;
pub mod text;
pub mod walk;

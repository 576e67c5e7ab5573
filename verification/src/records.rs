//! The records that a datastore reports about itself and its contents.

use crate::gc::GarbageCollectionStatus;
use crate::group::BackupGroup;
use crate::namespace::BackupNamespace;
use crate::snapshot::BackupDir;
use crate::text::join;
use vstd::prelude::*;
use vstd::string::StringExecFns;

verus! {

/// The order in which the chunks of an index are visited.
#[derive(Clone, Copy, Debug, PartialEq, Eq, Structural)]
pub enum ChunkOrder {
    /// The order of the index.
    Index,
    /// The order of the inodes on disk.
    Inode,
}

/// Tuning options of a datastore.
#[derive(Clone, Copy, Debug, PartialEq, Eq, Structural)]
pub struct DatastoreTuning {
    /// The order in which chunks are visited.
    pub chunk_order: Option<ChunkOrder>,
}

impl Default for DatastoreTuning {
    /// No option set.
    fn default() -> (r: Self)
        ensures
            r.chunk_order is None,
    {
        DatastoreTuning { chunk_order: None }
    }
}

/// The configuration of a datastore.
#[derive(Debug)]
pub struct DataStoreConfig {
    pub name: String,
    pub path: String,
    pub comment: Option<String>,
    pub gc_schedule: Option<String>,
    pub prune_schedule: Option<String>,
    pub keep_last: Option<u64>,
    pub keep_hourly: Option<u64>,
    pub keep_daily: Option<u64>,
    pub keep_weekly: Option<u64>,
    pub keep_monthly: Option<u64>,
    pub keep_yearly: Option<u64>,
    /// Whether every new backup is verified right after it is complete.
    pub verify_new: Option<bool>,
    /// The user who is told of the jobs of the datastore.
    pub notify_user: Option<String>,
    /// For which jobs a notification is sent.
    pub notify: Option<String>,
    /// The tuning options, as a property text.
    pub tuning: Option<String>,
    /// The maintenance mode, as a property text.
    pub maintenance_mode: Option<String>,
}

impl DataStoreConfig {
    /// The configuration of the datastore `name` at `path` with nothing
    /// else set.
    pub fn new(name: String, path: String) -> (r: Self)
        ensures
            r.name == name,
            r.path == path,
            r.comment is None,
            r.gc_schedule is None,
            r.prune_schedule is None,
            r.keep_last is None,
            r.keep_hourly is None,
            r.keep_daily is None,
            r.keep_weekly is None,
            r.keep_monthly is None,
            r.keep_yearly is None,
            r.verify_new is None,
            r.notify_user is None,
            r.notify is None,
            r.tuning is None,
            r.maintenance_mode is None,
    {
        Self {
            name,
            path,
            comment: None,
            gc_schedule: None,
            prune_schedule: None,
            keep_last: None,
            keep_hourly: None,
            keep_daily: None,
            keep_weekly: None,
            keep_monthly: None,
            keep_yearly: None,
            verify_new: None,
            notify_user: None,
            notify: None,
            tuning: None,
            maintenance_mode: None,
        }
    }

    /// The retention policy that the configuration holds.
    pub fn prune_options(&self) -> (r: crate::prune::PruneOptions)
        ensures
            r == (crate::prune::PruneOptions {
                keep_last: self.keep_last,
                keep_hourly: self.keep_hourly,
                keep_daily: self.keep_daily,
                keep_weekly: self.keep_weekly,
                keep_monthly: self.keep_monthly,
                keep_yearly: self.keep_yearly,
            }),
    {
        crate::prune::PruneOptions {
            keep_last: self.keep_last,
            keep_hourly: self.keep_hourly,
            keep_daily: self.keep_daily,
            keep_weekly: self.keep_weekly,
            keep_monthly: self.keep_monthly,
            keep_yearly: self.keep_yearly,
        }
    }
}

/// A datastore in a list of datastores.
#[derive(Debug)]
pub struct DataStoreListItem {
    pub store: String,
    pub comment: Option<String>,
    /// The maintenance mode of the datastore, if it is in one.
    pub maintenance: Option<String>,
}

/// How the content of an archive is protected.
#[derive(Clone, Copy, Debug, PartialEq, Eq, Structural)]
pub enum CryptMode {
    /// Neither encrypted nor signed.
    Plain,
    /// Encrypted.
    Encrypt,
    /// Signed only.
    SignOnly,
}

/// An archive file of a snapshot.
#[derive(Debug)]
pub struct BackupContent {
    pub filename: String,
    /// Whether the file is encrypted, signed, or neither.
    pub crypt_mode: Option<CryptMode>,
    /// The size of the archive.
    pub size: Option<u64>,
}

/// The result of a verification.
#[derive(Clone, Copy, Debug, PartialEq, Eq, Structural)]
pub enum VerifyState {
    /// The verification found no error.
    Passed,
    /// The verification found errors.
    Failed,
}

/// The last verification of a snapshot.
#[derive(Debug)]
pub struct SnapshotVerifyState {
    /// The id of the task that verified.
    pub upid: String,
    /// What it found.
    pub state: VerifyState,
}

/// A datastore and a namespace in it.
#[derive(Debug)]
pub struct DatastoreWithNamespace {
    pub store: String,
    pub ns: BackupNamespace,
}

/// The text of a datastore and a namespace in it: the name of the store
/// alone for the root, else the store, a slash and the name of the namespace.
pub open spec fn store_text(store: Seq<char>, ns: Seq<Seq<char>>) -> Seq<char> {
    if ns.len() == 0 {
        store
    } else {
        store + seq!['/'] + join(ns, '/')
    }
}

impl DatastoreWithNamespace {
    /// The text of the store and its namespace.
    pub fn to_string(&self) -> (r: String)
        ensures
            r@ == store_text(self.store@, self.ns@),
    {
        let mut r = self.store.clone();
        if !self.ns.is_root() {
            proof {
                reveal_strlit("/");
                assert("/"@ =~= seq!['/']);
            }
            r.append("/");
            r.append(self.ns.name().as_str());
        }
        r
    }
}

/// A snapshot in a list of snapshots.
#[derive(Debug)]
pub struct SnapshotListItem {
    pub backup: BackupDir,
    /// The first line of the notes.
    pub comment: Option<String>,
    /// The result of the last verification.
    pub verification: Option<SnapshotVerifyState>,
    /// The fingerprint of the encryption key.
    pub fingerprint: Option<String>,
    /// The archive files of the snapshot.
    pub files: Vec<BackupContent>,
    /// The sum of the sizes of the archives.
    pub size: Option<u64>,
    /// The owner of the group.
    pub owner: Option<String>,
    /// Whether the snapshot is protected from removal.
    pub protected: bool,
}

/// A group in a list of groups.
#[derive(Debug)]
pub struct GroupListItem {
    pub backup: BackupGroup,
    /// The time of the newest snapshot.
    pub last_backup: i64,
    /// The number of snapshots.
    pub backup_count: u64,
    /// The archive files of the newest snapshot.
    pub files: Vec<String>,
    /// The owner of the group.
    pub owner: Option<String>,
    /// The first line of the notes.
    pub comment: Option<String>,
}

/// A namespace in a list of namespaces.
#[derive(Debug)]
pub struct NamespaceListItem {
    pub ns: BackupNamespace,
    /// The first line of the notes.
    pub comment: Option<String>,
}

/// The numbers of groups and snapshots of one backup type.
#[derive(Clone, Copy, Debug, PartialEq, Eq, Structural)]
pub struct TypeCounts {
    /// The number of groups.
    pub groups: u64,
    /// The number of snapshots.
    pub snapshots: u64,
}

impl Default for TypeCounts {
    /// No group and no snapshot.
    fn default() -> (r: Self)
        ensures
            r.groups == 0,
            r.snapshots == 0,
    {
        TypeCounts { groups: 0, snapshots: 0 }
    }
}

/// The numbers of groups and snapshots by backup type.
#[derive(Clone, Copy, Debug, PartialEq, Eq, Structural)]
pub struct Counts {
    pub ct: Option<TypeCounts>,
    pub host: Option<TypeCounts>,
    pub vm: Option<TypeCounts>,
    pub other: Option<TypeCounts>,
}

impl Default for Counts {
    /// No type counted.
    fn default() -> (r: Self)
        ensures
            r.ct is None,
            r.host is None,
            r.vm is None,
            r.other is None,
    {
        Counts { ct: None, host: None, vm: None, other: None }
    }
}

/// The state of a datastore.
#[derive(Debug)]
pub struct DataStoreStatus {
    /// Total space, in bytes.
    pub total: u64,
    /// Used space, in bytes.
    pub used: u64,
    /// Available space, in bytes.
    pub avail: u64,
    /// The status of the last garbage collection.
    pub gc_status: Option<GarbageCollectionStatus>,
    /// The numbers of groups and snapshots.
    pub counts: Option<Counts>,
}

} // verus!

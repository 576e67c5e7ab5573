//! Garbage collection: which chunks a run keeps, holds back and removes,
//! and what it reports.
//!
//! A run has two phases. The mark phase takes the index files of the
//! snapshots and collects the digests they refer to. The sweep phase is
//! handed every chunk of the store and decides its fate: a chunk that an
//! index refers to is kept; a chunk that none refers to is removed, unless
//! it was used at or after the start of the run, when it is held back as
//! pending. Reading and deleting is the caller's part.
//!
//! An index file that cannot be read says nothing about the chunks it
//! refers to. So that none of them is lost, a run that met such a file
//! removes nothing: every chunk without a reference is held back.

use crate::digest::{Digest, DigestSet};
use crate::error::GcError;
use vstd::prelude::*;

verus! {

/// The report of one run of the garbage collection.
#[derive(Debug)]
pub struct GarbageCollectionStatus {
    /// The id of the task that ran the collection, if known.
    pub upid: Option<String>,
    /// Number of index files that were read.
    pub index_file_count: usize,
    /// Sum of the bytes that the index files refer to.
    pub index_data_bytes: u64,
    /// Bytes of the chunks found in the store.
    pub disk_bytes: u64,
    /// Number of chunks found in the store.
    pub disk_chunks: usize,
    /// Bytes of the chunks that were removed.
    pub removed_bytes: u64,
    /// Number of chunks that were removed, those marked bad not counted.
    pub removed_chunks: usize,
    /// Bytes of the chunks without reference that were held back.
    pub pending_bytes: u64,
    /// Number of chunks without reference that were held back, those
    /// marked bad not counted.
    pub pending_chunks: usize,
    /// Number of chunks marked bad that were removed.
    pub removed_bad: usize,
    /// Number of chunks marked bad that are still there.
    pub still_bad: usize,
}

/// The counters of the sweep phase as unbounded numbers.
pub struct Tally {
    pub disk_bytes: nat,
    pub disk_chunks: nat,
    pub removed_bytes: nat,
    pub removed_chunks: nat,
    pub pending_bytes: nat,
    pub pending_chunks: nat,
    pub removed_bad: nat,
    pub still_bad: nat,
}

impl GarbageCollectionStatus {
    /// The counters of the sweep phase.
    pub open spec fn tally(&self) -> Tally {
        Tally {
            disk_bytes: self.disk_bytes as nat,
            disk_chunks: self.disk_chunks as nat,
            removed_bytes: self.removed_bytes as nat,
            removed_chunks: self.removed_chunks as nat,
            pending_bytes: self.pending_bytes as nat,
            pending_chunks: self.pending_chunks as nat,
            removed_bad: self.removed_bad as nat,
            still_bad: self.still_bad as nat,
        }
    }

    /// Every counter is zero and no task is named.
    pub open spec fn is_empty(&self) -> bool {
        &&& self.upid is None
        &&& self.index_file_count == 0
        &&& self.index_data_bytes == 0
        &&& self.tally() == empty_tally()
    }
}

impl Default for GarbageCollectionStatus {
    /// The report of a run that has seen nothing yet.
    fn default() -> (r: Self)
        ensures
            r.is_empty(),
    {
        GarbageCollectionStatus {
            upid: None,
            index_file_count: 0,
            index_data_bytes: 0,
            disk_bytes: 0,
            disk_chunks: 0,
            removed_bytes: 0,
            removed_chunks: 0,
            pending_bytes: 0,
            pending_chunks: 0,
            removed_bad: 0,
            still_bad: 0,
        }
    }
}

impl Clone for GarbageCollectionStatus {
    /// A report with the same task and counters.
    fn clone(&self) -> (r: Self)
        ensures
            r == *self,
    {
        GarbageCollectionStatus {
            upid: match &self.upid {
                Some(s) => Some(s.clone()),
                None => None,
            },
            index_file_count: self.index_file_count,
            index_data_bytes: self.index_data_bytes,
            disk_bytes: self.disk_bytes,
            disk_chunks: self.disk_chunks,
            removed_bytes: self.removed_bytes,
            removed_chunks: self.removed_chunks,
            pending_bytes: self.pending_bytes,
            pending_chunks: self.pending_chunks,
            removed_bad: self.removed_bad,
            still_bad: self.still_bad,
        }
    }
}

/// One reference of an index file to a chunk.
#[derive(Clone, Copy, Debug, PartialEq, Eq, Structural)]
pub struct IndexEntry {
    /// The digest of the chunk.
    pub digest: Digest,
    /// The number of bytes that the reference stands for.
    pub size: u64,
}

/// A chunk as found in the store.
#[derive(Clone, Copy, Debug, PartialEq, Eq, Structural)]
pub struct ChunkInfo {
    /// The digest of the chunk.
    pub digest: Digest,
    /// The size of the chunk on disk, in bytes.
    pub size: u64,
    /// When the chunk was last used, in seconds since the epoch.
    pub atime: i64,
    /// Whether a verification has marked the chunk as bad.
    pub bad: bool,
}

/// The fate of a chunk in the sweep phase.
#[derive(Clone, Copy, Debug, PartialEq, Eq, Structural)]
pub enum SweepAction {
    /// An index refers to the chunk: it stays.
    Keep,
    /// No index refers to the chunk, but it is held back in this run.
    Pending,
    /// No index refers to the chunk: it is to be deleted.
    Remove,
}

/// What the sweep phase decides by.
pub struct SweepRules {
    /// The start of the run: a chunk used at or after it is not removed.
    pub cutoff: i64,
    /// The digests that the index files refer to.
    pub referenced: Set<Digest>,
    /// Whether an index file could not be read.
    pub damaged: bool,
}

/// The fate of the chunk `c`.
pub open spec fn decide(rules: SweepRules, c: ChunkInfo) -> SweepAction {
    if rules.referenced.contains(c.digest) {
        SweepAction::Keep
    } else if c.atime >= rules.cutoff || rules.damaged {
        SweepAction::Pending
    } else {
        SweepAction::Remove
    }
}

/// The counters before any chunk was seen.
pub open spec fn empty_tally() -> Tally {
    Tally {
        disk_bytes: 0,
        disk_chunks: 0,
        removed_bytes: 0,
        removed_chunks: 0,
        pending_bytes: 0,
        pending_chunks: 0,
        removed_bad: 0,
        still_bad: 0,
    }
}

/// The counters `t` after the chunk `c` met the fate `action`. Every chunk
/// counts as found on disk. The bytes of a removed or pending chunk count
/// as removed or pending; the chunk itself counts as such unless it is
/// marked bad, when it counts as a bad chunk removed or still there.
pub open spec fn tally_chunk(t: Tally, action: SweepAction, c: ChunkInfo) -> Tally {
    let seen = Tally {
        disk_bytes: t.disk_bytes + c.size as nat,
        disk_chunks: t.disk_chunks + 1,
        ..t
    };
    match action {
        SweepAction::Keep => Tally {
            still_bad: if c.bad {
                seen.still_bad + 1
            } else {
                seen.still_bad
            },
            ..seen
        },
        SweepAction::Pending => Tally {
            pending_bytes: seen.pending_bytes + c.size as nat,
            pending_chunks: if c.bad {
                seen.pending_chunks
            } else {
                seen.pending_chunks + 1
            },
            still_bad: if c.bad {
                seen.still_bad + 1
            } else {
                seen.still_bad
            },
            ..seen
        },
        SweepAction::Remove => Tally {
            removed_bytes: seen.removed_bytes + c.size as nat,
            removed_chunks: if c.bad {
                seen.removed_chunks
            } else {
                seen.removed_chunks + 1
            },
            removed_bad: if c.bad {
                seen.removed_bad + 1
            } else {
                seen.removed_bad
            },
            ..seen
        },
    }
}

/// The counters `start` after the chunks were swept one after the other.
pub open spec fn sweep_tally_from(start: Tally, rules: SweepRules, chunks: Seq<ChunkInfo>) -> Tally
    decreases chunks.len(),
{
    if chunks.len() == 0 {
        start
    } else {
        tally_chunk(
            sweep_tally_from(start, rules, chunks.drop_last()),
            decide(rules, chunks.last()),
            chunks.last(),
        )
    }
}

/// The counters of a sweep over `chunks`.
pub open spec fn sweep_tally(rules: SweepRules, chunks: Seq<ChunkInfo>) -> Tally {
    sweep_tally_from(empty_tally(), rules, chunks)
}

/// The chunks that a sweep over `chunks` leaves in the store, in their order.
pub open spec fn survivors(rules: SweepRules, chunks: Seq<ChunkInfo>) -> Seq<ChunkInfo>
    decreases chunks.len(),
{
    if chunks.len() == 0 {
        Seq::<ChunkInfo>::empty()
    } else if decide(rules, chunks.last()) == SweepAction::Remove {
        survivors(rules, chunks.drop_last())
    } else {
        survivors(rules, chunks.drop_last()).push(chunks.last())
    }
}

/// Every counter fits the field of the status that holds it.
pub open spec fn tally_fits(t: Tally) -> bool {
    &&& t.disk_bytes <= u64::MAX
    &&& t.disk_chunks <= usize::MAX
    &&& t.removed_bytes <= u64::MAX
    &&& t.removed_chunks <= usize::MAX
    &&& t.pending_bytes <= u64::MAX
    &&& t.pending_chunks <= usize::MAX
    &&& t.removed_bad <= usize::MAX
    &&& t.still_bad <= usize::MAX
}

/// The digests that the entries of an index file refer to.
pub open spec fn entry_digests(entries: Seq<IndexEntry>) -> Set<Digest> {
    Set::new(
        |d: Digest|
            exists|i: int| 0 <= i < entries.len() && (#[trigger] entries[i]).digest == d,
    )
}

/// The bytes that the entries of an index file refer to.
pub open spec fn entry_bytes(entries: Seq<IndexEntry>) -> nat
    decreases entries.len(),
{
    if entries.len() == 0 {
        0
    } else {
        entry_bytes(entries.drop_last()) + entries.last().size as nat
    }
}

} // verus!

verus! {

/// What the mark phase has collected.
pub struct MarkView {
    /// The start of the run.
    pub cutoff: i64,
    /// The digests that the index files read so far refer to.
    pub referenced: Set<Digest>,
    /// Whether an index file could not be read.
    pub damaged: bool,
    /// Number of index files read.
    pub index_file_count: nat,
    /// Sum of the bytes that they refer to.
    pub index_data_bytes: nat,
}

/// The first phase of a run: collecting the digests in use.
pub struct MarkPhase {
    cutoff: i64,
    referenced: DigestSet,
    damaged: bool,
    index_file_count: usize,
    index_data_bytes: u64,
}

impl View for MarkPhase {
    type V = MarkView;

    /// What was collected so far.
    closed spec fn view(&self) -> MarkView {
        MarkView {
            cutoff: self.cutoff,
            referenced: self.referenced@,
            damaged: self.damaged,
            index_file_count: self.index_file_count as nat,
            index_data_bytes: self.index_data_bytes as nat,
        }
    }
}

impl MarkPhase {
    /// Starts a run at the time `now`, in seconds since the epoch. Chunks
    /// used at or after `now` will not be removed by this run.
    pub fn start(now: i64) -> (r: Self)
        ensures
            r@ == (MarkView {
                cutoff: now,
                referenced: Set::<Digest>::empty(),
                damaged: false,
                index_file_count: 0,
                index_data_bytes: 0,
            }),
    {
        MarkPhase {
            cutoff: now,
            referenced: DigestSet::new(),
            damaged: false,
            index_file_count: 0,
            index_data_bytes: 0,
        }
    }

    /// Takes in one index file: every digest it refers to counts as in
    /// use, and the file and its bytes are counted. Fails, and changes
    /// nothing, if a counter would overflow.
    pub fn mark_index(&mut self, entries: &Vec<IndexEntry>) -> (r: Result<(), GcError>)
        ensures
            match r {
                Ok(()) => final(self)@ == (MarkView {
                    referenced: old(self)@.referenced.union(entry_digests(entries@)),
                    index_file_count: old(self)@.index_file_count + 1,
                    index_data_bytes: old(self)@.index_data_bytes + entry_bytes(entries@),
                    ..old(self)@
                }),
                Err(e) => e == GcError::CounterOverflow && final(self)@ == old(self)@,
            },
            r is Ok <==> old(self)@.index_file_count + 1 <= usize::MAX
                && old(self)@.index_data_bytes + entry_bytes(entries@) <= u64::MAX,
    {
        if self.index_file_count == usize::MAX {
            return Err(GcError::CounterOverflow);
        }
        let mut total: u64 = self.index_data_bytes;
        let mut i: usize = 0;
        proof {
            assert(entries@.take(0) =~= Seq::<IndexEntry>::empty());
        }
        while i < entries.len()
            invariant
                i <= entries@.len(),
                total == self.index_data_bytes + entry_bytes(entries@.take(i as int)),
            decreases entries@.len() - i,
        {
            let size = entries[i].size;
            proof {
                let next = entries@.take(i as int + 1);
                assert(next.drop_last() =~= entries@.take(i as int));
                assert(next.last() == entries@[i as int]);
                lemma_entry_bytes_prefix(entries@, i as int + 1);
            }
            if size > u64::MAX - total {
                return Err(GcError::CounterOverflow);
            }
            total = total + size;
            i += 1;
        }
        proof {
            assert(entries@.take(entries@.len() as int) =~= entries@);
        }
        let ghost before = self.referenced@;
        let mut k: usize = 0;
        while k < entries.len()
            invariant
                k <= entries@.len(),
                self.referenced@ == before.union(entry_digests(entries@.take(k as int))),
                self.cutoff == old(self).cutoff,
                self.damaged == old(self).damaged,
                self.index_file_count == old(self).index_file_count,
                self.index_data_bytes == old(self).index_data_bytes,
            decreases entries@.len() - k,
        {
            proof {
                let done = entries@.take(k as int);
                let next = entries@.take(k as int + 1);
                let d = entries@[k as int].digest;
                assert forall|e: Digest| #[trigger]
                    before.union(entry_digests(done)).insert(d).contains(e) == before.union(
                        entry_digests(next),
                    ).contains(e) by {
                    if entry_digests(done).contains(e) {
                        let j = choose|j: int|
                            0 <= j < done.len() && (#[trigger] done[j]).digest == e;
                        assert(next[j].digest == e);
                    }
                    if e == d {
                        assert(next[k as int].digest == d);
                    }
                    if entry_digests(next).contains(e) {
                        let j = choose|j: int|
                            0 <= j < next.len() && (#[trigger] next[j]).digest == e;
                        if j < k {
                            assert(done[j].digest == e);
                        }
                    }
                }
                assert(before.union(entry_digests(done)).insert(d) =~= before.union(
                    entry_digests(next),
                ));
            }
            let _ = self.referenced.insert(entries[k].digest);
            k += 1;
        }
        proof {
            assert(entries@.take(entries@.len() as int) =~= entries@);
        }
        self.index_file_count = self.index_file_count + 1;
        self.index_data_bytes = total;
        Ok(())
    }

    /// Notes that an index file could not be read. The run goes on, but
    /// will remove nothing.
    pub fn mark_unreadable(&mut self)
        ensures
            final(self)@ == (MarkView { damaged: true, ..old(self)@ }),
    {
        self.damaged = true;
    }

    /// Whether an index file read so far refers to `d`.
    pub fn is_referenced(&self, d: &Digest) -> (b: bool)
        ensures
            b == self@.referenced.contains(*d),
    {
        self.referenced.contains(d)
    }

    /// Ends the mark phase. The sweep phase begins with the counts of the
    /// index files in its status and all other counters at zero.
    pub fn begin_sweep(self) -> (r: SweepPhase)
        ensures
            r.rules() == (SweepRules {
                cutoff: self@.cutoff,
                referenced: self@.referenced,
                damaged: self@.damaged,
            }),
            r.status().upid is None,
            r.status().index_file_count == self@.index_file_count,
            r.status().index_data_bytes == self@.index_data_bytes,
            r.status().tally() == empty_tally(),
    {
        let mut status = GarbageCollectionStatus::default();
        status.index_file_count = self.index_file_count;
        status.index_data_bytes = self.index_data_bytes;
        SweepPhase {
            cutoff: self.cutoff,
            referenced: self.referenced,
            damaged: self.damaged,
            status,
        }
    }
}

/// The bytes of the first `k` entries are no more than the bytes of all.
pub proof fn lemma_entry_bytes_prefix(entries: Seq<IndexEntry>, k: int)
    requires
        0 <= k <= entries.len(),
    ensures
        entry_bytes(entries.take(k)) <= entry_bytes(entries),
    decreases entries.len(),
{
    if k == entries.len() {
        assert(entries.take(k) =~= entries);
    } else {
        assert(entries.drop_last().take(k) =~= entries.take(k));
        lemma_entry_bytes_prefix(entries.drop_last(), k);
    }
}

/// The second phase of a run: deciding the fate of every chunk.
pub struct SweepPhase {
    cutoff: i64,
    referenced: DigestSet,
    damaged: bool,
    status: GarbageCollectionStatus,
}

impl SweepPhase {
    /// What this phase decides by.
    pub closed spec fn rules(&self) -> SweepRules {
        SweepRules { cutoff: self.cutoff, referenced: self.referenced@, damaged: self.damaged }
    }

    /// The status as counted so far.
    pub closed spec fn status(&self) -> GarbageCollectionStatus {
        self.status
    }

    /// The status as counted so far.
    pub fn current_status(&self) -> (r: &GarbageCollectionStatus)
        ensures
            *r == self.status(),
    {
        &self.status
    }

    /// Decides the fate of one chunk found in the store and counts it.
    /// A chunk used at or after the start of the run is never removed.
    /// Fails, and changes nothing, if a counter would overflow.
    pub fn sweep_chunk(&mut self, chunk: &ChunkInfo) -> (r: Result<SweepAction, GcError>)
        ensures
            final(self).rules() == old(self).rules(),
            final(self).status().upid == old(self).status().upid,
            final(self).status().index_file_count == old(self).status().index_file_count,
            final(self).status().index_data_bytes == old(self).status().index_data_bytes,
            match r {
                Ok(action) => action == decide(old(self).rules(), *chunk)
                    && final(self).status().tally() == tally_chunk(
                    old(self).status().tally(),
                    action,
                    *chunk,
                ),
                Err(e) => e == GcError::CounterOverflow
                    && final(self).status() == old(self).status(),
            },
            r is Ok <==> tally_fits(
                tally_chunk(old(self).status().tally(), decide(old(self).rules(), *chunk), *chunk),
            ),
            chunk.atime >= old(self).rules().cutoff ==> r != Ok::<SweepAction, GcError>(
                SweepAction::Remove,
            ),
    {
        let action = if self.referenced.contains(&chunk.digest) {
            SweepAction::Keep
        } else if chunk.atime >= self.cutoff || self.damaged {
            SweepAction::Pending
        } else {
            SweepAction::Remove
        };
        let size = chunk.size;
        if size > u64::MAX - self.status.disk_bytes || self.status.disk_chunks == usize::MAX {
            return Err(GcError::CounterOverflow);
        }
        match action {
            SweepAction::Keep => {
                if chunk.bad {
                    if self.status.still_bad == usize::MAX {
                        return Err(GcError::CounterOverflow);
                    }
                    self.status.still_bad = self.status.still_bad + 1;
                }
            },
            SweepAction::Pending => {
                if size > u64::MAX - self.status.pending_bytes {
                    return Err(GcError::CounterOverflow);
                }
                if chunk.bad {
                    if self.status.still_bad == usize::MAX {
                        return Err(GcError::CounterOverflow);
                    }
                    self.status.still_bad = self.status.still_bad + 1;
                } else {
                    if self.status.pending_chunks == usize::MAX {
                        return Err(GcError::CounterOverflow);
                    }
                    self.status.pending_chunks = self.status.pending_chunks + 1;
                }
                self.status.pending_bytes = self.status.pending_bytes + size;
            },
            SweepAction::Remove => {
                if size > u64::MAX - self.status.removed_bytes {
                    return Err(GcError::CounterOverflow);
                }
                if chunk.bad {
                    if self.status.removed_bad == usize::MAX {
                        return Err(GcError::CounterOverflow);
                    }
                    self.status.removed_bad = self.status.removed_bad + 1;
                } else {
                    if self.status.removed_chunks == usize::MAX {
                        return Err(GcError::CounterOverflow);
                    }
                    self.status.removed_chunks = self.status.removed_chunks + 1;
                }
                self.status.removed_bytes = self.status.removed_bytes + size;
            },
        }
        self.status.disk_bytes = self.status.disk_bytes + size;
        self.status.disk_chunks = self.status.disk_chunks + 1;
        Ok(action)
    }

    /// Ends the run and gives its status.
    pub fn finish(self) -> (r: GarbageCollectionStatus)
        ensures
            r == self.status(),
    {
        self.status
    }
}

} // verus!

verus! {

impl SweepPhase {
    /// Decides the fate of every chunk of `chunks`, in their order, and
    /// counts them. Stops at the first chunk at which a counter would
    /// overflow; the chunks before it stay counted.
    pub fn sweep(&mut self, chunks: &Vec<ChunkInfo>) -> (r: Result<Vec<SweepAction>, GcError>)
        ensures
            final(self).rules() == old(self).rules(),
            final(self).status().upid == old(self).status().upid,
            final(self).status().index_file_count == old(self).status().index_file_count,
            final(self).status().index_data_bytes == old(self).status().index_data_bytes,
            match r {
                Ok(actions) => {
                    &&& actions@.len() == chunks@.len()
                    &&& forall|i: int|
                        0 <= i < chunks@.len() ==> #[trigger] actions@[i] == decide(
                            old(self).rules(),
                            chunks@[i],
                        )
                    &&& final(self).status().tally() == sweep_tally_from(
                        old(self).status().tally(),
                        old(self).rules(),
                        chunks@,
                    )
                },
                Err(e) => e == GcError::CounterOverflow && exists|k: int|
                    0 <= k < chunks@.len() && final(self).status().tally() == sweep_tally_from(
                        old(self).status().tally(),
                        old(self).rules(),
                        #[trigger] chunks@.take(k),
                    ) && !tally_fits(
                        sweep_tally_from(
                            old(self).status().tally(),
                            old(self).rules(),
                            chunks@.take(k + 1),
                        ),
                    ),
            },
            r is Ok <==> tally_fits(
                sweep_tally_from(old(self).status().tally(), old(self).rules(), chunks@),
            ),
    {
        let mut actions: Vec<SweepAction> = Vec::new();
        let mut i: usize = 0;
        let ghost start = self.status().tally();
        let ghost rules = self.rules();
        proof {
            assert(chunks@.take(0) =~= Seq::<ChunkInfo>::empty());
        }
        while i < chunks.len()
            invariant
                i <= chunks@.len(),
                actions@.len() == i,
                self.rules() == rules,
                rules == old(self).rules(),
                start == old(self).status().tally(),
                self.status().upid == old(self).status().upid,
                self.status().index_file_count == old(self).status().index_file_count,
                self.status().index_data_bytes == old(self).status().index_data_bytes,
                forall|j: int| 0 <= j < i ==> #[trigger] actions@[j] == decide(rules, chunks@[j]),
                self.status().tally() == sweep_tally_from(start, rules, chunks@.take(i as int)),
            decreases chunks@.len() - i,
        {
            proof {
                let next = chunks@.take(i as int + 1);
                assert(next.drop_last() =~= chunks@.take(i as int));
                assert(next.last() == chunks@[i as int]);
            }
            match self.sweep_chunk(&chunks[i]) {
                Ok(action) => {
                    actions.push(action);
                },
                Err(e) => {
                    proof {
                        lemma_tally_prefix_fits(start, rules, chunks@, i as int + 1);
                        let k = i as int;
                        assert(self.status().tally() == sweep_tally_from(
                            start,
                            rules,
                            chunks@.take(k),
                        ));
                    }
                    return Err(e);
                },
            }
            i += 1;
        }
        proof {
            assert(chunks@.take(chunks@.len() as int) =~= chunks@);
        }
        Ok(actions)
    }
}

/// No counter ever goes down.
pub open spec fn tally_le(a: Tally, b: Tally) -> bool {
    &&& a.disk_bytes <= b.disk_bytes
    &&& a.disk_chunks <= b.disk_chunks
    &&& a.removed_bytes <= b.removed_bytes
    &&& a.removed_chunks <= b.removed_chunks
    &&& a.pending_bytes <= b.pending_bytes
    &&& a.pending_chunks <= b.pending_chunks
    &&& a.removed_bad <= b.removed_bad
    &&& a.still_bad <= b.still_bad
}

/// The counters only grow as the sweep goes on: after the first `k`
/// chunks they are no larger than after all.
pub proof fn lemma_tally_grows(start: Tally, rules: SweepRules, chunks: Seq<ChunkInfo>, k: int)
    requires
        0 <= k <= chunks.len(),
    ensures
        tally_le(start, sweep_tally_from(start, rules, chunks.take(k))),
        tally_le(
            sweep_tally_from(start, rules, chunks.take(k)),
            sweep_tally_from(start, rules, chunks),
        ),
    decreases chunks.len(),
{
    if k == chunks.len() {
        assert(chunks.take(k) =~= chunks);
        if k > 0 {
            lemma_tally_grows(start, rules, chunks.drop_last(), k - 1);
            assert(chunks.drop_last().take(k - 1) =~= chunks.drop_last());
        }
    } else {
        assert(chunks.drop_last().take(k) =~= chunks.take(k));
        lemma_tally_grows(start, rules, chunks.drop_last(), k);
    }
}

/// If the counters fit after all chunks, they fit after the first `k`.
pub proof fn lemma_tally_prefix_fits(
    start: Tally,
    rules: SweepRules,
    chunks: Seq<ChunkInfo>,
    k: int,
)
    requires
        0 <= k <= chunks.len(),
    ensures
        tally_fits(sweep_tally_from(start, rules, chunks)) ==> tally_fits(
            sweep_tally_from(start, rules, chunks.take(k)),
        ),
{
    lemma_tally_grows(start, rules, chunks, k);
}

/// The grace window: a chunk used at or after the start of the run is
/// never removed, and is pending if no index refers to it.
pub proof fn lemma_grace_window(rules: SweepRules, c: ChunkInfo)
    requires
        c.atime >= rules.cutoff,
    ensures
        decide(rules, c) != SweepAction::Remove,
        !rules.referenced.contains(c.digest) ==> decide(rules, c) == SweepAction::Pending,
{
}

/// Whatever a sweep removes was last used before the start of the run, no
/// index refers to it, and every index file could be read.
pub proof fn lemma_removed_chunks(rules: SweepRules, c: ChunkInfo)
    requires
        decide(rules, c) == SweepAction::Remove,
    ensures
        c.atime < rules.cutoff,
        !rules.referenced.contains(c.digest),
        !rules.damaged,
{
}

/// Every chunk that is not removed is among the survivors, and every
/// survivor is a chunk that was not removed.
pub proof fn lemma_survivors(rules: SweepRules, chunks: Seq<ChunkInfo>)
    ensures
        forall|i: int|
            0 <= i < chunks.len() && decide(rules, #[trigger] chunks[i]) != SweepAction::Remove
                ==> survivors(rules, chunks).contains(chunks[i]),
        forall|j: int|
            0 <= j < survivors(rules, chunks).len() ==> chunks.contains(
                #[trigger] survivors(rules, chunks)[j],
            ) && decide(rules, survivors(rules, chunks)[j]) != SweepAction::Remove,
    decreases chunks.len(),
{
    if chunks.len() > 0 {
        let front = chunks.drop_last();
        let last = chunks.last();
        lemma_survivors(rules, front);
        let s = survivors(rules, chunks);
        let sf = survivors(rules, front);
        assert forall|i: int|
            0 <= i < chunks.len() && decide(rules, #[trigger] chunks[i])
                != SweepAction::Remove implies s.contains(chunks[i]) by {
            if i < front.len() {
                assert(front[i] == chunks[i]);
                let j = choose|j: int| 0 <= j < sf.len() && sf[j] == front[i];
                assert(s[j] == chunks[i]);
            } else {
                assert(s[s.len() - 1] == last);
            }
        }
        assert forall|j: int| 0 <= j < s.len() implies chunks.contains(#[trigger] s[j]) && decide(
            rules,
            s[j],
        ) != SweepAction::Remove by {
            if j < sf.len() {
                assert(s[j] == sf[j]);
                let i = choose|i: int| 0 <= i < front.len() && front[i] == sf[j];
                assert(chunks[i] == s[j]);
            } else {
                assert(s[j] == chunks[chunks.len() - 1]);
            }
        }
    }
}

/// A second run right after a first one, with the same digests in use,
/// removes nothing and leaves the store as it found it, and finds on
/// disk what the first run found less what it removed. This holds where
/// every chunk that the first run held back is also held back by the
/// second: a chunk that was pending then and is no longer within the
/// grace window now is removed by the second run.
pub proof fn lemma_second_run(first: SweepRules, second: SweepRules, chunks: Seq<ChunkInfo>)
    requires
        second.referenced == first.referenced,
        forall|i: int|
            0 <= i < chunks.len() && decide(first, #[trigger] chunks[i]) == SweepAction::Pending
                ==> chunks[i].atime >= second.cutoff || second.damaged,
    ensures
        ({
            let left = survivors(first, chunks);
            let t1 = sweep_tally(first, chunks);
            let t2 = sweep_tally(second, left);
            &&& survivors(second, left) == left
            &&& t2.removed_chunks == 0
            &&& t2.removed_bad == 0
            &&& t2.removed_bytes == 0
            &&& t2.disk_chunks == t1.disk_chunks - t1.removed_chunks - t1.removed_bad
            &&& t2.disk_bytes == t1.disk_bytes - t1.removed_bytes
            &&& t2.pending_chunks == t1.pending_chunks
            &&& t2.pending_bytes == t1.pending_bytes
            &&& t2.still_bad == t1.still_bad
            &&& sweep_tally(second, survivors(second, left)) == t2
        }),
    decreases chunks.len(),
{
    if chunks.len() > 0 {
        let front = chunks.drop_last();
        let last = chunks.last();
        assert forall|i: int|
            0 <= i < front.len() && decide(first, #[trigger] front[i])
                == SweepAction::Pending implies front[i].atime >= second.cutoff
            || second.damaged by {
            assert(front[i] == chunks[i]);
        }
        lemma_second_run(first, second, front);
        let left = survivors(first, chunks);
        let left_front = survivors(first, front);
        assert(chunks[chunks.len() - 1] == last);
        if decide(first, last) != SweepAction::Remove {
            assert(left.drop_last() =~= left_front);
            assert(left.last() == last);
            assert(decide(second, last) == decide(first, last));
        }
    }
}

} // verus!

verus! {

/// What a datastore remembers of its garbage collections: whether a run
/// is under way, and the status of the last run that ended. One such
/// value belongs to one datastore; its owner hands it to the operations.
pub struct GcSlot {
    running: bool,
    last: Option<GarbageCollectionStatus>,
}

impl GcSlot {
    /// Whether a run is under way.
    pub closed spec fn running(&self) -> bool {
        self.running
    }

    /// The status of the last run that ended.
    pub closed spec fn last(&self) -> Option<GarbageCollectionStatus> {
        self.last
    }

    /// A datastore on which no run is under way and none has ended.
    pub fn new() -> (r: Self)
        ensures
            !r.running(),
            r.last() is None,
    {
        GcSlot { running: false, last: None }
    }

    /// Whether a run is under way.
    pub fn is_running(&self) -> (b: bool)
        ensures
            b == self.running(),
    {
        self.running
    }

    /// The status of the last run that ended.
    pub fn last_status(&self) -> (r: &Option<GarbageCollectionStatus>)
        ensures
            *r == self.last(),
    {
        &self.last
    }

    /// Starts a run at the time `now`. Fails at once, and changes
    /// nothing, while another run is under way.
    pub fn try_start(&mut self, now: i64) -> (r: Result<MarkPhase, GcError>)
        ensures
            final(self).last() == old(self).last(),
            match r {
                Ok(mark) => !old(self).running() && final(self).running() && mark@ == (MarkView {
                    cutoff: now,
                    referenced: Set::<Digest>::empty(),
                    damaged: false,
                    index_file_count: 0,
                    index_data_bytes: 0,
                }),
                Err(e) => e == GcError::AlreadyRunning && old(self).running()
                    && final(self).running(),
            },
    {
        if self.running {
            return Err(GcError::AlreadyRunning);
        }
        self.running = true;
        Ok(MarkPhase::start(now))
    }

    /// Ends the run under way and keeps its status as the last one.
    pub fn finish(&mut self, status: GarbageCollectionStatus)
        ensures
            !final(self).running(),
            final(self).last() == Some(status),
    {
        self.running = false;
        self.last = Some(status);
    }

    /// Ends the run under way without a status: the last status stays.
    pub fn abort(&mut self)
        ensures
            !final(self).running(),
            final(self).last() == old(self).last(),
    {
        self.running = false;
    }
}

} // verus!

verus! {

/// The entry that a line of an index list names: the sixty-four
/// hexadecimal digits of a digest, one blank, and the size in decimal
/// digits. None for any other line.
pub open spec fn entry_of_line(line: Seq<char>) -> Option<IndexEntry> {
    if line.len() > 65 && line[64] == ' ' && crate::digest::digest_of_hex(line.take(64)) is Some
        && crate::text::all_digits(line.skip(65)) && crate::text::decimal_value(line.skip(65))
        <= u64::MAX {
        Some(
            IndexEntry {
                digest: crate::digest::digest_of_hex(line.take(64))->0,
                size: crate::text::decimal_value(line.skip(65)) as u64,
            },
        )
    } else {
        None
    }
}

impl IndexEntry {
    /// Reads a line of an index list.
    pub fn from_line(line: &str) -> (r: Option<IndexEntry>)
        ensures
            r == entry_of_line(line@),
    {
        let chars = crate::text::chars_of(line);
        let n = chars.len();
        if n <= 65 || chars[64] != ' ' {
            return None;
        }
        let mut head: Vec<char> = Vec::new();
        let mut i: usize = 0;
        while i < 64
            invariant
                i <= 64,
                chars@.len() > 65,
                head@ == chars@.take(i as int),
            decreases 64 - i,
        {
            head.push(chars[i]);
            proof {
                assert(chars@.take(i as int).push(chars@[i as int]) =~= chars@.take(i as int + 1));
            }
            i += 1;
        }
        let digest = match Digest::from_chars(&head) {
            Some(d) => d,
            None => {
                return None;
            },
        };
        let mut tail: Vec<char> = Vec::new();
        let mut k: usize = 65;
        proof {
            assert(chars@.subrange(65, 65) =~= Seq::<char>::empty());
        }
        while k < n
            invariant
                65 <= k <= n,
                n == chars@.len(),
                tail@ == chars@.subrange(65, k as int),
            decreases n - k,
        {
            tail.push(chars[k]);
            proof {
                assert(chars@.subrange(65, k as int).push(chars@[k as int]) =~= chars@.subrange(
                    65,
                    k as int + 1,
                ));
            }
            k += 1;
        }
        proof {
            assert(chars@.subrange(65, n as int) =~= chars@.skip(65));
        }
        if tail[0] == '+' {
            proof {
                assert(!crate::text::is_digit(chars@.skip(65)[0]));
            }
            return None;
        }
        match crate::text::parse_decimal_u64(&tail) {
            Some(size) => Some(IndexEntry { digest, size }),
            None => None,
        }
    }
}

} // verus!

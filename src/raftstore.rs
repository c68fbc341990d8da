//! The log storage engine and the storage interface that a consensus driver
//! consumes.
//!
//! `RaftDB` keeps the retained log, the snapshot watermark and the voting
//! state. Every mutation also records the writes that bring the durable
//! ordered map up to date; whoever owns the backing store takes them with
//! `take_writes` and commits them as one atomic batch. On start-up,
//! `RaftDB::restore` rebuilds the engine from what the store holds.

use vstd::prelude::*;

use crate::entry::{EntryRef, LogEntry};
use crate::error::StorageError;
use crate::limit::{limit_size, views, NO_LIMIT};
use crate::model::{
    apply_ops, consecutive, lemma_apply_push, lemma_image_drop_first, lemma_image_pop,
    lemma_image_push, lemma_image_raft_state, lemma_image_snapshot, lemma_image_update,
    DurableImage, LogModel, WriteOp,
};
use crate::state::{
    ConfState, ConfStateView, HardState, RaftState, RaftStateView, Snapshot, SnapshotMetadata,
};

verus! {

/// The entries held by a list of persisted `(key, entry)` records.
pub open spec fn record_entries(recs: Seq<(u64, EntryRef)>) -> Seq<LogEntry> {
    recs.map_values(|r: (u64, EntryRef)| r.1@)
}

/// Every persisted record is keyed by its entry's index.
pub open spec fn keys_match(recs: Seq<(u64, EntryRef)>) -> bool {
    forall|i: int| 0 <= i < recs.len() ==> #[trigger] recs[i].0 == recs[i].1.index
}

/// The state that persisted records describe.
pub open spec fn restored(
    snapshot: SnapshotMetadata,
    raft_state: RaftStateView,
    recs: Seq<(u64, EntryRef)>,
) -> LogModel {
    LogModel { entries: record_entries(recs), snapshot, raft_state }
}

/// The storage engine: an in-memory copy of the durable log, with the writes
/// that the durable copy has not received yet.
pub struct RaftDB {
    entries: Vec<EntryRef>,
    raft_state: RaftState,
    snapshot_metadata: SnapshotMetadata,
    pending: Vec<WriteOp>,
    durable: Ghost<DurableImage>,
}

impl View for RaftDB {
    type V = LogModel;

    closed spec fn view(&self) -> LogModel {
        LogModel {
            entries: views(self.entries@),
            snapshot: self.snapshot_metadata,
            raft_state: self.raft_state@,
        }
    }
}

impl RaftDB {
    /// What the backing store held after the last committed batch.
    pub closed spec fn durable(&self) -> DurableImage {
        self.durable@
    }

    /// Writes recorded since the last committed batch.
    pub closed spec fn pending(&self) -> Seq<WriteOp> {
        self.pending@
    }

    /// The log is well formed, and the backing store plus the pending
    /// writes hold exactly the current state.
    pub open spec fn wf(&self) -> bool {
        &&& self@.valid()
        &&& apply_ops(self.durable(), self.pending()) == self@.image()
    }

    /// An empty engine over an empty backing store.
    pub fn new() -> (r: RaftDB)
        ensures
            r.wf(),
            r@ == LogModel::fresh(ConfStateView::empty()),
            r.pending().len() == 0,
    {
        let r = RaftDB {
            entries: Vec::new(),
            raft_state: RaftState::new(HardState::new(), ConfState::new()),
            snapshot_metadata: SnapshotMetadata::new(),
            pending: Vec::new(),
            durable: Ghost(LogModel::fresh(ConfStateView::empty()).image()),
        };
        proof {
            assert(r@.entries =~= Seq::<LogEntry>::empty());
        }
        r
    }

    /// First retained index.
    pub fn first_index(&self) -> (r: u64)
        requires
            self.wf(),
        ensures
            r == self@.first(),
    {
        if self.entries.len() > 0 {
            self.entries[0].index
        } else {
            self.snapshot_metadata.index + 1
        }
    }

    /// Last retained index.
    pub fn last_index(&self) -> (r: u64)
        requires
            self.wf(),
        ensures
            r == self@.last(),
    {
        let n = self.entries.len();
        if n > 0 {
            proof {
                assert(self@.entries[n - 1].index == self@.first() + n - 1);
            }
            self.entries[n - 1].index
        } else {
            self.snapshot_metadata.index
        }
    }

    /// The watermark of the last snapshot.
    pub fn snapshot_metadata(&self) -> (r: SnapshotMetadata)
        ensures
            r == self@.snapshot,
    {
        self.snapshot_metadata
    }

    /// The voting state and membership.
    pub fn raft_state(&self) -> (r: &RaftState)
        ensures
            r@ == self@.raft_state,
    {
        &self.raft_state
    }

    /// The entry retained at `idx`.
    pub fn get_entry(&self, idx: u64) -> (r: Result<EntryRef, StorageError>)
        requires
            self.wf(),
        ensures
            self@.stores(idx as int) ==> r is Ok && r->Ok_0@ == self@.entry_at(idx as int),
            !self@.stores(idx as int) ==> r == Err::<EntryRef, StorageError>(
                StorageError::NotFound,
            ),
    {
        let first = self.first_index();
        if idx < first || idx - first >= self.entries.len() as u64 {
            return Err(StorageError::NotFound);
        }
        let e = self.entries[(idx - first) as usize].duplicate();
        Ok(e)
    }

    /// Appends a batch of entries with consecutive indices. Retained entries
    /// from the batch's first index on are replaced by the batch, and those
    /// beyond its end are discarded. Refuses a batch that starts below the
    /// first retained index, or that would leave a hole in the log.
    pub fn append(&mut self, ents: &[EntryRef]) -> (r: Result<(), StorageError>)
        requires
            old(self).wf(),
        ensures
            final(self).wf(),
            match old(self)@.append_result(views(ents@)) {
                Ok(m) => r is Ok && final(self)@ == m,
                Err(e) => r == Err::<(), StorageError>(e) && final(self)@ == old(self)@,
            },
            r is Ok && ents@.len() > 0 ==> final(self)@.last() == ents@.last().index
                && final(self)@.first() == old(self)@.first(),
    {
        let ghost batch = views(ents@);
        let ghost m0 = self@;
        if ents.len() == 0 {
            return Ok(());
        }
        let first = self.first_index();
        let last = self.last_index();
        if ents[0].index < first {
            return Err(StorageError::OverwriteCompacted);
        }
        if ents[0].index - 1 > last {
            return Err(StorageError::GapInLog);
        }
        let mut i: usize = 1;
        while i < ents.len()
            invariant
                self.wf(),
                self@ == m0,
                first == m0.first(),
                last == m0.last(),
                first <= ents@[0].index <= last + 1,
                batch == views(ents@),
                1 <= i <= ents@.len(),
                forall|j: int| 0 <= j < i ==> #[trigger] ents@[j].index == ents@[0].index + j,
            decreases ents@.len() - i,
        {
            if ents[i - 1].index == NO_LIMIT || ents[i].index != ents[i - 1].index + 1 {
                proof {
                    assert(batch[i as int].index != batch[0].index + i);
                }
                return Err(StorageError::GapInLog);
            }
            i = i + 1;
        }
        proof {
            assert forall|j: int| 0 <= j < batch.len() implies #[trigger] batch[j].index
                == batch[0].index + j by {
                assert(ents@[j].index == ents@[0].index + j);
            }
            assert(consecutive(batch));
        }
        // Drop the retained entries from the batch's first index on.
        let n = self.entries.len();
        let d: u64 = ents[0].index - first;
        assert(d <= n);
        let keep = d as usize;
        self.truncate_log(keep);
        // Add the batch.
        let mut j: usize = 0;
        while j < ents.len()
            invariant
                self.wf(),
                m0.valid(),
                batch == views(ents@),
                consecutive(batch),
                0 < ents@.len(),
                keep == ents@[0].index - m0.first(),
                keep <= m0.entries.len(),
                ents@[0].index > m0.snapshot.index,
                j <= ents@.len(),
                self@ == (LogModel { entries: m0.entries.take(keep as int) + batch.take(j as int), ..m0 }),
            decreases ents@.len() - j,
        {
            let e = ents[j].duplicate();
            proof {
                let m = self@;
                let n = m.entries.len();
                assert(batch[j as int].index == batch[0].index + j);
                if n > 0 {
                    assert(m.entries[n - 1].index == m.first() + n - 1);
                    if j > 0 {
                        assert(m.entries[n - 1] == batch[j - 1]);
                        assert(batch[j - 1].index == batch[0].index + j - 1);
                    } else {
                        assert(m.entries[n - 1] == m0.entries[keep - 1]);
                        assert(m0.entries[keep - 1].index == m0.first() + keep - 1);
                    }
                }
                lemma_image_push(m, e);
                lemma_apply_push(self.durable(), self.pending(), WriteOp::PutEntry(e));
            }
            let ghost before = self@.entries;
            self.pending.push(WriteOp::PutEntry(e));
            self.entries.push(ents[j].duplicate());
            proof {
                assert(views(self.entries@) =~= before.push(e@));
                assert(before.push(e@) =~= m0.entries.take(keep as int) + batch.take(j + 1));
            }
            j = j + 1;
        }
        proof {
            assert(batch.take(j as int) =~= batch);
            let f = self@;
            let n = f.entries.len();
            assert(f.entries[n - 1] == batch[batch.len() - 1]);
            assert(f.entries[n - 1].index == f.first() + n - 1);
            if keep > 0 {
                assert(f.entries[0] == m0.entries[0]);
            } else {
                assert(f.entries[0] == batch[0]);
                if m0.entries.len() > 0 {
                    assert(m0.entries[0].index == m0.first());
                }
            }
        }
        Ok(())
    }

    /// Discards every retained entry after the first `keep`, recording the
    /// deletions.
    fn truncate_log(&mut self, keep: usize)
        requires
            old(self).wf(),
            keep <= old(self)@.entries.len(),
        ensures
            final(self).wf(),
            final(self)@ == (LogModel { entries: old(self)@.entries.take(keep as int), ..old(self)@ }),
    {
        let ghost m0 = self@;
        while self.entries.len() > keep
            invariant
                self.wf(),
                m0.valid(),
                keep <= self@.entries.len() <= m0.entries.len(),
                self@ == (LogModel { entries: m0.entries.take(self@.entries.len() as int), ..m0 }),
            decreases self.entries.len(),
        {
            let idx = self.last_index();
            proof {
                lemma_image_pop(self@);
                lemma_apply_push(self.durable(), self.pending(), WriteOp::DeleteEntry(idx));
                assert(m0.entries.take(self@.entries.len() as int).drop_last() =~= m0.entries.take(
                    self@.entries.len() - 1,
                ));
            }
            self.entries.pop();
            self.pending.push(WriteOp::DeleteEntry(idx));
            proof {
                assert(views(self.entries@) =~= m0.entries.take(self@.entries.len() as int));
            }
        }
        proof {
            assert(self@.entries =~= m0.entries.take(keep as int));
        }
    }

    /// Discards every entry below `compact_index` and moves the watermark to
    /// the last discarded entry, so that its term stays known. Does nothing
    /// when `compact_index` is at most the first retained index.
    pub fn compact(&mut self, compact_index: u64) -> (r: Result<(), StorageError>)
        requires
            old(self).wf(),
            compact_index <= old(self)@.last() + 1,
        ensures
            final(self).wf(),
            r is Ok,
            final(self)@ == old(self)@.compact_result(compact_index),
            compact_index <= old(self)@.first() ==> final(self)@ == old(self)@,
            compact_index > old(self)@.first() ==> final(self)@.first() == compact_index,
            final(self)@.snapshot.index >= old(self)@.snapshot.index,
    {
        let ghost m0 = self@;
        let first = self.first_index();
        if compact_index <= first {
            return Ok(());
        }
        let n = self.entries.len();
        let d: u64 = compact_index - first;
        assert(d <= n);
        let count = d as usize;
        let boundary_term = self.entries[count - 1].term;
        let ghost mut m = m0;
        let mut k: u64 = first;
        while k < compact_index
            invariant
                m0.valid(),
                self@ == m0,
                first == m0.first(),
                first <= k <= compact_index <= m0.last() + 1,
                m.valid(),
                m == (LogModel { entries: m0.entries.skip(k - first), ..m0 }),
                apply_ops(self.durable(), self.pending()) == m.image(),
            decreases compact_index - k,
        {
            proof {
                assert(m.entries[0] == m0.entries[k - first]);
                assert(m0.entries[k - first].index == first + (k - first));
                lemma_image_drop_first(m);
                lemma_apply_push(self.durable(), self.pending(), WriteOp::DeleteEntry(k));
                assert(m.entries.drop_first() =~= m0.entries.skip(k + 1 - first));
                m = LogModel { entries: m.entries.drop_first(), ..m };
            }
            self.pending.push(WriteOp::DeleteEntry(k));
            k = k + 1;
        }
        let tail = self.entries.split_off(count);
        self.entries = tail;
        proof {
            assert(views(self.entries@) =~= m0.entries.skip(count as int));
            assert(self@ == m);
            assert(m0.entries[count - 1].index == first + count - 1);
            if m.entries.len() > 0 {
                assert(m.entries[0] == m0.entries[count as int]);
                assert(m0.entries[count as int].index == first + count);
            }
        }
        let meta = SnapshotMetadata { index: compact_index - 1, term: boundary_term };
        proof {
            lemma_image_snapshot(self@, meta);
            lemma_apply_push(self.durable(), self.pending(), WriteOp::PutSnapshot(meta));
        }
        self.snapshot_metadata = meta;
        self.pending.push(WriteOp::PutSnapshot(meta));
        Ok(())
    }

    /// Discards every retained entry; the watermark stays where it is.
    pub fn clear(&mut self)
        requires
            old(self).wf(),
        ensures
            final(self).wf(),
            final(self)@ == (LogModel { entries: Seq::empty(), ..old(self)@ }),
    {
        self.truncate_log(0);
        proof {
            assert(self@.entries =~= Seq::<LogEntry>::empty());
        }
    }

    /// Writes `e` at `idx` in place, without discarding anything: overwrites a
    /// retained entry, or extends the log by one. On an empty log any index
    /// above the watermark is accepted.
    pub fn set_entry(&mut self, idx: u64, e: EntryRef) -> (r: Result<(), StorageError>)
        requires
            old(self).wf(),
        ensures
            final(self).wf(),
            match old(self)@.set_entry_result(idx, e@) {
                Ok(m) => r is Ok && final(self)@ == m,
                Err(err) => r == Err::<(), StorageError>(err) && final(self)@ == old(self)@,
            },
    {
        let ghost m0 = self@;
        if e.index != idx {
            return Err(StorageError::Corruption);
        }
        let first = self.first_index();
        if idx < first {
            return Err(StorageError::OverwriteCompacted);
        }
        let n = self.entries.len();
        let op_entry = e.duplicate();
        if n > 0 {
            let last = self.last_index();
            if idx - 1 > last {
                return Err(StorageError::GapInLog);
            }
            if idx <= last {
                let d: u64 = idx - first;
                assert(d < n);
                let pos = d as usize;
                proof {
                    assert(m0.entries[pos as int].index == first + pos);
                    lemma_image_update(m0, pos as int, op_entry);
                    lemma_apply_push(self.durable(), self.pending(), WriteOp::PutEntry(op_entry));
                }
                self.entries[pos] = e;
                self.pending.push(WriteOp::PutEntry(op_entry));
                proof {
                    assert(views(self.entries@) =~= m0.entries.update(pos as int, op_entry@));
                }
                return Ok(());
            }
            proof {
                assert(m0.entries[n - 1].index == m0.first() + n - 1);
            }
        }
        proof {
            lemma_image_push(m0, op_entry);
            lemma_apply_push(self.durable(), self.pending(), WriteOp::PutEntry(op_entry));
        }
        self.entries.push(e);
        self.pending.push(WriteOp::PutEntry(op_entry));
        proof {
            assert(views(self.entries@) =~= m0.entries.push(op_entry@));
            if n == 0 {
                assert(m0.entries.push(op_entry@) =~= seq![op_entry@]);
            }
        }
        Ok(())
    }

    /// Replaces the committed membership.
    pub fn set_conf_state(&mut self, conf_state: ConfState)
        requires
            old(self).wf(),
        ensures
            final(self).wf(),
            final(self)@ == (LogModel {
                raft_state: RaftStateView { conf_state: conf_state@, ..old(self)@.raft_state },
                ..old(self)@
            }),
    {
        let ghost m0 = self@;
        self.raft_state.conf_state = conf_state;
        let rs = self.raft_state.duplicate();
        proof {
            lemma_image_raft_state(m0, rs);
            lemma_apply_push(self.durable(), self.pending(), WriteOp::PutRaftState(rs));
        }
        self.pending.push(WriteOp::PutRaftState(rs));
    }

    /// Replaces the voting bookkeeping.
    pub fn set_hardstate(&mut self, hard_state: HardState)
        requires
            old(self).wf(),
        ensures
            final(self).wf(),
            final(self)@ == (LogModel {
                raft_state: RaftStateView { hard_state, ..old(self)@.raft_state },
                ..old(self)@
            }),
    {
        let ghost m0 = self@;
        self.raft_state.hard_state = hard_state;
        let rs = self.raft_state.duplicate();
        proof {
            lemma_image_raft_state(m0, rs);
            lemma_apply_push(self.durable(), self.pending(), WriteOp::PutRaftState(rs));
        }
        self.pending.push(WriteOp::PutRaftState(rs));
    }

    /// Hands over the writes recorded since the last call. Once they are
    /// committed, in order and as one batch, the backing store holds exactly
    /// the current state.
    pub fn take_writes(&mut self) -> (r: Vec<WriteOp>)
        requires
            old(self).wf(),
        ensures
            final(self).wf(),
            final(self)@ == old(self)@,
            apply_ops(old(self).durable(), r@) == old(self)@.image(),
            final(self).durable() == old(self)@.image(),
            final(self).pending().len() == 0,
    {
        let mut r: Vec<WriteOp> = Vec::new();
        std::mem::swap(&mut r, &mut self.pending);
        self.durable = Ghost(self@.image());
        r
    }

    /// Rebuilds the engine from persisted state: the watermark, the voting
    /// state and the entry records in key order. Fails with `Corruption`
    /// when a record's key differs from its entry's index, or when the
    /// records do not form a contiguous run above the watermark.
    pub fn restore(
        snapshot_metadata: SnapshotMetadata,
        raft_state: RaftState,
        records: Vec<(u64, EntryRef)>,
    ) -> (r: Result<RaftDB, StorageError>)
        ensures
            r is Ok <==> keys_match(records@) && restored(
                snapshot_metadata,
                raft_state@,
                records@,
            ).valid(),
            r is Err ==> r == Err::<RaftDB, StorageError>(StorageError::Corruption),
            r matches Ok(db) ==> {
                &&& db.wf()
                &&& db@ == restored(snapshot_metadata, raft_state@, records@)
                &&& db.durable() == db@.image()
                &&& db.pending().len() == 0
            },
    {
        let ghost model = restored(snapshot_metadata, raft_state@, records@);
        let ghost recs = record_entries(records@);
        if snapshot_metadata.index == NO_LIMIT {
            return Err(StorageError::Corruption);
        }
        let mut entries: Vec<EntryRef> = Vec::new();
        let mut i: usize = 0;
        while i < records.len()
            invariant
                recs == record_entries(records@),
                model == restored(snapshot_metadata, raft_state@, records@),
                snapshot_metadata.index < NO_LIMIT,
                i <= records@.len(),
                views(entries@) == recs.take(i as int),
                forall|j: int| 0 <= j < i ==> #[trigger] records@[j].0 == records@[j].1.index,
                forall|j: int| 0 <= j < i ==> #[trigger] recs[j].index == recs[0].index + j,
                i > 0 ==> recs[0].index > snapshot_metadata.index,
            decreases records@.len() - i,
        {
            let key = records[i].0;
            let e = &records[i].1;
            if key != e.index {
                return Err(StorageError::Corruption);
            }
            if i == 0 {
                if e.index <= snapshot_metadata.index {
                    proof {
                        assert(model.entries[0] == recs[0]);
                    }
                    return Err(StorageError::Corruption);
                }
            } else {
                let prev = records[i - 1].1.index;
                proof {
                    assert(recs[i as int].index == records@[i as int].1.index);
                    assert(recs[i - 1].index == records@[i - 1].1.index);
                    assert(recs[i - 1].index == recs[0].index + i - 1);
                }
                if prev == NO_LIMIT || e.index != prev + 1 {
                    proof {
                        assert(model.entries[0] == recs[0]);
                        assert(model.first() == recs[0].index);
                        assert(model.entries[i as int] == recs[i as int]);
                        assert(model.entries[i as int].index != model.first() + i);
                    }
                    return Err(StorageError::Corruption);
                }
            }
            proof {
                assert(recs[i as int].index == records@[i as int].1.index);
            }
            let ghost before = views(entries@);
            entries.push(e.duplicate());
            proof {
                assert(views(entries@) =~= before.push(recs[i as int]));
                assert(recs.take(i as int).push(recs[i as int]) =~= recs.take(i + 1));
            }
            i = i + 1;
        }
        let db = RaftDB {
            entries,
            raft_state,
            snapshot_metadata,
            pending: Vec::new(),
            durable: Ghost(model.image()),
        };
        proof {
            assert(recs.take(i as int) =~= recs);
            assert(db@ =~= model);
            if recs.len() > 0 {
                assert(model.first() == recs[0].index);
            }
            assert(model.valid());
        }
        Ok(db)
    }
}

/// The storage interface consumed by a consensus driver, over one engine.
pub struct RaftDiskStorage {
    raftdb: RaftDB,
}

impl View for RaftDiskStorage {
    type V = LogModel;

    open spec fn view(&self) -> LogModel {
        self.db()@
    }
}

impl RaftDiskStorage {
    /// The engine behind this interface.
    pub closed spec fn db(&self) -> RaftDB {
        self.raftdb
    }

    pub open spec fn wf(&self) -> bool {
        self.db().wf()
    }

    /// A fresh, empty log with no membership.
    pub fn new() -> (r: RaftDiskStorage)
        ensures
            r.wf(),
            r@ == LogModel::fresh(ConfStateView::empty()),
    {
        RaftDiskStorage { raftdb: RaftDB::new() }
    }

    /// A fresh, empty log for a brand-new node with the given membership.
    pub fn new_with_conf_state(conf_state: ConfState) -> (r: RaftDiskStorage)
        ensures
            r.wf(),
            r@ == LogModel::fresh(conf_state@),
    {
        let mut store = RaftDiskStorage::new();
        store.initialize_with_conf_state(conf_state);
        store
    }

    /// Rebuilds the interface from persisted state; see `RaftDB::restore`.
    pub fn restore(
        snapshot_metadata: SnapshotMetadata,
        raft_state: RaftState,
        records: Vec<(u64, EntryRef)>,
    ) -> (r: Result<RaftDiskStorage, StorageError>)
        ensures
            r is Ok <==> keys_match(records@) && restored(
                snapshot_metadata,
                raft_state@,
                records@,
            ).valid(),
            r is Err ==> r == Err::<RaftDiskStorage, StorageError>(StorageError::Corruption),
            r matches Ok(s) ==> {
                &&& s.wf()
                &&& s@ == restored(snapshot_metadata, raft_state@, records@)
                &&& s.db().durable() == s@.image()
                &&& s.db().pending().len() == 0
            },
    {
        match RaftDB::restore(snapshot_metadata, raft_state, records) {
            Ok(raftdb) => Ok(RaftDiskStorage { raftdb }),
            Err(e) => Err(e),
        }
    }

    /// Seeds the membership of a node that has none yet.
    pub fn initialize_with_conf_state(&mut self, conf_state: ConfState)
        requires
            old(self).wf(),
            !old(self)@.raft_state.initialized(),
        ensures
            final(self).wf(),
            final(self)@ == (LogModel {
                raft_state: RaftStateView { conf_state: conf_state@, ..old(self)@.raft_state },
                ..old(self)@
            }),
    {
        self.raftdb.set_conf_state(conf_state);
    }

    /// Shared access to the engine.
    pub fn rl(&self) -> (r: &RaftDB)
        ensures
            *r == self.db(),
    {
        &self.raftdb
    }

    /// Exclusive access to the engine.
    pub fn wl(&mut self) -> (r: &mut RaftDB)
        ensures
            *r == old(self).db(),
            final(self).db() == *final(r),
    {
        &mut self.raftdb
    }

    /// Voting state and membership, for the driver's start-up.
    pub fn initial_state(&self) -> (r: Result<RaftState, StorageError>)
        ensures
            r is Ok,
            r->Ok_0@ == self@.raft_state,
    {
        Ok(self.raftdb.raft_state.duplicate())
    }

    /// The entries with indices in `[low, high)`, cut down to the longest
    /// prefix that fits in `max_size` bytes but never to fewer than one entry.
    /// Fails with `CompactedLog` when `low` lies below the first retained
    /// index.
    pub fn entries(&self, low: u64, high: u64, max_size: Option<u64>) -> (r: Result<
        Vec<EntryRef>,
        StorageError,
    >)
        requires
            self.wf(),
            high <= self@.last() + 1,
        ensures
            match self@.entries_of(low, high, max_size) {
                Ok(s) => r is Ok && views(r->Ok_0@) == s,
                Err(e) => r == Err::<Vec<EntryRef>, StorageError>(e),
            },
    {
        let core = &self.raftdb;
        let first = core.first_index();
        if low < first {
            return Err(StorageError::CompactedLog);
        }
        let mut ents: Vec<EntryRef> = Vec::new();
        if high <= low {
            proof {
                assert(views(ents@) =~= Seq::<LogEntry>::empty());
            }
            return Ok(ents);
        }
        let mut k: u64 = low;
        while k < high
            invariant
                core.wf(),
                core@ == self@,
                first == self@.first(),
                first <= low <= k <= high <= self@.last() + 1,
                views(ents@) == self@.range(low as int, k as int),
            decreases high - k,
        {
            let n = core.entries.len();
            let d: u64 = k - first;
            assert(d < n);
            let ghost before = views(ents@);
            ents.push(core.entries[d as usize].duplicate());
            proof {
                assert(views(ents@) =~= before.push(self@.entries[k - first]));
                assert(self@.range(low as int, k as int).push(self@.entries[k - first])
                    =~= self@.range(low as int, k + 1));
            }
            k = k + 1;
        }
        limit_size(&mut ents, max_size);
        Ok(ents)
    }

    /// The term of the entry at `idx`. The watermark answers for its own
    /// index even after that entry was compacted away.
    pub fn term(&self, idx: u64) -> (r: Result<u64, StorageError>)
        requires
            self.wf(),
        ensures
            r == self@.term_of(idx),
    {
        let core = &self.raftdb;
        if idx == core.snapshot_metadata.index {
            return Ok(core.snapshot_metadata.term);
        }
        let offset = core.first_index();
        if idx < offset {
            return Err(StorageError::CompactedLog);
        }
        if idx > core.last_index() {
            return Err(StorageError::Unavailable);
        }
        match core.get_entry(idx) {
            Ok(e) => Ok(e.term),
            Err(_) => Err(StorageError::Unavailable),
        }
    }

    /// First retained index.
    pub fn first_index(&self) -> (r: Result<u64, StorageError>)
        requires
            self.wf(),
        ensures
            r == Ok::<u64, StorageError>(self@.first() as u64),
    {
        Ok(self.raftdb.first_index())
    }

    /// Last retained index.
    pub fn last_index(&self) -> (r: Result<u64, StorageError>)
        requires
            self.wf(),
        ensures
            r == Ok::<u64, StorageError>(self@.last() as u64),
    {
        Ok(self.raftdb.last_index())
    }

    /// A descriptor of the latest snapshot for transfer to node `to`: the
    /// watermark and the committed membership. The application state that
    /// goes with it is held outside this engine, so the payload is empty.
    /// Asks the caller to retry while no snapshot reaches `request_index`.
    pub fn snapshot(&self, request_index: u64, to: u64) -> (r: Result<Snapshot, StorageError>)
        ensures
            request_index > self@.snapshot.index ==> r == Err::<Snapshot, StorageError>(
                StorageError::SnapshotTemporarilyUnavailable,
            ),
            request_index <= self@.snapshot.index ==> (r matches Ok(snap) && snap.metadata
                == self@.snapshot && snap.conf_state@ == self@.raft_state.conf_state
                && snap.data@.len() == 0),
    {
        let core = &self.raftdb;
        if request_index > core.snapshot_metadata.index {
            return Err(StorageError::SnapshotTemporarilyUnavailable);
        }
        Ok(
            Snapshot {
                data: Vec::new(),
                metadata: core.snapshot_metadata,
                conf_state: core.raft_state.conf_state.duplicate(),
            },
        )
    }

    /// Appends a batch of entries; see `RaftDB::append`.
    pub fn append(&mut self, ents: &[EntryRef]) -> (r: Result<(), StorageError>)
        requires
            old(self).wf(),
        ensures
            final(self).wf(),
            match old(self)@.append_result(views(ents@)) {
                Ok(m) => r is Ok && final(self)@ == m,
                Err(e) => r == Err::<(), StorageError>(e) && final(self)@ == old(self)@,
            },
    {
        self.raftdb.append(ents)
    }

    /// Discards the log below `compact_index`; see `RaftDB::compact`.
    pub fn compact(&mut self, compact_index: u64) -> (r: Result<(), StorageError>)
        requires
            old(self).wf(),
            compact_index <= old(self)@.last() + 1,
        ensures
            final(self).wf(),
            r is Ok,
            final(self)@ == old(self)@.compact_result(compact_index),
    {
        self.raftdb.compact(compact_index)
    }
}

} // verus!

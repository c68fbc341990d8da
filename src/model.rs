//! The mathematical model of the log storage engine, and of the durable
//! ordered map that backs it.

use vstd::prelude::*;

use crate::entry::{EntryRef, LogEntry};
use crate::error::StorageError;
use crate::limit::{limited, NO_LIMIT};
use crate::state::{ConfStateView, HardState, RaftState, RaftStateView, SnapshotMetadata};

verus! {

/// The retained log, the snapshot watermark and the voting state.
#[verifier::ext_equal]
pub struct LogModel {
    /// The retained entries, in index order.
    pub entries: Seq<LogEntry>,
    pub snapshot: SnapshotMetadata,
    pub raft_state: RaftStateView,
}

/// Every index of a batch follows the one before it.
pub open spec fn consecutive(batch: Seq<LogEntry>) -> bool {
    forall|i: int| 0 <= i < batch.len() ==> #[trigger] batch[i].index == batch[0].index + i
}

impl LogModel {
    /// A log that was never written, for a node with membership `conf_state`.
    pub open spec fn fresh(conf_state: ConfStateView) -> LogModel {
        LogModel {
            entries: Seq::empty(),
            snapshot: SnapshotMetadata { index: 0, term: 0 },
            raft_state: RaftStateView {
                hard_state: HardState { term: 0, vote: 0, commit: 0 },
                conf_state,
            },
        }
    }

    /// First retained index; one past the watermark when nothing is retained.
    pub open spec fn first(self) -> int {
        if self.entries.len() > 0 {
            self.entries[0].index as int
        } else {
            self.snapshot.index + 1
        }
    }

    /// Last retained index; the watermark when nothing is retained.
    pub open spec fn last(self) -> int {
        self.first() + self.entries.len() - 1
    }

    /// Retained indices are contiguous and lie above the watermark.
    pub open spec fn valid(self) -> bool {
        &&& self.snapshot.index < NO_LIMIT
        &&& self.entries.len() > 0 ==> self.entries[0].index > self.snapshot.index
        &&& forall|i: int|
            0 <= i < self.entries.len() ==> #[trigger] self.entries[i].index == self.first() + i
    }

    /// Whether an entry is retained at `idx`.
    pub open spec fn stores(self, idx: int) -> bool {
        self.first() <= idx <= self.last()
    }

    /// The entry retained at `idx`.
    pub open spec fn entry_at(self, idx: int) -> LogEntry {
        self.entries[idx - self.first()]
    }

    /// The term of the entry at `idx`; the watermark answers for its own index.
    pub open spec fn term_of(self, idx: u64) -> Result<u64, StorageError> {
        if idx == self.snapshot.index {
            Ok(self.snapshot.term)
        } else if idx < self.first() {
            Err(StorageError::CompactedLog)
        } else if idx > self.last() {
            Err(StorageError::Unavailable)
        } else {
            Ok(self.entry_at(idx as int).term)
        }
    }

    /// The retained entries with indices in `[low, high)`.
    pub open spec fn range(self, low: int, high: int) -> Seq<LogEntry> {
        self.entries.subrange(low - self.first(), high - self.first())
    }

    /// What a read of `[low, high)` under the size bound `max` returns.
    pub open spec fn entries_of(self, low: u64, high: u64, max: Option<u64>) -> Result<
        Seq<LogEntry>,
        StorageError,
    > {
        if low < self.first() {
            Err(StorageError::CompactedLog)
        } else if high <= low {
            Ok(Seq::empty())
        } else {
            Ok(limited(self.range(low as int, high as int), max))
        }
    }

    /// The log after appending `batch`: the retained entries below the batch's
    /// first index, then the batch.
    pub open spec fn append_result(self, batch: Seq<LogEntry>) -> Result<LogModel, StorageError> {
        if batch.len() == 0 {
            Ok(self)
        } else if batch[0].index < self.first() {
            Err(StorageError::OverwriteCompacted)
        } else if batch[0].index > self.last() + 1 || !consecutive(batch) {
            Err(StorageError::GapInLog)
        } else {
            Ok(
                LogModel {
                    entries: self.entries.take(batch[0].index - self.first()) + batch,
                    ..self
                },
            )
        }
    }

    /// The log after discarding every entry below `idx`; the watermark moves
    /// to the last discarded entry.
    pub open spec fn compact_result(self, idx: u64) -> LogModel {
        if idx <= self.first() {
            self
        } else {
            LogModel {
                entries: self.entries.skip(idx - self.first()),
                snapshot: SnapshotMetadata {
                    index: (idx - 1) as u64,
                    term: self.entry_at(idx - 1).term,
                },
                ..self
            }
        }
    }

    /// The log after writing `e` at `idx` in place, without truncation.
    pub open spec fn set_entry_result(self, idx: u64, e: LogEntry) -> Result<
        LogModel,
        StorageError,
    > {
        if e.index != idx {
            Err(StorageError::Corruption)
        } else if idx < self.first() {
            Err(StorageError::OverwriteCompacted)
        } else if self.entries.len() > 0 && idx > self.last() + 1 {
            Err(StorageError::GapInLog)
        } else if self.entries.len() == 0 {
            Ok(LogModel { entries: seq![e], ..self })
        } else if idx == self.last() + 1 {
            Ok(LogModel { entries: self.entries.push(e), ..self })
        } else {
            Ok(LogModel { entries: self.entries.update(idx - self.first(), e), ..self })
        }
    }

    /// What the durable ordered map holds for this state.
    pub open spec fn image(self) -> DurableImage {
        DurableImage {
            entries: Map::new(
                |k: u64| self.first() <= k <= self.last(),
                |k: u64| self.entry_at(k as int),
            ),
            snapshot: self.snapshot,
            raft_state: self.raft_state,
        }
    }
}

/// Contents of the durable ordered map: entries keyed by index, plus the
/// watermark and the voting state.
#[verifier::ext_equal]
pub struct DurableImage {
    pub entries: Map<u64, LogEntry>,
    pub snapshot: SnapshotMetadata,
    pub raft_state: RaftStateView,
}

/// One write to the durable ordered map. A batch of them is applied
/// atomically, in order.
#[derive(Debug)]
pub enum WriteOp {
    PutEntry(EntryRef),
    DeleteEntry(u64),
    PutSnapshot(SnapshotMetadata),
    PutRaftState(RaftState),
}

/// The durable contents after one write.
pub open spec fn apply_op(img: DurableImage, op: WriteOp) -> DurableImage {
    match op {
        WriteOp::PutEntry(e) => DurableImage { entries: img.entries.insert(e.index, e@), ..img },
        WriteOp::DeleteEntry(k) => DurableImage { entries: img.entries.remove(k), ..img },
        WriteOp::PutSnapshot(m) => DurableImage { snapshot: m, ..img },
        WriteOp::PutRaftState(s) => DurableImage { raft_state: s@, ..img },
    }
}

/// The durable contents after a batch of writes, applied in order.
pub open spec fn apply_ops(img: DurableImage, ops: Seq<WriteOp>) -> DurableImage
    decreases ops.len(),
{
    if ops.len() == 0 {
        img
    } else {
        apply_op(apply_ops(img, ops.drop_last()), ops.last())
    }
}

/// Applying one more write at the end of a batch.
pub proof fn lemma_apply_push(img: DurableImage, ops: Seq<WriteOp>, op: WriteOp)
    ensures
        apply_ops(img, ops.push(op)) == apply_op(apply_ops(img, ops), op),
{
    assert(ops.push(op).drop_last() =~= ops);
}

/// Appending one entry right after the last retained one (or, when nothing
/// is retained, anywhere above the watermark) puts that entry.
pub proof fn lemma_image_push(m: LogModel, e: EntryRef)
    requires
        m.valid(),
        m.entries.len() > 0 ==> e.index == m.last() + 1,
        m.entries.len() == 0 ==> e.index > m.snapshot.index,
    ensures
        (LogModel { entries: m.entries.push(e@), ..m }).valid(),
        (LogModel { entries: m.entries.push(e@), ..m }).image() == apply_op(
            m.image(),
            WriteOp::PutEntry(e),
        ),
{
    let m2 = LogModel { entries: m.entries.push(e@), ..m };
    if m.entries.len() > 0 {
        assert(m2.entries[0] == m.entries[0]);
        assert(m2.first() == m.first());
    } else {
        assert(m2.entries[0] == e@);
    }
    assert forall|i: int| 0 <= i < m2.entries.len() implies #[trigger] m2.entries[i].index
        == m2.first() + i by {
        if i < m.entries.len() {
            assert(m2.entries[i] == m.entries[i]);
        }
    }
    assert(m2.image() =~= apply_op(m.image(), WriteOp::PutEntry(e)));
}

/// Dropping the last entry of a valid log deletes its index.
pub proof fn lemma_image_pop(m: LogModel)
    requires
        m.valid(),
        m.entries.len() > 0,
    ensures
        (LogModel { entries: m.entries.drop_last(), ..m }).valid(),
        (LogModel { entries: m.entries.drop_last(), ..m }).image() == apply_op(
            m.image(),
            WriteOp::DeleteEntry(m.last() as u64),
        ),
{
    let m2 = LogModel { entries: m.entries.drop_last(), ..m };
    assert(m.entries[m.entries.len() - 1].index == m.last());
    if m2.entries.len() > 0 {
        assert(m2.entries[0] == m.entries[0]);
        assert(m2.first() == m.first());
        assert forall|i: int| 0 <= i < m2.entries.len() implies #[trigger] m2.entries[i].index
            == m2.first() + i by {
            assert(m2.entries[i] == m.entries[i]);
        }
    }
    assert(m2.image() =~= apply_op(m.image(), WriteOp::DeleteEntry(m.last() as u64)));
}

/// Dropping the first entry of a valid log deletes its index.
pub proof fn lemma_image_drop_first(m: LogModel)
    requires
        m.valid(),
        m.entries.len() > 0,
    ensures
        (LogModel { entries: m.entries.drop_first(), ..m }).valid(),
        (LogModel { entries: m.entries.drop_first(), ..m }).image() == apply_op(
            m.image(),
            WriteOp::DeleteEntry(m.first() as u64),
        ),
{
    let m2 = LogModel { entries: m.entries.drop_first(), ..m };
    assert(m.entries[0].index == m.first());
    if m2.entries.len() > 0 {
        assert(m2.entries[0] == m.entries[1]);
        assert(m.entries[1].index == m.first() + 1);
        assert(m2.first() == m.first() + 1);
    }
    assert forall|i: int| 0 <= i < m2.entries.len() implies #[trigger] m2.entries[i].index
        == m2.first() + i by {
        assert(m2.entries[i] == m.entries[i + 1]);
        assert(m.entries[i + 1].index == m.first() + i + 1);
    }
    assert forall|k: u64| #[trigger] m2.image().entries.contains_key(k) implies m2.image().entries[k]
        == m.image().entries[k] by {
        assert(m2.entries[k - m2.first()] == m.entries[k - m.first()]);
    }
    assert(m2.image() =~= apply_op(m.image(), WriteOp::DeleteEntry(m.first() as u64)));
}

/// Rewriting a retained entry in place, at its own index, puts that entry.
pub proof fn lemma_image_update(m: LogModel, i: int, e: EntryRef)
    requires
        m.valid(),
        0 <= i < m.entries.len(),
        e.index == m.entries[i].index,
    ensures
        (LogModel { entries: m.entries.update(i, e@), ..m }).valid(),
        (LogModel { entries: m.entries.update(i, e@), ..m }).image() == apply_op(
            m.image(),
            WriteOp::PutEntry(e),
        ),
{
    let m2 = LogModel { entries: m.entries.update(i, e@), ..m };
    assert(m2.entries[0].index == m.entries[0].index);
    assert(m2.first() == m.first());
    assert forall|j: int| 0 <= j < m2.entries.len() implies #[trigger] m2.entries[j].index
        == m2.first() + j by {
        if j != i {
            assert(m2.entries[j] == m.entries[j]);
        }
    }
    assert(m2.image() =~= apply_op(m.image(), WriteOp::PutEntry(e)));
}

/// Moving the watermark of a valid log, to below its first retained entry,
/// is one write.
pub proof fn lemma_image_snapshot(m: LogModel, s: SnapshotMetadata)
    requires
        m.valid(),
        s.index < NO_LIMIT,
        m.entries.len() > 0 ==> m.entries[0].index > s.index,
    ensures
        (LogModel { snapshot: s, ..m }).valid(),
        (LogModel { snapshot: s, ..m }).image() == apply_op(m.image(), WriteOp::PutSnapshot(s)),
{
    let m2 = LogModel { snapshot: s, ..m };
    assert(m2.image() =~= apply_op(m.image(), WriteOp::PutSnapshot(s)));
}

/// Replacing the voting state is one write.
pub proof fn lemma_image_raft_state(m: LogModel, rs: RaftState)
    requires
        m.valid(),
    ensures
        (LogModel { raft_state: rs@, ..m }).valid(),
        (LogModel { raft_state: rs@, ..m }).image() == apply_op(
            m.image(),
            WriteOp::PutRaftState(rs),
        ),
{
    let m2 = LogModel { raft_state: rs@, ..m };
    assert(m2.image() =~= apply_op(m.image(), WriteOp::PutRaftState(rs)));
}

} // verus!

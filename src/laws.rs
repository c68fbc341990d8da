//! Properties of the log model that hold across operations.

use vstd::prelude::*;

use crate::entry::LogEntry;
use crate::error::StorageError;
use crate::limit::{fits, is_limit, limit_len, limited, unbounded};
use crate::model::{consecutive, LogModel};

verus! {

/// Some count of surviving entries always exists.
pub proof fn lemma_limit_exists(s: Seq<LogEntry>, max: Option<u64>)
    ensures
        is_limit(s, max, limit_len(s, max)),
{
    if s.len() <= 1 || unbounded(max) {
        assert(is_limit(s, max, s.len()));
    } else {
        lemma_limit_exists_from(s, max, 1);
    }
}

proof fn lemma_limit_exists_from(s: Seq<LogEntry>, max: Option<u64>, k: nat)
    requires
        !(s.len() <= 1 || unbounded(max)),
        1 <= k <= s.len(),
        fits(s, max->0, k),
    ensures
        is_limit(s, max, limit_len(s, max)),
    decreases s.len() - k,
{
    if k < s.len() && fits(s, max->0, k + 1) {
        lemma_limit_exists_from(s, max, k + 1);
    } else {
        assert(is_limit(s, max, k));
    }
}

/// After appending a non-empty batch of consecutive entries that starts
/// within `[first_index, last_index + 1]`, the last index is the batch's last
/// index and the first index has not moved.
pub proof fn lemma_append_sets_last_index(m: LogModel, batch: Seq<LogEntry>)
    requires
        m.valid(),
        batch.len() > 0,
        consecutive(batch),
        m.first() <= batch[0].index <= m.last() + 1,
    ensures
        m.append_result(batch) matches Ok(m2) && m2.valid() && m2.last() == batch.last().index
            && m2.first() == m.first(),
{
    let keep = batch[0].index - m.first();
    let m2 = LogModel { entries: m.entries.take(keep) + batch, ..m };
    assert(m.append_result(batch) == Ok::<LogModel, StorageError>(m2));
    if keep > 0 {
        assert(m2.entries[0] == m.entries[0]);
    } else {
        assert(m2.entries[0] == batch[0]);
        if m.entries.len() > 0 {
            assert(m.entries[0].index == m.first());
        }
    }
    assert(m2.first() == m.first());
    assert forall|i: int| 0 <= i < m2.entries.len() implies #[trigger] m2.entries[i].index
        == m2.first() + i by {
        if i < keep {
            assert(m2.entries[i] == m.entries[i]);
        } else {
            assert(m2.entries[i] == batch[i - keep]);
            assert(batch[i - keep].index == batch[0].index + (i - keep));
        }
    }
    if m.entries.len() > 0 {
        assert(m.entries[0].index == m.first());
    }
    assert(batch[batch.len() - 1].index == batch[0].index + batch.len() - 1);
}

/// Compacting up to an index at or below the first retained one changes
/// nothing.
pub proof fn lemma_compact_below_first_is_noop(m: LogModel, idx: u64)
    requires
        m.valid(),
        idx <= m.first(),
    ensures
        m.compact_result(idx) == m,
{
}

/// Compacting up to `idx` within `(first_index, last_index + 1]` makes `idx`
/// the first index, and any read that starts below it fails with
/// `CompactedLog`.
pub proof fn lemma_compact_moves_first_index(m: LogModel, idx: u64)
    requires
        m.valid(),
        m.first() < idx <= m.last() + 1,
    ensures
        m.compact_result(idx).valid(),
        m.compact_result(idx).first() == idx,
        forall|low: u64, high: u64, max: Option<u64>|
            low < idx ==> #[trigger] m.compact_result(idx).entries_of(low, high, max) == Err::<
                Seq<LogEntry>,
                StorageError,
            >(StorageError::CompactedLog),
{
    let m2 = m.compact_result(idx);
    let d = idx - m.first();
    if m2.entries.len() > 0 {
        assert(m2.entries[0] == m.entries[d]);
        assert(m.entries[d].index == m.first() + d);
    }
    assert forall|i: int| 0 <= i < m2.entries.len() implies #[trigger] m2.entries[i].index
        == m2.first() + i by {
        assert(m2.entries[i] == m.entries[d + i]);
        assert(m.entries[d + i].index == m.first() + d + i);
    }
}

/// The term of the last compacted entry stays known after compaction.
pub proof fn lemma_boundary_term_survives_compaction(m: LogModel, idx: u64)
    requires
        m.valid(),
        m.first() < idx <= m.last() + 1,
    ensures
        m.compact_result(idx).term_of((idx - 1) as u64) == m.term_of((idx - 1) as u64),
        m.term_of((idx - 1) as u64) == Ok::<u64, StorageError>(m.entry_at(idx - 1).term),
{
    if m.entries.len() > 0 {
        assert(m.entries[0].index == m.first());
    }
}

/// A read of a non-empty range returns at least one entry, whatever the
/// size bound.
pub proof fn lemma_entries_never_empty(m: LogModel, low: u64, high: u64, max: Option<u64>)
    requires
        m.valid(),
        m.first() <= low < high <= m.last() + 1,
    ensures
        m.entries_of(low, high, max) matches Ok(s) && s.len() >= 1,
{
    let s = m.range(low as int, high as int);
    lemma_limit_exists(s, max);
    assert(limited(s, max).len() == limit_len(s, max));
}

/// Appending at a retained index with a different term discards every
/// entry beyond the batch: those indices are no longer available, and the
/// batch's indices hold the batch.
pub proof fn lemma_conflicting_append_truncates(m: LogModel, batch: Seq<LogEntry>)
    requires
        m.valid(),
        batch.len() > 0,
        consecutive(batch),
        m.stores(batch[0].index as int),
        m.entry_at(batch[0].index as int).term != batch[0].term,
    ensures
        m.append_result(batch) matches Ok(m2) && m2.last() == batch.last().index && (forall|
            idx: u64,
        | idx > batch.last().index ==> #[trigger] m2.term_of(idx) == Err::<u64, StorageError>(
            StorageError::Unavailable,
        )) && (forall|i: int| 0 <= i < batch.len() ==> #[trigger] m2.entry_at(batch[0].index + i) == batch[i]),
{
    lemma_append_sets_last_index(m, batch);
    let m2 = m.append_result(batch)->Ok_0;
    let keep = batch[0].index - m.first();
    assert(m.entries[0].index == m.first());
    assert(m2.snapshot == m.snapshot);
    assert forall|i: int| 0 <= i < batch.len() implies #[trigger] m2.entry_at(batch[0].index + i)
        == batch[i] by {
        assert(m2.entries[keep + i] == batch[i]);
    }
}

/// Two well-formed states with the same durable image are the same state:
/// the first index, the last index and every term are derived from what is
/// persisted alone.
pub proof fn lemma_image_determines_state(a: LogModel, b: LogModel)
    requires
        a.valid(),
        b.valid(),
        a.image() == b.image(),
    ensures
        a == b,
        a.first() == b.first(),
        a.last() == b.last(),
        forall|idx: u64| #[trigger] a.term_of(idx) == b.term_of(idx),
{
    lemma_domain(a);
    lemma_domain(b);
    if a.entries.len() > 0 {
        let k = a.first() as u64;
        assert(a.image().entries.contains_key(k));
        assert(b.image().entries.contains_key(k));
    }
    if b.entries.len() > 0 {
        let k = b.first() as u64;
        assert(b.image().entries.contains_key(k));
        assert(a.image().entries.contains_key(k));
    }
    if a.entries.len() > 0 && b.entries.len() > 0 {
        let ka = a.last() as u64;
        let kb = b.last() as u64;
        assert(a.image().entries.contains_key(ka));
        assert(b.image().entries.contains_key(kb));
        assert(a.first() == b.first());
        assert(a.last() == b.last());
        assert forall|i: int| 0 <= i < a.entries.len() implies a.entries[i] == b.entries[i] by {
            let k = (a.first() + i) as u64;
            assert(a.image().entries.contains_key(k));
            assert(a.image().entries[k] == a.entries[i]);
            assert(b.image().entries[k] == b.entries[i]);
        }
    }
    assert(a.entries =~= b.entries);
    assert(a =~= b);
}

/// The first and last retained indices fit in `u64`.
proof fn lemma_domain(m: LogModel)
    requires
        m.valid(),
    ensures
        0 <= m.first() <= u64::MAX,
        m.entries.len() > 0 ==> m.first() <= m.last() <= u64::MAX,
{
    if m.entries.len() > 0 {
        assert(m.entries[0].index == m.first());
        assert(m.entries[m.entries.len() - 1].index == m.first() + m.entries.len() - 1);
    }
}

} // verus!

//! Bounding a batch of entries by cumulative byte size.

use vstd::prelude::*;

use crate::entry::{EntryRef, LogEntry};

verus! {

/// A size bound that stands for "no bound at all".
pub const NO_LIMIT: u64 = 0xffff_ffff_ffff_ffff;

/// Bytes charged to every entry on top of its payload and context.
pub const ENTRY_OVERHEAD: u64 = 4;

/// The views of a sequence of entries.
pub open spec fn views(s: Seq<EntryRef>) -> Seq<LogEntry> {
    s.map_values(|e: EntryRef| e@)
}

/// Size charged to one entry: payload plus context plus the fixed overhead.
pub open spec fn entry_size(e: LogEntry) -> int {
    e.data.len() + e.context.len() + ENTRY_OVERHEAD
}

/// Cumulative size of the first `k` entries of `s`.
pub open spec fn prefix_size(s: Seq<LogEntry>, k: nat) -> int
    decreases k,
{
    if k == 0 {
        0
    } else {
        prefix_size(s, (k - 1) as nat) + entry_size(s[k - 1])
    }
}

/// Whether a size bound is absent.
pub open spec fn unbounded(max: Option<u64>) -> bool {
    max is None || max == Some(NO_LIMIT)
}

/// Keeping `k` entries respects `max`: the first entry is always allowed.
pub open spec fn fits(s: Seq<LogEntry>, max: u64, k: nat) -> bool {
    k == 1 || prefix_size(s, k) <= max
}

/// `k` is the number of entries that survive size limiting: all of them when
/// there is at most one or no bound, else the longest non-empty prefix that fits.
pub open spec fn is_limit(s: Seq<LogEntry>, max: Option<u64>, k: nat) -> bool {
    if s.len() <= 1 || unbounded(max) {
        k == s.len()
    } else {
        &&& 1 <= k <= s.len()
        &&& fits(s, max->0, k)
        &&& k < s.len() ==> !fits(s, max->0, k + 1)
    }
}

/// The number of entries that survive size limiting.
pub open spec fn limit_len(s: Seq<LogEntry>, max: Option<u64>) -> nat {
    choose|k: nat| is_limit(s, max, k)
}

/// The entries that survive size limiting.
pub open spec fn limited(s: Seq<LogEntry>, max: Option<u64>) -> Seq<LogEntry> {
    s.take(limit_len(s, max) as int)
}

/// Cumulative sizes grow with the prefix, strictly.
pub proof fn lemma_prefix_size_increasing(s: Seq<LogEntry>, a: nat, b: nat)
    requires
        a < b <= s.len(),
    ensures
        prefix_size(s, a) < prefix_size(s, b),
    decreases b - a,
{
    if a + 1 < b {
        lemma_prefix_size_increasing(s, a, (b - 1) as nat);
    }
}

/// Only one count satisfies `is_limit`.
pub proof fn lemma_limit_unique(s: Seq<LogEntry>, max: Option<u64>, k: nat)
    requires
        is_limit(s, max, k),
    ensures
        limit_len(s, max) == k,
{
    let j = limit_len(s, max);
    assert(is_limit(s, max, j));
    if !(s.len() <= 1 || unbounded(max)) && j != k {
        let (lo, hi) = if j < k { (j, k) } else { (k, j) };
        if lo + 1 < hi {
            lemma_prefix_size_increasing(s, lo + 1, hi);
        }
    }
}

/// Size charged to one entry. Counted in `u128` so that no byte count can
/// overflow.
pub fn compute_size(ent: &EntryRef) -> (r: u128)
    ensures
        r == entry_size(ent@),
        r <= 0x2_0000_0000_0000_0002,
{
    ent.data.len() as u128 + ent.context.len() as u128 + ENTRY_OVERHEAD as u128
}

/// Truncates `entries` to the longest prefix whose cumulative size is at most
/// `max`, keeping the first entry whatever its size. Leaves `entries` alone
/// when it holds at most one entry or when there is no bound.
pub fn limit_size(entries: &mut Vec<EntryRef>, max: Option<u64>)
    ensures
        views(final(entries)@) == limited(views(old(entries)@), max),
        is_limit(views(old(entries)@), max, final(entries)@.len()),
{
    let ghost s = views(entries@);
    if entries.len() <= 1 {
        proof { lemma_limit_unique(s, max, s.len()); }
        return;
    }
    let max = match max {
        None => {
            proof { lemma_limit_unique(s, max, s.len()); }
            return;
        },
        Some(m) => {
            if m == NO_LIMIT {
                proof { lemma_limit_unique(s, max, s.len()); }
                return;
            }
            m
        },
    };
    let mut size: u128 = compute_size(&entries[0]);
    let mut limit: usize = 1;
    assert(prefix_size(s, 1) == entry_size(s[0])) by {
        assert(prefix_size(s, 0) == 0);
    }
    while limit < entries.len()
        invariant
            s == views(entries@),
            entries@.len() >= 2,
            1 <= limit <= entries@.len(),
            size == prefix_size(s, limit as nat),
            size <= 0x4_0000_0000_0000_0000,
            fits(s, max, limit as nat),
        ensures
            1 <= limit <= entries@.len(),
            fits(s, max, limit as nat),
            limit < entries@.len() ==> !fits(s, max, (limit + 1) as nat),
        decreases entries@.len() - limit,
    {
        let next = size + compute_size(&entries[limit]);
        if next > max as u128 {
            break;
        }
        size = next;
        limit = limit + 1;
    }
    entries.truncate(limit);
    proof {
        lemma_limit_unique(s, Some(max), limit as nat);
        assert(views(entries@) =~= s.take(limit as int));
    }
}

} // verus!

use std::collections::BTreeMap;

use fekv::entry::{EntryRef, EntryTypeRef};
use fekv::error::StorageError;
use fekv::limit::{compute_size, limit_size, NO_LIMIT};
use fekv::model::WriteOp;
use fekv::raftstore::{RaftDB, RaftDiskStorage};
use fekv::state::{ConfState, HardState, RaftState, SnapshotMetadata};

fn entry(index: u64, term: u64) -> EntryRef {
    let mut e = EntryRef::new();
    e.index = index;
    e.term = term;
    e
}

fn entry_with_data(index: u64, term: u64, data: &[u8], context: &[u8]) -> EntryRef {
    let mut e = entry(index, term);
    e.data = data.to_vec();
    e.context = context.to_vec();
    e
}

fn empty_state() -> RaftState {
    RaftState::new(HardState::new(), ConfState::new())
}

/// An empty log whose watermark sits at (2, 2), so that index 3 comes next.
fn store_after_two() -> RaftDiskStorage {
    RaftDiskStorage::restore(SnapshotMetadata { index: 2, term: 2 }, empty_state(), Vec::new())
        .unwrap()
}

/// Scenario A: (3,3), (4,4), (5,5) appended.
fn scenario_a() -> RaftDiskStorage {
    let mut s = store_after_two();
    s.append(&[entry(3, 3), entry(4, 4), entry(5, 5)]).unwrap();
    s
}

/// What a backing store holds, fed by the engine's write batches.
struct Disk {
    entries: BTreeMap<u64, EntryRef>,
    snapshot: SnapshotMetadata,
    raft_state: RaftState,
}

impl Disk {
    fn new() -> Disk {
        Disk { entries: BTreeMap::new(), snapshot: SnapshotMetadata::new(), raft_state: empty_state() }
    }

    fn commit(&mut self, db: &mut RaftDB) {
        for op in db.take_writes() {
            match op {
                WriteOp::PutEntry(e) => {
                    self.entries.insert(e.index, e);
                }
                WriteOp::DeleteEntry(k) => {
                    self.entries.remove(&k);
                }
                WriteOp::PutSnapshot(m) => self.snapshot = m,
                WriteOp::PutRaftState(s) => self.raft_state = s,
            }
        }
    }

    fn reopen(&self) -> RaftDiskStorage {
        let records: Vec<(u64, EntryRef)> =
            self.entries.iter().map(|(k, e)| (*k, e.clone())).collect();
        RaftDiskStorage::restore(self.snapshot, self.raft_state.clone(), records).unwrap()
    }
}

#[test]
fn scenario_a_term_and_entries() {
    let s = scenario_a();
    assert_eq!(s.term(4), Ok(4));
    assert_eq!(s.entries(4, 6, None), Ok(vec![entry(4, 4), entry(5, 5)]));
    assert_eq!(s.first_index(), Ok(3));
    assert_eq!(s.last_index(), Ok(5));
}

#[test]
fn scenario_b_compact_moves_first_index() {
    let mut s = scenario_a();
    s.compact(4).unwrap();
    assert_eq!(s.first_index(), Ok(4));
    assert_eq!(s.entries(3, 4, None), Err(StorageError::CompactedLog));
    // The watermark now sits at index 3 and still answers for its term.
    assert_eq!(s.term(3), Ok(3));
    assert_eq!(s.term(2), Err(StorageError::CompactedLog));
}

#[test]
fn scenario_c_conflicting_append_discards_suffix() {
    let mut s = scenario_a();
    s.append(&[entry(4, 6)]).unwrap();
    assert_eq!(s.last_index(), Ok(4));
    assert_eq!(s.entries(3, 5, None), Ok(vec![entry(3, 3), entry(4, 6)]));
    assert_eq!(s.term(5), Err(StorageError::Unavailable));
}

#[test]
fn scenario_d_restart_reads_persisted_state() {
    let mut disk = Disk::new();
    let mut s = store_after_two();
    disk.snapshot = SnapshotMetadata { index: 2, term: 2 };
    s.append(&[entry(3, 3), entry(4, 4), entry(5, 5)]).unwrap();
    disk.commit(s.wl());
    s.compact(4).unwrap();
    disk.commit(s.wl());
    let r = disk.reopen();
    assert_eq!(r.first_index(), s.first_index());
    assert_eq!(r.last_index(), s.last_index());
    assert_eq!(r.first_index(), Ok(4));
    assert_eq!(r.last_index(), Ok(5));
    for idx in 0..8 {
        assert_eq!(r.term(idx), s.term(idx), "term({})", idx);
    }
    assert_eq!(r.entries(4, 6, None), Ok(vec![entry(4, 4), entry(5, 5)]));
}

#[test]
fn restart_after_truncation_and_membership_change() {
    let mut disk = Disk::new();
    let mut s = RaftDiskStorage::new();
    s.append(&[entry(1, 1), entry(2, 1), entry(3, 2), entry(4, 2)]).unwrap();
    disk.commit(s.wl());
    s.append(&[entry(3, 3)]).unwrap();
    s.initialize_with_conf_state(ConfState::from_voters(vec![1, 2, 3]));
    s.wl().set_hardstate(HardState { term: 3, vote: 1, commit: 2 });
    disk.commit(s.wl());
    assert_eq!(disk.entries.len(), 3);
    let r = disk.reopen();
    assert_eq!(r.entries(1, 4, None), Ok(vec![entry(1, 1), entry(2, 1), entry(3, 3)]));
    assert_eq!(r.last_index(), Ok(3));
    let st = r.initial_state().unwrap();
    assert_eq!(st.conf_state.voters, vec![1, 2, 3]);
    assert_eq!(st.hard_state, HardState { term: 3, vote: 1, commit: 2 });
}

#[test]
fn take_writes_lists_the_batch_once() {
    let mut s = RaftDiskStorage::new();
    s.append(&[entry(1, 1), entry(2, 1)]).unwrap();
    let ops = s.wl().take_writes();
    assert_eq!(ops.len(), 2);
    match &ops[0] {
        WriteOp::PutEntry(e) => assert_eq!(*e, entry(1, 1)),
        other => panic!("unexpected write {:?}", other),
    }
    assert!(s.wl().take_writes().is_empty());
    s.compact(2).unwrap();
    let ops = s.wl().take_writes();
    assert_eq!(ops.len(), 2);
    assert!(matches!(ops[0], WriteOp::DeleteEntry(1)));
    assert!(matches!(ops[1], WriteOp::PutSnapshot(SnapshotMetadata { index: 1, term: 1 })));
}

#[test]
fn append_sets_last_index_and_keeps_first_index() {
    let mut s = scenario_a();
    s.append(&[entry(5, 5), entry(6, 5), entry(7, 6)]).unwrap();
    assert_eq!(s.first_index(), Ok(3));
    assert_eq!(s.last_index(), Ok(7));
    s.append(&[entry(3, 7)]).unwrap();
    assert_eq!(s.first_index(), Ok(3));
    assert_eq!(s.last_index(), Ok(3));
}

#[test]
fn append_to_empty_log_starts_after_watermark() {
    let mut s = RaftDiskStorage::new();
    assert_eq!(s.first_index(), Ok(1));
    assert_eq!(s.last_index(), Ok(0));
    assert_eq!(s.append(&[entry(2, 1)]), Err(StorageError::GapInLog));
    s.append(&[entry(1, 1)]).unwrap();
    assert_eq!(s.first_index(), Ok(1));
    assert_eq!(s.last_index(), Ok(1));
}

#[test]
fn append_of_nothing_changes_nothing() {
    let mut s = scenario_a();
    s.append(&[]).unwrap();
    assert_eq!(s.entries(3, 6, None), Ok(vec![entry(3, 3), entry(4, 4), entry(5, 5)]));
}

#[test]
fn append_errors() {
    let mut s = scenario_a();
    assert_eq!(s.append(&[entry(2, 3)]), Err(StorageError::OverwriteCompacted));
    assert_eq!(s.append(&[entry(7, 5)]), Err(StorageError::GapInLog));
    assert_eq!(s.append(&[entry(6, 5), entry(8, 5)]), Err(StorageError::GapInLog));
    assert_eq!(s.append(&[entry(5, 5), entry(5, 5)]), Err(StorageError::GapInLog));
    assert_eq!(s.entries(3, 6, None), Ok(vec![entry(3, 3), entry(4, 4), entry(5, 5)]));
}

#[test]
fn compact_at_or_below_first_index_is_noop() {
    let mut s = scenario_a();
    s.compact(3).unwrap();
    s.compact(0).unwrap();
    assert_eq!(s.first_index(), Ok(3));
    assert_eq!(s.term(2), Ok(2));
    assert_eq!(s.entries(3, 6, None), Ok(vec![entry(3, 3), entry(4, 4), entry(5, 5)]));
}

#[test]
fn compact_everything_keeps_boundary_term() {
    let mut s = scenario_a();
    s.compact(6).unwrap();
    assert_eq!(s.first_index(), Ok(6));
    assert_eq!(s.last_index(), Ok(5));
    assert_eq!(s.term(5), Ok(5));
    assert_eq!(s.term(4), Err(StorageError::CompactedLog));
    assert_eq!(s.term(6), Err(StorageError::Unavailable));
    assert_eq!(s.entries(6, 6, None), Ok(vec![]));
    assert_eq!(s.append(&[entry(5, 9)]), Err(StorageError::OverwriteCompacted));
    s.append(&[entry(6, 6)]).unwrap();
    assert_eq!(s.first_index(), Ok(6));
    assert_eq!(s.last_index(), Ok(6));
}

#[test]
fn entries_never_empty_even_for_oversized_first_entry() {
    let mut s = store_after_two();
    s.append(&[entry_with_data(3, 3, &[0u8; 100], b"ctx"), entry(4, 3)]).unwrap();
    let got = s.entries(3, 5, Some(10)).unwrap();
    assert_eq!(got.len(), 1);
    assert_eq!(got[0].data.len(), 100);
    assert_eq!(s.entries(3, 5, Some(0)).unwrap().len(), 1);
    assert_eq!(s.entries(3, 5, Some(NO_LIMIT)).unwrap().len(), 2);
    assert_eq!(s.entries(4, 3, Some(0)), Ok(vec![]));
    assert_eq!(s.entries(2, 5, None), Err(StorageError::CompactedLog));
}

#[test]
fn size_of_an_entry_counts_payload_context_and_overhead() {
    assert_eq!(compute_size(&entry(1, 1)), 4);
    assert_eq!(compute_size(&entry_with_data(1, 1, b"abc", b"de")), 9);
}

#[test]
fn limit_size_keeps_longest_fitting_prefix() {
    let batch = vec![
        entry_with_data(1, 1, b"aaaa", b""),
        entry_with_data(2, 1, b"bb", b""),
        entry_with_data(3, 1, b"", b"c"),
    ];
    // sizes 8, 6, 5: prefixes 8, 14, 19
    let mut v = batch.clone();
    limit_size(&mut v, Some(13));
    assert_eq!(v, batch[..1].to_vec());
    let mut v = batch.clone();
    limit_size(&mut v, Some(14));
    assert_eq!(v, batch[..2].to_vec());
    let mut v = batch.clone();
    limit_size(&mut v, Some(19));
    assert_eq!(v, batch);
    let mut v = batch.clone();
    limit_size(&mut v, None);
    assert_eq!(v, batch);
    let mut v = batch[..1].to_vec();
    limit_size(&mut v, Some(0));
    assert_eq!(v.len(), 1);
    let mut v: Vec<EntryRef> = Vec::new();
    limit_size(&mut v, Some(0));
    assert!(v.is_empty());
}

#[test]
fn get_entry_reports_missing_indices() {
    let s = scenario_a();
    assert_eq!(s.rl().get_entry(4), Ok(entry(4, 4)));
    assert_eq!(s.rl().get_entry(2), Err(StorageError::NotFound));
    assert_eq!(s.rl().get_entry(6), Err(StorageError::NotFound));
}

#[test]
fn set_entry_errors() {
    let mut s = scenario_a();
    assert_eq!(s.wl().set_entry(4, entry(5, 5)), Err(StorageError::Corruption));
    assert_eq!(s.wl().set_entry(2, entry(2, 2)), Err(StorageError::OverwriteCompacted));
    assert_eq!(s.wl().set_entry(7, entry(7, 7)), Err(StorageError::GapInLog));
    s.wl().set_entry(4, entry(4, 9)).unwrap();
    assert_eq!(s.entries(3, 6, None), Ok(vec![entry(3, 3), entry(4, 9), entry(5, 5)]));
    s.wl().set_entry(6, entry(6, 9)).unwrap();
    assert_eq!(s.last_index(), Ok(6));
}

#[test]
fn restore_rejects_malformed_records() {
    let snap = SnapshotMetadata { index: 2, term: 2 };
    let bad_key = vec![(3, entry(3, 3)), (5, entry(4, 4))];
    assert_eq!(
        RaftDiskStorage::restore(snap, empty_state(), bad_key).err(),
        Some(StorageError::Corruption)
    );
    let gap = vec![(3, entry(3, 3)), (5, entry(5, 4))];
    assert_eq!(
        RaftDiskStorage::restore(snap, empty_state(), gap).err(),
        Some(StorageError::Corruption)
    );
    let below = vec![(2, entry(2, 2)), (3, entry(3, 3))];
    assert_eq!(
        RaftDiskStorage::restore(snap, empty_state(), below).err(),
        Some(StorageError::Corruption)
    );
    let ok = vec![(3, entry(3, 3)), (4, entry(4, 4))];
    let s = RaftDiskStorage::restore(snap, empty_state(), ok).unwrap();
    assert_eq!(s.first_index(), Ok(3));
    assert_eq!(s.last_index(), Ok(4));
    assert_eq!(s.term(2), Ok(2));
}

#[test]
fn snapshot_waits_for_requested_index() {
    let mut s = RaftDiskStorage::new_with_conf_state(ConfState::from_voters(vec![1]));
    s.append(&[entry(1, 1), entry(2, 1), entry(3, 2)]).unwrap();
    assert_eq!(s.snapshot(1, 2), Err(StorageError::SnapshotTemporarilyUnavailable));
    s.compact(3).unwrap();
    let snap = s.snapshot(1, 2).unwrap();
    assert_eq!(snap.metadata, SnapshotMetadata { index: 2, term: 1 });
    assert_eq!(snap.conf_state.voters, vec![1]);
    assert!(snap.data.is_empty());
    assert_eq!(s.snapshot(3, 2), Err(StorageError::SnapshotTemporarilyUnavailable));
}

#[test]
fn initial_state_reflects_membership() {
    let mut s = RaftDiskStorage::new();
    let st = s.initial_state().unwrap();
    assert!(!st.initialized());
    assert_eq!(st.hard_state, HardState::new());
    s.initialize_with_conf_state(ConfState::from_voters(vec![4, 5]));
    let st = s.initial_state().unwrap();
    assert!(st.initialized());
    assert_eq!(st.conf_state.voters, vec![4, 5]);
    assert!(st.conf_state.learners.is_empty());
}

#[test]
fn entry_types_are_kept() {
    let mut s = RaftDiskStorage::new();
    let mut e = entry_with_data(1, 1, b"cfg", b"c");
    e.entry_type = EntryTypeRef::EntryConfChangeV2;
    e.sync_log = true;
    s.append(&[e.clone()]).unwrap();
    assert_eq!(s.entries(1, 2, None), Ok(vec![e]));
}

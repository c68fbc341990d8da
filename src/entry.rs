//! Log entries: the executable record and its mathematical view.

use vstd::prelude::*;

verus! {

/// What a log entry carries: an ordinary command or a membership change.
#[derive(Clone, Copy, Debug, PartialEq, Eq, Structural)]
pub enum EntryTypeRef {
    EntryNormal,
    EntryConfChange,
    EntryConfChangeV2,
}

/// One replicated unit of state, identified by its index and term.
#[derive(Clone, Debug, PartialEq, Eq)]
pub struct EntryRef {
    pub entry_type: EntryTypeRef,
    pub term: u64,
    pub index: u64,
    pub data: Vec<u8>,
    pub context: Vec<u8>,
    pub sync_log: bool,
}

/// The mathematical view of an `EntryRef`.
#[verifier::ext_equal]
pub struct LogEntry {
    pub entry_type: EntryTypeRef,
    pub term: u64,
    pub index: u64,
    pub data: Seq<u8>,
    pub context: Seq<u8>,
    pub sync_log: bool,
}

impl View for EntryRef {
    type V = LogEntry;

    open spec fn view(&self) -> LogEntry {
        LogEntry {
            entry_type: self.entry_type,
            term: self.term,
            index: self.index,
            data: self.data@,
            context: self.context@,
            sync_log: self.sync_log,
        }
    }
}

impl EntryRef {
    /// An empty normal entry at index 0, term 0.
    pub fn new() -> (r: EntryRef)
        ensures
            r@ == (LogEntry {
                entry_type: EntryTypeRef::EntryNormal,
                term: 0,
                index: 0,
                data: Seq::empty(),
                context: Seq::empty(),
                sync_log: false,
            }),
    {
        EntryRef {
            entry_type: EntryTypeRef::EntryNormal,
            term: 0,
            index: 0,
            data: Vec::new(),
            context: Vec::new(),
            sync_log: false,
        }
    }

    /// A copy of the entry with the same view.
    pub fn duplicate(&self) -> (r: EntryRef)
        ensures
            r@ == self@,
    {
        EntryRef {
            entry_type: self.entry_type,
            term: self.term,
            index: self.index,
            data: self.data.clone(),
            context: self.context.clone(),
            sync_log: self.sync_log,
        }
    }
}

} // verus!

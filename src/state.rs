//! Voting state, committed membership and the snapshot watermark.

use vstd::prelude::*;

verus! {

/// Durable voting bookkeeping of a node.
#[derive(Clone, Copy, Debug, PartialEq, Eq, Structural)]
pub struct HardState {
    pub term: u64,
    pub vote: u64,
    pub commit: u64,
}

impl HardState {
    /// Term 0, no vote, nothing committed.
    pub fn new() -> (r: HardState)
        ensures
            r == (HardState { term: 0, vote: 0, commit: 0 }),
    {
        HardState { term: 0, vote: 0, commit: 0 }
    }
}

/// The committed membership of the cluster.
#[derive(Clone, Debug, PartialEq, Eq)]
pub struct ConfState {
    pub voters: Vec<u64>,
    pub learners: Vec<u64>,
    pub voters_outgoing: Vec<u64>,
    pub learners_next: Vec<u64>,
    pub auto_leave: bool,
}

/// The mathematical view of a `ConfState`.
#[verifier::ext_equal]
pub struct ConfStateView {
    pub voters: Seq<u64>,
    pub learners: Seq<u64>,
    pub voters_outgoing: Seq<u64>,
    pub learners_next: Seq<u64>,
    pub auto_leave: bool,
}

impl ConfStateView {
    /// The membership of a node that has not been told of any member.
    pub open spec fn empty() -> ConfStateView {
        ConfStateView {
            voters: Seq::empty(),
            learners: Seq::empty(),
            voters_outgoing: Seq::empty(),
            learners_next: Seq::empty(),
            auto_leave: false,
        }
    }
}

impl View for ConfState {
    type V = ConfStateView;

    open spec fn view(&self) -> ConfStateView {
        ConfStateView {
            voters: self.voters@,
            learners: self.learners@,
            voters_outgoing: self.voters_outgoing@,
            learners_next: self.learners_next@,
            auto_leave: self.auto_leave,
        }
    }
}

impl ConfState {
    /// A membership with no members.
    pub fn new() -> (r: ConfState)
        ensures
            r@ == ConfStateView::empty(),
    {
        ConfState {
            voters: Vec::new(),
            learners: Vec::new(),
            voters_outgoing: Vec::new(),
            learners_next: Vec::new(),
            auto_leave: false,
        }
    }

    /// A membership made of the given voters only.
    pub fn from_voters(voters: Vec<u64>) -> (r: ConfState)
        ensures
            r@ == (ConfStateView { voters: voters@, ..ConfStateView::empty() }),
    {
        ConfState {
            voters,
            learners: Vec::new(),
            voters_outgoing: Vec::new(),
            learners_next: Vec::new(),
            auto_leave: false,
        }
    }

    /// Whether no member of any kind is listed.
    pub fn is_empty(&self) -> (r: bool)
        ensures
            r == (self@ == ConfStateView::empty()),
    {
        let r = self.voters.len() == 0 && self.learners.len() == 0 && self.voters_outgoing.len()
            == 0 && self.learners_next.len() == 0 && !self.auto_leave;
        proof {
            if self.voters@.len() == 0 && self.learners@.len() == 0
                && self.voters_outgoing@.len() == 0 && self.learners_next@.len() == 0 {
                assert(self.voters@ =~= Seq::empty());
                assert(self.learners@ =~= Seq::empty());
                assert(self.voters_outgoing@ =~= Seq::empty());
                assert(self.learners_next@ =~= Seq::empty());
            }
        }
        r
    }

    /// A copy with the same view.
    pub fn duplicate(&self) -> (r: ConfState)
        ensures
            r@ == self@,
    {
        ConfState {
            voters: self.voters.clone(),
            learners: self.learners.clone(),
            voters_outgoing: self.voters_outgoing.clone(),
            learners_next: self.learners_next.clone(),
            auto_leave: self.auto_leave,
        }
    }
}

/// Voting state and membership, as handed to the consensus driver at start-up.
#[derive(Clone, Debug, PartialEq, Eq)]
pub struct RaftState {
    pub hard_state: HardState,
    pub conf_state: ConfState,
}

/// The mathematical view of a `RaftState`.
#[verifier::ext_equal]
pub struct RaftStateView {
    pub hard_state: HardState,
    pub conf_state: ConfStateView,
}

impl RaftStateView {
    /// A node is initialized once it knows some membership.
    pub open spec fn initialized(self) -> bool {
        self.conf_state != ConfStateView::empty()
    }
}

impl View for RaftState {
    type V = RaftStateView;

    open spec fn view(&self) -> RaftStateView {
        RaftStateView { hard_state: self.hard_state, conf_state: self.conf_state@ }
    }
}

impl RaftState {
    pub fn new(hard_state: HardState, conf_state: ConfState) -> (r: RaftState)
        ensures
            r@ == (RaftStateView { hard_state, conf_state: conf_state@ }),
    {
        RaftState { hard_state, conf_state }
    }

    /// Whether the node has been given a membership.
    pub fn initialized(&self) -> (r: bool)
        ensures
            r == self@.initialized(),
    {
        !self.conf_state.is_empty()
    }

    /// A copy with the same view.
    pub fn duplicate(&self) -> (r: RaftState)
        ensures
            r@ == self@,
    {
        RaftState { hard_state: self.hard_state, conf_state: self.conf_state.duplicate() }
    }
}

/// The watermark of the last snapshot: the index and term of the last entry
/// that the snapshot subsumes.
#[derive(Clone, Copy, Debug, PartialEq, Eq, Structural)]
pub struct SnapshotMetadata {
    pub index: u64,
    pub term: u64,
}

impl SnapshotMetadata {
    /// The watermark of a log that was never compacted.
    pub fn new() -> (r: SnapshotMetadata)
        ensures
            r == (SnapshotMetadata { index: 0, term: 0 }),
    {
        SnapshotMetadata { index: 0, term: 0 }
    }
}

/// A snapshot descriptor handed to a lagging node.
#[derive(Clone, Debug, PartialEq, Eq)]
pub struct Snapshot {
    pub data: Vec<u8>,
    pub metadata: SnapshotMetadata,
    pub conf_state: ConfState,
}

} // verus!

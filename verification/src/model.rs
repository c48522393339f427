//! The mathematical state of a replicated log, and what each operation does to it.

use vstd::prelude::*;

use crate::entry::{EntryStatus, EntryView};

verus! {

/// Leader election state for a node.
#[derive(Debug, Clone, Copy, PartialEq, Eq, Structural)]
pub enum NodeState {
    Follower,
    Candidate,
    Leader,
}

/// The larger of two numbers.
pub open spec fn larger(a: nat, b: nat) -> nat {
    if a < b {
        b
    } else {
        a
    }
}

/// The size of a majority of `cluster_size` nodes.
pub open spec fn majority(cluster_size: nat) -> nat {
    cluster_size / 2 + 1
}

/// Whether a log that ends in `last_term` at `last_index` is at least as
/// up-to-date as one that ends in `other_term` at `other_index`: a later last
/// term wins, and within one term the longer log.
pub open spec fn up_to_date(
    last_term: nat,
    last_index: nat,
    other_term: nat,
    other_index: nat,
) -> bool {
    last_term > other_term || (last_term == other_term && last_index >= other_index)
}

/// The state of a replicated log.
#[verifier::ext_equal]
pub struct LogView {
    /// The entries that are still in the log, in index order.
    pub entries: Seq<EntryView>,
    /// The index of the first entry, or of the next one while there is none.
    pub first_index: nat,
    /// The highest term this node knows of.
    pub current_term: nat,
    /// The highest index known to be committed, 0 at first.
    pub commit_index: nat,
    /// This node's election state.
    pub node_state: NodeState,
    /// The number of nodes in the cluster.
    pub cluster_size: nat,
    /// For each peer that has reported, the highest index it acknowledged.
    pub peers: Map<u64, nat>,
}

impl LogView {
    /// A log without entries, for a cluster of `cluster_size` nodes.
    pub open spec fn empty(cluster_size: nat) -> LogView {
        LogView {
            entries: Seq::empty(),
            first_index: 1,
            current_term: 0,
            commit_index: 0,
            node_state: NodeState::Follower,
            cluster_size,
            peers: Map::empty(),
        }
    }

    /// What holds of every log:
    /// - indices start at 1 and are consecutive,
    /// - no entry is from a later term than the current one,
    /// - a rejected entry is never stored,
    /// - the entries marked as committed come first, and lie within the commit index.
    pub open spec fn wf(self) -> bool {
        &&& self.first_index >= 1
        &&& self.peers.dom().finite()
        &&& forall|i: int| #![trigger self.entries[i]]
            0 <= i < self.entries.len() ==> {
                &&& self.entries[i].index == self.first_index + i
                &&& self.entries[i].term <= self.current_term
                &&& self.entries[i].status != EntryStatus::Conflicting
                &&& self.entries[i].status == EntryStatus::Committed ==> self.entries[i].index
                    <= self.commit_index
            }
        &&& forall|i: int, j: int|
            #![trigger self.entries[i], self.entries[j]]
            0 <= i <= j < self.entries.len() && self.entries[j].status == EntryStatus::Committed
                ==> self.entries[i].status == EntryStatus::Committed
    }

    /// The index that the next appended entry gets.
    pub open spec fn next_index(self) -> nat {
        self.first_index + self.entries.len()
    }

    /// Whether the log holds an entry with this index.
    pub open spec fn contains(self, index: nat) -> bool {
        self.first_index <= index < self.next_index()
    }

    /// The entry with this index, for an index that the log holds.
    pub open spec fn entry(self, index: nat) -> EntryView {
        self.entries[index - self.first_index]
    }

    /// How many entries lie before this index.
    pub open spec fn count_before(self, index: nat) -> nat {
        if index < self.first_index {
            0
        } else if index < self.next_index() {
            (index - self.first_index) as nat
        } else {
            self.entries.len()
        }
    }

    /// All entries from this index onwards.
    pub open spec fn suffix(self, index: nat) -> Seq<EntryView> {
        self.entries.skip(self.count_before(index) as int)
    }

    /// The index of the last entry, 0 if there is none.
    pub open spec fn last_index(self) -> nat {
        if self.entries.len() == 0 {
            0
        } else {
            (self.next_index() - 1) as nat
        }
    }

    /// The term of the last entry, 0 if there is none.
    pub open spec fn last_term(self) -> nat {
        if self.entries.len() == 0 {
            0
        } else {
            self.entries.last().term
        }
    }

    /// The log, with the current term raised to `term` if that is later.
    pub open spec fn see_term(self, term: nat) -> LogView {
        LogView { current_term: larger(self.current_term, term), ..self }
    }

    /// The log with a fresh entry at `index`, in place of whatever stood there and after it.
    pub open spec fn write(self, index: nat, term: nat, command: Seq<u8>) -> LogView {
        LogView {
            entries: self.entries.take(index - self.first_index).push(
                EntryView::fresh(index, term, command),
            ),
            ..self
        }
    }

    /// Appends a fresh entry at the next index.
    pub open spec fn append(self, term: nat, command: Seq<u8>) -> LogView {
        self.see_term(term).write(self.next_index(), term, command)
    }

    /// Whether an entry of `term` sent by a leader is written at `index`: it goes to the
    /// next index, or replaces an entry of a lower term.
    pub open spec fn writes_at(self, index: nat, term: nat) -> bool {
        ||| index == self.next_index()
        ||| self.contains(index) && self.entry(index).term < term
    }

    /// Whether an entry of `term` sent by a leader for `index` is already in the log.
    pub open spec fn duplicate_at(self, index: nat, term: nat) -> bool {
        self.contains(index) && self.entry(index).term == term
    }

    /// What a leader is answered: an entry that is neither written nor a duplicate leaves a
    /// gap, lies before the log, or lost to a higher term.
    pub open spec fn append_at_status(self, index: nat, term: nat) -> EntryStatus {
        if self.writes_at(index, term) || self.duplicate_at(index, term) {
            EntryStatus::Appended
        } else {
            EntryStatus::Conflicting
        }
    }

    /// Appends an entry sent by a leader. The term is noted whatever becomes of the entry.
    pub open spec fn append_at(self, index: nat, term: nat, command: Seq<u8>) -> LogView {
        if self.writes_at(index, term) {
            self.see_term(term).write(index, term, command)
        } else {
            self.see_term(term)
        }
    }

    /// The highest index that a peer acknowledged, 0 if it has not reported.
    pub open spec fn match_index(self, peer_id: u64) -> nat {
        if self.peers.contains_key(peer_id) {
            self.peers[peer_id]
        } else {
            0
        }
    }

    /// Records that a peer has appended up to `match_index`.
    pub open spec fn record_peer_append(self, peer_id: u64, match_index: nat) -> LogView {
        LogView {
            peers: self.peers.insert(peer_id, larger(self.match_index(peer_id), match_index)),
            ..self
        }
    }

    /// The peers that acknowledged `index`.
    pub open spec fn acknowledging(self, index: nat) -> Set<u64> {
        self.peers.dom().filter(|peer_id: u64| self.peers[peer_id] >= index)
    }

    /// How many nodes have appended up to `index`, this node among them.
    pub open spec fn replicas(self, index: nat) -> nat {
        self.acknowledging(index).len() + if self.last_index() >= index {
            1nat
        } else {
            0nat
        }
    }

    /// The number of nodes that make a majority of the cluster.
    pub open spec fn quorum(self) -> nat {
        majority(self.cluster_size)
    }

    /// Whether `index` is the highest one in the log that a quorum of nodes has appended.
    pub open spec fn replicated_up_to(self, index: nat) -> bool {
        &&& self.contains(index)
        &&& self.replicas(index) >= self.quorum()
        &&& forall|later: nat|
            later > index && self.contains(later) ==> #[trigger] self.replicas(later)
                < self.quorum()
    }

    /// There is at most one highest index that a quorum has appended.
    pub proof fn lemma_replicated_up_to_unique(self, a: nat, b: nat)
        requires
            self.replicated_up_to(a),
            self.replicated_up_to(b),
        ensures
            a == b,
    {
        if a < b {
            assert(self.replicas(b) < self.quorum());
        } else if b < a {
            assert(self.replicas(a) < self.quorum());
        }
    }

    /// Commits everything in the log that a quorum of nodes has appended.
    pub open spec fn advance_commit(self) -> LogView {
        if exists|index: nat| self.replicated_up_to(index) {
            self.commit(choose|index: nat| self.replicated_up_to(index))
        } else {
            self
        }
    }

    /// Commits `index` and everything before it, if the log holds it.
    pub open spec fn commit(self, index: nat) -> LogView {
        if self.contains(index) {
            LogView {
                entries: Seq::new(
                    self.entries.len(),
                    |i: int|
                        if self.first_index + i <= index {
                            self.entries[i].committed()
                        } else {
                            self.entries[i]
                        },
                ),
                commit_index: larger(self.commit_index, index),
                ..self
            }
        } else {
            self
        }
    }

    /// How many entries a compaction through this index removes: all that lie up to and
    /// including it.
    pub open spec fn compacted(self, through_index: nat) -> nat {
        self.count_before(through_index + 1)
    }

    /// Removes all entries up to and including `through_index`.
    pub open spec fn compact(self, through_index: nat) -> LogView {
        LogView {
            entries: self.entries.skip(self.compacted(through_index) as int),
            first_index: self.first_index + self.compacted(through_index),
            ..self
        }
    }

    /// Moves on to a later term as a follower; an earlier or equal term changes nothing.
    pub open spec fn advance_term(self, term: nat) -> LogView {
        if term > self.current_term {
            LogView { current_term: term, node_state: NodeState::Follower, ..self }
        } else {
            self
        }
    }

    /// Stands as a candidate in the next term.
    pub open spec fn start_election(self) -> LogView {
        LogView {
            current_term: self.current_term + 1,
            node_state: NodeState::Candidate,
            ..self
        }
    }

    /// The log with this election state.
    pub open spec fn with_node_state(self, state: NodeState) -> LogView {
        LogView { node_state: state, ..self }
    }
}

} // verus!

//! The executable replicated log.

use std::collections::HashMap;

use vstd::prelude::*;

use crate::entry::{EntryStatus, LogEntry};
use crate::model::{up_to_date, LogView, NodeState};
use crate::quorum::{
    count_at_least, descending, insert_descending, lemma_count_upper, lemma_quorum_position,
};

verus! {

broadcast use vstd::std_specs::hash::group_hash_axioms;

/// Tracks replication state per peer for quorum calculations.
#[derive(Debug)]
struct PeerState {
    /// Highest log index that the peer has acknowledged as appended.
    match_index: u64,
}

/// A Raft-style replicated log.
#[derive(Debug)]
pub struct ReplicatedLog {
    /// The log entries.
    entries: Vec<LogEntry>,
    /// Current term.
    current_term: u64,
    /// Index of the highest log entry known to be committed.
    commit_index: u64,
    /// This node's election state.
    node_state: NodeState,
    /// Number of nodes in the cluster (for quorum).
    cluster_size: usize,
    /// Per-peer replication state (for commit advancement).
    peer_states: HashMap<u64, PeerState>,
    /// Index offset: logical index of the first entry in `entries`.
    /// Used after compaction to keep indices correct.
    index_offset: u64,
}

/// Marks the appended entries up to and including position `last` as committed.
fn mark_committed(entries: &mut Vec<LogEntry>, last: usize)
    requires
        last < old(entries).len(),
    ensures
        final(entries).len() == old(entries).len(),
        forall|k: int| #![trigger final(entries)[k]]
            0 <= k < final(entries).len() ==> final(entries)[k]@ == if k <= last
                && old(entries)[k].status == EntryStatus::Appended {
                old(entries)[k]@.committed()
            } else {
                old(entries)[k]@
            },
{
    let mut i: usize = 0;
    while i <= last
        invariant
            i <= last + 1,
            last < entries.len(),
            entries.len() == old(entries).len(),
            forall|k: int| #![trigger entries[k]]
                0 <= k < entries.len() ==> entries[k]@ == if k < i && old(entries)[k].status
                    == EntryStatus::Appended {
                    old(entries)[k]@.committed()
                } else {
                    old(entries)[k]@
                },
        decreases last + 1 - i,
    {
        if entries[i].status == EntryStatus::Appended {
            entries[i].status = EntryStatus::Committed;
        }
        i = i + 1;
    }
}

impl View for ReplicatedLog {
    type V = LogView;

    closed spec fn view(&self) -> LogView {
        LogView {
            entries: self.entries@.map_values(|entry: LogEntry| entry@),
            first_index: self.index_offset as nat,
            current_term: self.current_term as nat,
            commit_index: self.commit_index as nat,
            node_state: self.node_state,
            cluster_size: self.cluster_size as nat,
            peers: self.peer_states@.map_values(|peer: PeerState| peer.match_index as nat),
        }
    }
}

impl ReplicatedLog {
    /// What holds of every log, and that its indices fit the machine.
    pub open spec fn wf(&self) -> bool {
        &&& self@.wf()
        &&& self@.first_index <= u64::MAX
        &&& self@.next_index() <= u64::MAX + 1
    }

    /// Create a new replicated log for a cluster of `cluster_size` nodes.
    pub fn new(cluster_size: usize) -> (log: Self)
        ensures
            log.wf(),
            log@ == LogView::empty(cluster_size as nat),
    {
        let log = Self {
            entries: Vec::new(),
            current_term: 0,
            commit_index: 0,
            node_state: NodeState::Follower,
            cluster_size,
            peer_states: HashMap::new(),
            index_offset: 1,
        };
        assert(log@ == LogView::empty(cluster_size as nat));
        log
    }

    /// Get the current term.
    pub fn current_term(&self) -> (term: u64)
        ensures
            term == self@.current_term,
    {
        self.current_term
    }

    /// Get the commit index.
    pub fn commit_index(&self) -> (index: u64)
        ensures
            index == self@.commit_index,
    {
        self.commit_index
    }

    /// Get the node's election state.
    pub fn node_state(&self) -> (state: NodeState)
        ensures
            state == self@.node_state,
    {
        self.node_state
    }

    /// Set the node's election state.
    pub fn set_node_state(&mut self, state: NodeState)
        requires
            old(self).wf(),
        ensures
            final(self).wf(),
            final(self)@ == old(self)@.with_node_state(state),
    {
        self.node_state = state;
    }

    /// Advance to a new term. Transitions to follower if not already.
    pub fn advance_term(&mut self, term: u64)
        requires
            old(self).wf(),
        ensures
            final(self).wf(),
            final(self)@ == old(self)@.advance_term(term as nat),
    {
        if term > self.current_term {
            self.current_term = term;
            self.node_state = NodeState::Follower;
        }
    }

    /// Get the last log index (0 if empty).
    pub fn last_log_index(&self) -> (index: u64)
        requires
            self.wf(),
        ensures
            index == self@.last_index(),
    {
        if self.entries.is_empty() {
            0
        } else {
            self.index_offset + (self.entries.len() as u64 - 1)
        }
    }

    /// Get the last log term (0 if empty).
    pub fn last_log_term(&self) -> (term: u64)
        ensures
            term == self@.last_term(),
    {
        if self.entries.is_empty() {
            0
        } else {
            self.entries[self.entries.len() - 1].term
        }
    }

    /// Convert a logical index to a physical position in the entries vec.
    /// Returns None if the index is outside the current log range.
    fn to_physical(&self, index: u64) -> (position: Option<usize>)
        ensures
            match position {
                Some(pos) => {
                    &&& self@.contains(index as nat)
                    &&& pos == index - self.index_offset
                    &&& pos < self.entries.len()
                },
                None => !self@.contains(index as nat),
            },
    {
        if index < self.index_offset {
            return None;
        }
        let pos: u64 = index - self.index_offset;
        if pos < self.entries.len() as u64 {
            Some(pos as usize)
        } else {
            None
        }
    }

    /// Append a new entry at the next index in the given term.
    /// Returns the new entry's index.
    pub fn append(&mut self, term: u64, command: Vec<u8>) -> (index: u64)
        requires
            old(self).wf(),
            old(self)@.next_index() <= u64::MAX,
        ensures
            final(self).wf(),
            final(self)@ == old(self)@.append(term as nat, command@),
            index == old(self)@.next_index(),
    {
        let ghost before = self@;
        let index: u64 = self.index_offset + self.entries.len() as u64;
        if self.current_term < term {
            self.current_term = term;
        }
        self.entries.push(LogEntry::new(index, term, command));
        assert(self@ == before.append(term as nat, command@));
        index
    }

    /// Append an entry from a leader at a specific index.
    /// Performs conflict detection: if an existing entry at this index has a different
    /// (lower) term, it is overwritten (higher term wins) and everything after it goes.
    /// If the terms match, it's a duplicate append (idempotent). If the existing entry
    /// has a higher term, the append is rejected as conflicting, as is one that would
    /// leave a gap or that lies before the first index.
    ///
    /// Returns the status of the operation.
    pub fn append_at(&mut self, index: u64, term: u64, command: Vec<u8>) -> (status: EntryStatus)
        requires
            old(self).wf(),
        ensures
            final(self).wf(),
            final(self)@ == old(self)@.append_at(index as nat, term as nat, command@),
            status == old(self)@.append_at_status(index as nat, term as nat),
    {
        let ghost before = self@;
        if self.current_term < term {
            self.current_term = term;
        }
        match self.to_physical(index) {
            Some(pos) => {
                let existing = self.entries[pos].term;
                assert(before.entries[pos as int] == self.entries[pos as int]@);
                if existing == term {
                    // Same term: already appended.
                    EntryStatus::Appended
                } else if existing < term {
                    // Higher term wins: overwrite the conflicting entry and truncate
                    // everything after it.
                    self.entries.truncate(pos);
                    self.entries.push(LogEntry::new(index, term, command));
                    assert(self@ == before.append_at(index as nat, term as nat, command@));
                    EntryStatus::Appended
                } else {
                    // Existing term is higher: reject.
                    EntryStatus::Conflicting
                }
            },
            None => {
                if index >= self.index_offset && index - self.index_offset
                    == self.entries.len() as u64 {
                    // Exactly the next index: normal append.
                    self.entries.push(LogEntry::new(index, term, command));
                    assert(self@ == before.append_at(index as nat, term as nat, command@));
                    EntryStatus::Appended
                } else {
                    // Beyond the log or before it: reject.
                    EntryStatus::Conflicting
                }
            },
        }
    }

    /// Record that a peer has appended up to `match_index`.
    pub fn record_peer_append(&mut self, peer_id: u64, match_index: u64)
        requires
            old(self).wf(),
        ensures
            final(self).wf(),
            final(self)@ == old(self)@.record_peer_append(peer_id, match_index as nat),
    {
        let ghost before = self@;
        let state = self.peer_states.entry(peer_id).or_insert(PeerState { match_index: 0 });
        if state.match_index < match_index {
            state.match_index = match_index;
        }
        assert(self@ == before.record_peer_append(peer_id, match_index as nat));
    }

    /// The match indices of all nodes that reported and of this one, highest first.
    fn match_indices(&self) -> (indices: Vec<u64>)
        requires
            self.wf(),
        ensures
            descending(indices@),
            indices@.len() == self@.peers.len() + 1,
            forall|index: nat| #[trigger]
                count_at_least(indices@, index) == self@.replicas(index),
    {
        let mut indices: Vec<u64> = Vec::new();
        insert_descending(&mut indices, self.last_log_index());
        let ghost mut seen: Set<u64> = Set::empty();
        proof {
            assert forall|index: nat| #[trigger]
                seen.intersect(self@.acknowledging(index)).len() == 0 by {
                assert(seen.intersect(self@.acknowledging(index)) =~= Set::<u64>::empty());
            }
        }
        for peer_id in it: self.peer_states.keys()
            invariant
                self.wf(),
                descending(indices@),
                indices@.len() == it.index() + 1,
                seen.finite(),
                forall|p: u64| #[trigger] seen.contains(p) <==> exists|j: int|
                    0 <= j < it.index() && *it.seq()[j] == p,
                it.seq().no_duplicates(),
                it.seq().len() == self.peer_states@.dom().len(),
                it.seq().unref().to_set() == self.peer_states@.dom(),
                forall|index: nat| #[trigger]
                    count_at_least(indices@, index) == seen.intersect(
                        self@.acknowledging(index),
                    ).len() + if self@.last_index() >= index {
                        1nat
                    } else {
                        0nat
                    },
        {
            assert(it.seq().unref()[it.index() as int] == *peer_id);
            assert(it.seq().unref().to_set().contains(*peer_id));
            assert(!seen.contains(*peer_id));
            if let Some(state) = self.peer_states.get(peer_id) {
                let ghost before = indices@;
                insert_descending(&mut indices, state.match_index);
                proof {
                    assert forall|index: nat| #[trigger]
                        count_at_least(indices@, index) == seen.insert(*peer_id).intersect(
                            self@.acknowledging(index),
                        ).len() + if self@.last_index() >= index {
                            1nat
                        } else {
                            0nat
                        } by {
                        let acknowledging = self@.acknowledging(index);
                        assert(count_at_least(before, index) == seen.intersect(acknowledging).len()
                            + if self@.last_index() >= index {
                            1nat
                        } else {
                            0nat
                        });
                        if state.match_index >= index {
                            assert(seen.insert(*peer_id).intersect(acknowledging)
                                =~= seen.intersect(acknowledging).insert(*peer_id));
                        } else {
                            assert(seen.insert(*peer_id).intersect(acknowledging)
                                =~= seen.intersect(acknowledging));
                        }
                    }
                    seen = seen.insert(*peer_id);
                }
            }
        }
        proof {
            assert forall|index: nat| #[trigger]
                count_at_least(indices@, index) == self@.replicas(index) by {
                assert(seen.intersect(self@.acknowledging(index)) =~= self@.acknowledging(index));
            }
            assert(self@.peers.dom() =~= self.peer_states@.dom());
        }
        indices
    }

    /// Advance the commit index based on majority replication.
    /// An index is committed when a majority of nodes have appended it: the commit index
    /// moves up to the highest such index in our log, and the entries up to there are
    /// marked as committed.
    /// Returns the new commit index.
    pub fn advance_commit(&mut self) -> (commit_index: u64)
        requires
            old(self).wf(),
        ensures
            final(self).wf(),
            final(self)@ == old(self)@.advance_commit(),
            commit_index == final(self)@.commit_index,
            forall|index: nat| #[trigger]
                old(self)@.replicated_up_to(index) ==> final(self)@ == old(self)@.commit(index),
    {
        let ghost before = self@;
        // How far each node, this one among them, has got.
        let indices = self.match_indices();
        // Quorum: majority of cluster_size.
        let quorum: usize = self.cluster_size / 2 + 1;
        if indices.len() < quorum {
            assert forall|index: nat| !(#[trigger] before.replicated_up_to(index)) by {
                lemma_count_upper(indices@, indices.len() as int, index);
            }
            return self.commit_index;
        }
        // The index at position quorum-1 is replicated by at least quorum nodes.
        let replicated = indices[quorum - 1];
        // Peers may be ahead of us: only commit what exists in our log.
        let last = self.last_log_index();
        let new_commit = if replicated < last {
            replicated
        } else {
            last
        };
        proof {
            assert forall|index: nat| #[trigger] before.contains(index) implies (before.replicas(
                index,
            ) >= before.quorum() <==> index <= new_commit) by {
                lemma_quorum_position(indices@, quorum as int, index);
            }
            if before.contains(new_commit as nat) {
                assert(before.replicated_up_to(new_commit as nat));
                assert forall|index: nat| #[trigger] before.replicated_up_to(index) implies index
                    == new_commit by {
                    before.lemma_replicated_up_to_unique(index, new_commit as nat);
                }
            }
        }
        self.commit(new_commit);
        self.commit_index
    }

    /// Commit a specific index directly (e.g., from a leader's directive).
    /// Returns true if the index was successfully committed.
    pub fn commit(&mut self, index: u64) -> (committed: bool)
        requires
            old(self).wf(),
        ensures
            final(self).wf(),
            final(self)@ == old(self)@.commit(index as nat),
            committed == old(self)@.contains(index as nat),
    {
        let ghost before = self@;
        if let Some(pos) = self.to_physical(index) {
            if self.commit_index < index {
                self.commit_index = index;
            }
            // Mark the entry and all prior entries as committed.
            mark_committed(&mut self.entries, pos);
            assert(self@ == before.commit(index as nat));
            true
        } else {
            false
        }
    }

    /// Compact the log by truncating all entries up to (and including) `through_index`.
    /// Typically called for entries that are already committed.
    /// Returns the number of entries removed.
    pub fn compact(&mut self, through_index: u64) -> (removed: usize)
        requires
            old(self).wf(),
            old(self)@.contains(through_index as nat) ==> through_index < u64::MAX,
        ensures
            final(self).wf(),
            final(self)@ == old(self)@.compact(through_index as nat),
            removed == old(self)@.compacted(through_index as nat),
    {
        let ghost before = self@;
        if through_index < self.index_offset {
            return 0;
        }
        let removed: usize = match self.to_physical(through_index) {
            Some(pos) => pos + 1,
            None => self.entries.len(),
        };
        self.entries = self.entries.split_off(removed);
        self.index_offset = self.index_offset + removed as u64;
        assert(self@ == before.compact(through_index as nat));
        removed
    }

    /// Get a reference to an entry by index.
    pub fn get(&self, index: u64) -> (entry: Option<&LogEntry>)
        ensures
            match entry {
                Some(entry) => self@.contains(index as nat) && entry@ == self@.entry(index as nat),
                None => !self@.contains(index as nat),
            },
    {
        match self.to_physical(index) {
            Some(pos) => Some(&self.entries[pos]),
            None => None,
        }
    }

    /// Get the number of entries currently in the log.
    pub fn len(&self) -> (count: usize)
        ensures
            count == self@.entries.len(),
    {
        self.entries.len()
    }

    /// Check if the log is empty.
    pub fn is_empty(&self) -> (empty: bool)
        ensures
            empty == (self@.entries.len() == 0),
    {
        self.entries.is_empty()
    }

    /// Get all entries from `start_index` onwards.
    pub fn entries_from(&self, start_index: u64) -> (entries: Vec<&LogEntry>)
        ensures
            entries@.map_values(|entry: &LogEntry| entry@) == self@.suffix(start_index as nat),
    {
        let start: usize = if start_index < self.index_offset {
            0
        } else {
            match self.to_physical(start_index) {
                Some(pos) => pos,
                None => self.entries.len(),
            }
        };
        let mut entries: Vec<&LogEntry> = Vec::new();
        let mut i: usize = start;
        while i < self.entries.len()
            invariant
                start <= i <= self.entries.len(),
                entries@.len() == i - start,
                forall|k: int| 0 <= k < i - start ==> *entries@[k] == self.entries[start + k],
            decreases self.entries.len() - i,
        {
            entries.push(&self.entries[i]);
            i = i + 1;
        }
        assert(entries@.map_values(|entry: &LogEntry| entry@) =~= self@.suffix(start_index as nat));
        entries
    }

    /// Start an election: transition to candidate, increment term, vote for self.
    /// Returns the new term.
    pub fn start_election(&mut self) -> (term: u64)
        requires
            old(self).wf(),
            old(self)@.current_term < u64::MAX,
        ensures
            final(self).wf(),
            final(self)@ == old(self)@.start_election(),
            term == final(self)@.current_term,
    {
        self.current_term = self.current_term + 1;
        self.node_state = NodeState::Candidate;
        self.current_term
    }

    /// Become leader after winning election.
    pub fn become_leader(&mut self)
        requires
            old(self).wf(),
        ensures
            final(self).wf(),
            final(self)@ == old(self)@.with_node_state(NodeState::Leader),
    {
        self.node_state = NodeState::Leader;
    }

    /// Check if a candidate's log is at least as up-to-date as ours.
    /// Used to determine vote eligibility.
    pub fn is_log_up_to_date(&self, last_term: u64, last_index: u64) -> (eligible: bool)
        requires
            self.wf(),
        ensures
            eligible == up_to_date(
                last_term as nat,
                last_index as nat,
                self@.last_term(),
                self@.last_index(),
            ),
    {
        if self.last_log_term() != last_term {
            last_term > self.last_log_term()
        } else {
            last_index >= self.last_log_index()
        }
    }
}

} // verus!

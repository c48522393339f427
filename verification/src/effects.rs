//! What every operation changes and what it leaves alone, in terms of what the log holds.

use vstd::prelude::*;

use crate::entry::{EntryStatus, EntryView, LogEntry};
use crate::model::{larger, majority, up_to_date, LogView, NodeState};

verus! {

/// The three statuses stand at -1, 0 and 1, a status that is further along standing higher.
pub proof fn law_statuses_in_order(status: EntryStatus)
    ensures
        -1 <= status.ternary() <= 1,
        EntryStatus::Conflicting.ternary() < EntryStatus::Appended.ternary()
            < EntryStatus::Committed.ternary(),
        status.ternary() < 0 <==> status == EntryStatus::Conflicting,
        status.ternary() > 0 <==> status == EntryStatus::Committed,
{
}

/// The value of an entry is what its fields hold, and the fields can be told from it.
pub proof fn law_entry_is_its_fields(a: LogEntry, b: LogEntry)
    ensures
        a@.index == a.index,
        a@.term == a.term,
        a@.command == a.command@,
        a@.status == a.status,
        a@ == b@ <==> a.index == b.index && a.term == b.term && a.command@ == b.command@
            && a.status == b.status,
{
}

/// A fresh entry is appended; committing an entry changes its status only.
pub proof fn law_entry_lifecycle(entry: EntryView, index: nat, term: nat, command: Seq<u8>)
    ensures
        EntryView::fresh(index, term, command).index == index,
        EntryView::fresh(index, term, command).term == term,
        EntryView::fresh(index, term, command).command == command,
        EntryView::fresh(index, term, command).status == EntryStatus::Appended,
        entry.committed().index == entry.index,
        entry.committed().term == entry.term,
        entry.committed().command == entry.command,
        entry.committed().status == EntryStatus::Committed,
{
}

/// The larger of two numbers is one of them and bounds both.
pub proof fn law_larger_bounds_both(a: nat, b: nat)
    ensures
        larger(a, b) >= a,
        larger(a, b) >= b,
        larger(a, b) == a || larger(a, b) == b,
{
}

/// A new log starts in term 0 as a follower, with nothing appended, committed or
/// reported, and counts from 1.
pub proof fn law_new_log(cluster_size: nat)
    ensures
        ({
            let log = LogView::empty(cluster_size);
            &&& log.entries.len() == 0
            &&& log.first_index == 1
            &&& log.current_term == 0
            &&& log.commit_index == 0
            &&& log.node_state == NodeState::Follower
            &&& log.cluster_size == cluster_size
            &&& log.peers.dom() =~= Set::<u64>::empty()
        }),
{
}

/// The log holds as many consecutive indices as it has entries, from the first one on,
/// and each entry under its place.
pub proof fn law_indices_are_places(log: LogView, index: nat)
    ensures
        log.next_index() - log.first_index == log.entries.len(),
        log.contains(index) <==> log.first_index <= index && index - log.first_index
            < log.entries.len(),
        log.contains(index) ==> log.entry(index) == log.entries[index - log.first_index],
{
}

/// An index is in the log exactly if some entry bears it, and that is the entry found.
pub proof fn law_lookup_finds_the_bearer(log: LogView, index: nat)
    requires
        log.wf(),
    ensures
        log.contains(index) <==> exists|i: int|
            0 <= i < log.entries.len() && (#[trigger] log.entries[i]).index == index,
        forall|i: int|
            0 <= i < log.entries.len() && (#[trigger] log.entries[i]).index == index
                ==> log.entry(index) == log.entries[i],
{
    if log.contains(index) {
        assert(log.entries[index - log.first_index].index == index);
    }
}

/// The last index and term are those of the last entry, whatever its status; both are 0
/// without an entry.
pub proof fn law_last_is_of_last_entry(log: LogView)
    requires
        log.wf(),
    ensures
        log.entries.len() > 0 ==> {
            &&& log.contains(log.last_index())
            &&& !log.contains(log.last_index() + 1)
            &&& log.last_index() == log.entries[log.entries.len() - 1].index
            &&& log.last_term() == log.entries[log.entries.len() - 1].term
            &&& log.last_term() == log.entry(log.last_index()).term
        },
        log.entries.len() == 0 ==> log.last_index() == 0 && log.last_term() == 0,
{
}

/// The last index and term depend on the last entry's index and term alone.
pub proof fn law_last_depends_on_last_entry(a: LogView, b: LogView)
    requires
        a.wf(),
        b.wf(),
        a.entries.len() > 0,
        b.entries.len() > 0,
        a.entries.last().index == b.entries.last().index,
        a.entries.last().term == b.entries.last().term,
    ensures
        a.last_index() == b.last_index(),
        a.last_term() == b.last_term(),
{
}

/// Committing, by directive or by majority, moves neither the last index nor the last
/// term; nor do reports, terms and elections.
pub proof fn law_last_stays(
    log: LogView,
    index: nat,
    peer_id: u64,
    term: nat,
    state: NodeState,
)
    ensures
        log.commit(index).last_index() == log.last_index(),
        log.commit(index).last_term() == log.last_term(),
        log.advance_commit().last_index() == log.last_index(),
        log.advance_commit().last_term() == log.last_term(),
        log.record_peer_append(peer_id, index).last_index() == log.last_index(),
        log.record_peer_append(peer_id, index).last_term() == log.last_term(),
        log.advance_term(term).last_index() == log.last_index(),
        log.advance_term(term).last_term() == log.last_term(),
        log.start_election().last_index() == log.last_index(),
        log.start_election().last_term() == log.last_term(),
        log.with_node_state(state).last_index() == log.last_index(),
        log.with_node_state(state).last_term() == log.last_term(),
{
}

/// Of two logs the later last term decides, whatever the indices; within one term the
/// last index does.
pub proof fn law_up_to_date_by_term_then_index(
    last_term: nat,
    last_index: nat,
    other_term: nat,
    other_index: nat,
)
    ensures
        last_term > other_term ==> up_to_date(last_term, last_index, other_term, other_index),
        last_term < other_term ==> !up_to_date(last_term, last_index, other_term, other_index),
        last_term == other_term ==> (up_to_date(last_term, last_index, other_term, other_index)
            <==> last_index >= other_index),
{
}

/// Appending puts one entry behind the others, with the given term and command, and
/// raises the current term just enough for it. All else stays.
pub proof fn law_append_effect(log: LogView, term: nat, command: Seq<u8>)
    ensures
        ({
            let after = log.append(term, command);
            &&& after.entries.len() == log.entries.len() + 1
            &&& after.entries.drop_last() == log.entries
            &&& after.entries.last().index == log.first_index + log.entries.len()
            &&& after.entries.last().term == term
            &&& after.entries.last().command == command
            &&& after.entries.last().status == EntryStatus::Appended
            &&& after.current_term >= term
            &&& after.current_term >= log.current_term
            &&& after.current_term == term || after.current_term == log.current_term
            &&& after.first_index == log.first_index
            &&& after.commit_index == log.commit_index
            &&& after.node_state == log.node_state
            &&& after.cluster_size == log.cluster_size
            &&& after.peers == log.peers
        }),
{
}

/// An entry of the same term at the index makes the request a duplicate: no entry
/// changes, neither the one that is there nor those behind it.
pub proof fn law_duplicate_leaves_entries(log: LogView, index: nat, term: nat, command: Seq<u8>)
    requires
        log.first_index <= index < log.first_index + log.entries.len(),
        log.entries[index - log.first_index].term == term,
    ensures
        log.append_at_status(index, term) == EntryStatus::Appended,
        log.append_at(index, term, command).entries == log.entries,
{
}

/// An entry of a higher term at the index rejects the request, and no entry changes.
pub proof fn law_lower_term_leaves_entries(log: LogView, index: nat, term: nat, command: Seq<u8>)
    requires
        log.first_index <= index < log.first_index + log.entries.len(),
        log.entries[index - log.first_index].term > term,
    ensures
        log.append_at_status(index, term) == EntryStatus::Conflicting,
        log.append_at(index, term, command).entries == log.entries,
{
}

/// An index that leaves a gap, or that lies before the log, rejects the request, and no
/// entry changes.
pub proof fn law_outside_leaves_entries(log: LogView, index: nat, term: nat, command: Seq<u8>)
    requires
        index < log.first_index || index > log.first_index + log.entries.len(),
    ensures
        log.append_at_status(index, term) == EntryStatus::Conflicting,
        log.append_at(index, term, command).entries == log.entries,
{
}

/// At the next index, or over an entry of a lower term, the request is written: the
/// entries before the index stay, the new one follows, and nothing comes behind it.
pub proof fn law_written_entry_ends_log(log: LogView, index: nat, term: nat, command: Seq<u8>)
    requires
        log.first_index <= index <= log.first_index + log.entries.len(),
        index < log.first_index + log.entries.len() ==> log.entries[index
            - log.first_index].term < term,
    ensures
        log.append_at_status(index, term) == EntryStatus::Appended,
        ({
            let after = log.append_at(index, term, command);
            &&& after.entries.len() == index - log.first_index + 1
            &&& forall|i: int|
                0 <= i < index - log.first_index ==> #[trigger] after.entries[i]
                    == log.entries[i]
            &&& after.entries.last().index == index
            &&& after.entries.last().term == term
            &&& after.entries.last().command == command
            &&& after.entries.last().status == EntryStatus::Appended
        }),
{
}

/// Whatever becomes of a leader's request, the current term is raised just enough for
/// it, and nothing but the term and the entries changes.
pub proof fn law_append_at_frame(log: LogView, index: nat, term: nat, command: Seq<u8>)
    ensures
        ({
            let after = log.append_at(index, term, command);
            &&& after.current_term >= term
            &&& after.current_term >= log.current_term
            &&& after.current_term == term || after.current_term == log.current_term
            &&& after.first_index == log.first_index
            &&& after.commit_index == log.commit_index
            &&& after.node_state == log.node_state
            &&& after.cluster_size == log.cluster_size
            &&& after.peers == log.peers
        }),
{
}

/// A report is kept for its peer alone, and only if it is higher than what the peer
/// reported before. All else stays.
pub proof fn law_report_effect(log: LogView, peer_id: u64, match_index: nat)
    ensures
        ({
            let after = log.record_peer_append(peer_id, match_index);
            &&& after.peers.contains_key(peer_id)
            &&& after.peers[peer_id] >= match_index
            &&& log.peers.contains_key(peer_id) ==> after.peers[peer_id] >= log.peers[peer_id]
            &&& after.peers[peer_id] == match_index || (log.peers.contains_key(peer_id)
                && after.peers[peer_id] == log.peers[peer_id])
            &&& after.peers.remove(peer_id) =~= log.peers.remove(peer_id)
            &&& after.entries == log.entries
            &&& after.first_index == log.first_index
            &&& after.current_term == log.current_term
            &&& after.commit_index == log.commit_index
            &&& after.node_state == log.node_state
            &&& after.cluster_size == log.cluster_size
        }),
{
}

/// A peer that has not reported counts as having nothing.
pub proof fn law_match_index_is_report(log: LogView, peer_id: u64)
    ensures
        log.peers.contains_key(peer_id) ==> log.match_index(peer_id) == log.peers[peer_id],
        !log.peers.contains_key(peer_id) ==> log.match_index(peer_id) == 0,
{
}

/// A peer acknowledges an index exactly if it reported that one or a later one.
pub proof fn law_acknowledging_peers(log: LogView, index: nat, peer_id: u64)
    ensures
        log.acknowledging(index).contains(peer_id) <==> log.peers.contains_key(peer_id)
            && log.peers[peer_id] >= index,
{
}

/// The replicas of an index are the peers that acknowledge it, and this node if its log
/// reaches the index.
pub proof fn law_replicas_are_nodes(log: LogView, index: nat, peers: Set<u64>)
    requires
        forall|peer_id: u64| #[trigger]
            peers.contains(peer_id) <==> log.peers.contains_key(peer_id) && log.peers[peer_id]
                >= index,
    ensures
        log.entries.len() > 0 && index < log.first_index + log.entries.len() ==> log.replicas(
            index,
        ) == peers.len() + 1,
        index > 0 && (log.entries.len() == 0 || index >= log.first_index + log.entries.len())
            ==> log.replicas(index) == peers.len(),
{
    assert(log.acknowledging(index) =~= peers);
}

/// So many nodes are a quorum exactly if they are more than half of the cluster.
pub proof fn law_quorum_is_more_than_half(log: LogView, nodes: nat)
    ensures
        nodes >= log.quorum() <==> 2 * nodes > log.cluster_size,
        nodes >= majority(log.cluster_size) <==> 2 * nodes > log.cluster_size,
{
}

/// What more than half of the cluster has appended is committed by advancing: it lies
/// within the commit index, and its entry is marked.
pub proof fn law_advance_commits_what_most_have(log: LogView, index: nat)
    requires
        log.contains(index),
        2 * log.replicas(index) > log.cluster_size,
    ensures
        index <= log.advance_commit().commit_index,
        log.advance_commit().entry(index).status == EntryStatus::Committed,
{
    crate::laws::law_advance_commit_commits_all(log, index);
}

/// What no more than half of the cluster has appended is left as it is by advancing, and
/// the commit index does not come to lie on it.
pub proof fn law_advance_leaves_what_few_have(log: LogView, index: nat)
    requires
        log.wf(),
        log.contains(index),
        2 * log.replicas(index) <= log.cluster_size,
    ensures
        log.advance_commit().entry(index) == log.entry(index),
        index > log.commit_index ==> log.advance_commit().commit_index < index,
{
    crate::laws::law_advance_commit_commits_no_more(log, index);
    if index > log.commit_index && log.advance_commit().commit_index >= index {
        crate::laws::law_advance_commit_needs_majority(log, index);
    }
}

/// Advancing leaves the commit index, or moves it up to an index of the log that more
/// than half of the cluster has appended.
pub proof fn law_advance_lands_on_majority(log: LogView)
    requires
        log.wf(),
    ensures
        ({
            let reached = log.advance_commit().commit_index;
            reached == log.commit_index || (reached > log.commit_index && log.contains(reached)
                && 2 * log.replicas(reached) > log.cluster_size)
        }),
{
    let reached = log.advance_commit().commit_index;
    if reached != log.commit_index {
        crate::laws::law_advance_commit_needs_majority(log, reached);
    }
}

/// Advancing changes the commit index and statuses, nothing else.
pub proof fn law_advance_frame(log: LogView, i: int)
    ensures
        ({
            let after = log.advance_commit();
            &&& after.entries.len() == log.entries.len()
            &&& 0 <= i < log.entries.len() ==> {
                &&& after.entries[i].index == log.entries[i].index
                &&& after.entries[i].term == log.entries[i].term
                &&& after.entries[i].command == log.entries[i].command
            }
            &&& after.first_index == log.first_index
            &&& after.current_term == log.current_term
            &&& after.node_state == log.node_state
            &&& after.cluster_size == log.cluster_size
            &&& after.peers == log.peers
        }),
{
}

/// Committing an index of the log raises the commit index to it, and no further.
pub proof fn law_commit_index_reaches_directive(log: LogView, index: nat)
    requires
        log.first_index <= index < log.first_index + log.entries.len(),
    ensures
        log.commit(index).commit_index >= index,
        log.commit(index).commit_index >= log.commit_index,
        log.commit(index).commit_index == index || log.commit(index).commit_index
            == log.commit_index,
{
}

/// Committing marks the entries up to the index, leaves those behind it, and changes no
/// index, term or command.
pub proof fn law_commit_effect_on_entries(log: LogView, index: nat, i: int)
    requires
        log.first_index <= index < log.first_index + log.entries.len(),
        0 <= i < log.entries.len(),
    ensures
        ({
            let after = log.commit(index);
            &&& after.entries.len() == log.entries.len()
            &&& after.entries[i].index == log.entries[i].index
            &&& after.entries[i].term == log.entries[i].term
            &&& after.entries[i].command == log.entries[i].command
            &&& i <= index - log.first_index ==> after.entries[i].status
                == EntryStatus::Committed
            &&& i > index - log.first_index ==> after.entries[i].status == log.entries[i].status
        }),
{
}

/// Committing touches the entries and the commit index only, and nothing at all for an
/// index that is not in the log.
pub proof fn law_commit_frame(log: LogView, index: nat)
    ensures
        ({
            let after = log.commit(index);
            &&& after.first_index == log.first_index
            &&& after.current_term == log.current_term
            &&& after.node_state == log.node_state
            &&& after.cluster_size == log.cluster_size
            &&& after.peers == log.peers
            &&& (index < log.first_index || index >= log.first_index + log.entries.len())
                ==> after.entries == log.entries && after.commit_index == log.commit_index
        }),
{
}

/// Compaction cuts the log in two: what it reports as removed is the front part, all of
/// which lies up to the index, and what it keeps is the rest, all of which lies behind.
pub proof fn law_compact_cuts(log: LogView, through_index: nat)
    requires
        log.wf(),
    ensures
        ({
            let after = log.compact(through_index);
            let removed = log.compacted(through_index);
            &&& removed + after.entries.len() == log.entries.len()
            &&& after.first_index == log.first_index + removed
            &&& forall|i: int|
                0 <= i < removed ==> (#[trigger] log.entries[i]).index <= through_index
            &&& forall|i: int|
                0 <= i < after.entries.len() ==> (#[trigger] after.entries[i]).index
                    > through_index
            &&& forall|i: int|
                0 <= i < after.entries.len() ==> #[trigger] after.entries[i]
                    == log.entries[removed + i]
        }),
{
}

/// Compaction touches neither terms, commit index, election state nor reports.
pub proof fn law_compact_frame(log: LogView, through_index: nat)
    ensures
        ({
            let after = log.compact(through_index);
            &&& after.current_term == log.current_term
            &&& after.commit_index == log.commit_index
            &&& after.node_state == log.node_state
            &&& after.cluster_size == log.cluster_size
            &&& after.peers == log.peers
        }),
{
}

/// The entries from an index onwards are a tail of the log: none before it is among
/// them, and none behind it is missing.
pub proof fn law_suffix_cuts(log: LogView, start: nat)
    requires
        log.wf(),
    ensures
        ({
            let tail = log.suffix(start);
            let skipped = log.entries.len() - tail.len();
            &&& tail.len() <= log.entries.len()
            &&& forall|i: int|
                0 <= i < tail.len() ==> #[trigger] tail[i] == log.entries[skipped + i]
            &&& forall|i: int| 0 <= i < tail.len() ==> (#[trigger] tail[i]).index >= start
            &&& forall|i: int| 0 <= i < skipped ==> (#[trigger] log.entries[i]).index < start
        }),
{
}

/// Moving to a later term changes the term and makes the node a follower; an earlier or
/// equal term changes nothing. The log itself is never touched.
pub proof fn law_advance_term_effect(log: LogView, term: nat)
    ensures
        ({
            let after = log.advance_term(term);
            &&& term > log.current_term ==> after.current_term == term && after.node_state
                == NodeState::Follower
            &&& term <= log.current_term ==> after.current_term == log.current_term
                && after.node_state == log.node_state
            &&& after.entries == log.entries
            &&& after.first_index == log.first_index
            &&& after.commit_index == log.commit_index
            &&& after.cluster_size == log.cluster_size
            &&& after.peers == log.peers
        }),
{
}

/// An election moves to the next term as a candidate, and touches nothing else.
pub proof fn law_start_election_effect(log: LogView)
    ensures
        ({
            let after = log.start_election();
            &&& after.current_term == log.current_term + 1
            &&& after.node_state == NodeState::Candidate
            &&& after.entries == log.entries
            &&& after.first_index == log.first_index
            &&& after.commit_index == log.commit_index
            &&& after.cluster_size == log.cluster_size
            &&& after.peers == log.peers
        }),
{
}

/// Taking an election state touches nothing else.
pub proof fn law_node_state_effect(log: LogView, state: NodeState)
    ensures
        ({
            let after = log.with_node_state(state);
            &&& after.node_state == state
            &&& after.entries == log.entries
            &&& after.first_index == log.first_index
            &&& after.current_term == log.current_term
            &&& after.commit_index == log.commit_index
            &&& after.cluster_size == log.cluster_size
            &&& after.peers == log.peers
        }),
{
}

} // verus!

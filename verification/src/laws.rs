//! Properties of the log that relate its operations to each other.

use vstd::prelude::*;
use vstd::set_lib::*;

use crate::entry::{EntryStatus, EntryView};
use crate::model::{larger, majority, up_to_date, LogView, NodeState};

verus! {

/// The ternary value of a status lies between -1 and 1, and tells the statuses apart.
pub proof fn law_ternary_values(a: EntryStatus, b: EntryStatus)
    ensures
        -1 <= a.ternary() <= 1,
        a.ternary() == b.ternary() <==> a == b,
{
}

/// An entry is found under its own index.
pub proof fn law_entry_has_its_index(log: LogView, index: nat)
    requires
        log.wf(),
        log.contains(index),
    ensures
        log.entry(index).index == index,
        log.entry(index).term <= log.current_term,
{
}

/// No stored entry is conflicting; the committed ones form a prefix of the log, and none
/// of them lies beyond the commit index.
pub proof fn law_stored_statuses(log: LogView, index: nat)
    requires
        log.wf(),
        log.contains(index),
    ensures
        log.entry(index).status != EntryStatus::Conflicting,
        log.entry(index).status == EntryStatus::Committed ==> index <= log.commit_index,
        log.entry(index).status == EntryStatus::Committed ==> forall|earlier: nat|
            log.contains(earlier) && earlier <= index ==> #[trigger] log.entry(earlier).status
                == EntryStatus::Committed,
{
}

/// What was appended is read back under the index it got, as the last entry, and no
/// earlier entry changes.
pub proof fn law_append_then_read(log: LogView, term: nat, command: Seq<u8>)
    requires
        log.wf(),
    ensures
        ({
            let index = log.next_index();
            let after = log.append(term, command);
            &&& !log.contains(index)
            &&& after.contains(index)
            &&& after.entry(index) == EntryView::fresh(index, term, command)
            &&& after.last_index() == index
            &&& after.last_term() == term
            &&& after.next_index() == index + 1
            &&& forall|earlier: nat| #[trigger]
                log.contains(earlier) ==> after.contains(earlier) && after.entry(earlier)
                    == log.entry(earlier)
        }),
{
}

/// While the log holds an entry, the next one goes right behind the last.
pub proof fn law_next_follows_last(log: LogView)
    ensures
        log.entries.len() > 0 ==> log.next_index() == log.last_index() + 1,
        log.entries.len() == 0 ==> log.next_index() == log.first_index,
{
}

/// Appending is the same as accepting an entry from a leader for the next index.
pub proof fn law_append_is_append_at_next(log: LogView, term: nat, command: Seq<u8>)
    ensures
        log.append(term, command) == log.append_at(log.next_index(), term, command),
        log.append_at_status(log.next_index(), term) == EntryStatus::Appended,
{
}

/// If a leader is answered that its entry is appended, the log holds an entry of that
/// term at that index, and the entries before it are untouched.
pub proof fn law_accepted_entry_is_held(log: LogView, index: nat, term: nat, command: Seq<u8>)
    requires
        log.wf(),
        log.append_at_status(index, term) == EntryStatus::Appended,
    ensures
        ({
            let after = log.append_at(index, term, command);
            &&& after.contains(index)
            &&& after.entry(index).index == index
            &&& after.entry(index).term == term
            &&& forall|earlier: nat| #[trigger]
                log.contains(earlier) && earlier < index ==> after.contains(earlier)
                    && after.entry(earlier) == log.entry(earlier)
        }),
{
}

/// If a leader is answered that its entry conflicts, no entry changes; all that remains
/// of the request is the term. It is so answered exactly when the entry would leave a
/// gap, lies before the log, or meets an entry of a higher term.
pub proof fn law_rejected_entry_leaves_no_trace(
    log: LogView,
    index: nat,
    term: nat,
    command: Seq<u8>,
)
    ensures
        log.append_at_status(index, term) == EntryStatus::Conflicting <==> {
            ||| index > log.next_index()
            ||| index < log.first_index
            ||| log.contains(index) && log.entry(index).term > term
        },
        log.append_at_status(index, term) == EntryStatus::Conflicting ==> log.append_at(
            index,
            term,
            command,
        ) == log.see_term(term),
{
}

/// The higher term wins: it replaces the entry of a lower term, and everything behind
/// that entry goes with it.
pub proof fn law_higher_term_wins(log: LogView, index: nat, term: nat, command: Seq<u8>)
    requires
        log.wf(),
        log.contains(index),
        log.entry(index).term < term,
    ensures
        ({
            let after = log.append_at(index, term, command);
            &&& log.append_at_status(index, term) == EntryStatus::Appended
            &&& after.entry(index) == EntryView::fresh(index, term, command)
            &&& after.last_index() == index
            &&& forall|later: nat| later > index ==> !(#[trigger] after.contains(later))
            &&& forall|earlier: nat| #[trigger]
                log.contains(earlier) && earlier < index ==> after.contains(earlier)
                    && after.entry(earlier) == log.entry(earlier)
        }),
{
}

/// A leader may send an entry again: the second request is answered like the first and
/// changes nothing, whatever its command.
pub proof fn law_append_at_idempotent(
    log: LogView,
    index: nat,
    term: nat,
    command: Seq<u8>,
    again: Seq<u8>,
)
    requires
        log.wf(),
    ensures
        ({
            let after = log.append_at(index, term, command);
            &&& after.append_at_status(index, term) == log.append_at_status(index, term)
            &&& after.append_at(index, term, again) == after
        }),
{
}

/// Compaction keeps every later entry under its index, and drops exactly the others; the
/// next index stays, and as many entries go as it reports.
pub proof fn law_compact_keeps_references(log: LogView, through_index: nat)
    ensures
        ({
            let after = log.compact(through_index);
            &&& forall|index: nat| #[trigger]
                after.contains(index) <==> log.contains(index) && index > through_index
            &&& forall|index: nat| #[trigger]
                after.contains(index) ==> after.entry(index) == log.entry(index)
            &&& after.next_index() == log.next_index()
            &&& after.entries.len() + log.compacted(through_index) == log.entries.len()
            &&& through_index < log.last_index() ==> after.last_index() == log.last_index()
                && after.last_term() == log.last_term()
        }),
{
}

/// Compacting past the end empties the log, and compacting before it changes nothing.
pub proof fn law_compact_outside(log: LogView, through_index: nat)
    ensures
        through_index + 1 >= log.next_index() ==> log.compact(through_index).entries.len() == 0
            && log.compacted(through_index) == log.entries.len(),
        through_index < log.first_index ==> log.compact(through_index) == log
            && log.compacted(through_index) == 0,
{
}

/// Compacting in two steps is compacting once through the later index, and the removals
/// add up.
pub proof fn law_compact_in_steps(log: LogView, first: nat, second: nat)
    ensures
        log.compact(first).compact(second) == log.compact(larger(first, second)),
        log.compacted(first) + log.compact(first).compacted(second) == log.compacted(
            larger(first, second),
        ),
{
    assert(log.compact(first).compact(second) =~= log.compact(larger(first, second)));
}

/// Entries get the same index whether the log is compacted before or after they are
/// appended, even if compaction leaves no entry.
pub proof fn law_compact_then_append(
    log: LogView,
    through_index: nat,
    term: nat,
    command: Seq<u8>,
)
    requires
        through_index < log.next_index(),
    ensures
        log.compact(through_index).append(term, command) == log.append(term, command).compact(
            through_index,
        ),
{
    assert(log.compact(through_index).append(term, command) =~= log.append(term, command).compact(
        through_index,
    ));
}

/// Committing marks the entry and all before it, and changes neither what they hold nor
/// the entries behind.
pub proof fn law_commit_marks_prefix(log: LogView, index: nat, other: nat)
    requires
        log.wf(),
        log.contains(index),
        log.contains(other),
    ensures
        ({
            let after = log.commit(index);
            &&& after.commit_index >= index
            &&& after.contains(other)
            &&& other <= index ==> after.entry(other) == log.entry(other).committed()
            &&& other > index ==> after.entry(other) == log.entry(other)
        }),
{
}

/// Two commits are one commit of the later index, in whatever order they come.
pub proof fn law_commit_in_steps(log: LogView, first: nat, second: nat)
    requires
        log.contains(first),
        log.contains(second),
    ensures
        log.commit(first).commit(second) == log.commit(larger(first, second)),
{
    assert(log.commit(first).commit(second) =~= log.commit(larger(first, second)));
}

/// Compacting through a committed index drops committed entries only.
pub proof fn law_compact_after_commit(log: LogView, index: nat, gone: nat)
    requires
        log.wf(),
        log.contains(index),
        log.contains(gone),
        !log.commit(index).compact(index).contains(gone),
    ensures
        log.commit(index).entry(gone).status == EntryStatus::Committed,
{
}

/// Any two majorities of a cluster share a node.
pub proof fn law_majorities_overlap(cluster: Set<u64>, a: Set<u64>, b: Set<u64>)
    requires
        cluster.finite(),
        a.subset_of(cluster),
        b.subset_of(cluster),
        a.len() >= majority(cluster.len()),
        b.len() >= majority(cluster.len()),
    ensures
        exists|node: u64| a.contains(node) && b.contains(node),
{
    broadcast use vstd::set_lib::lemma_set_subset_finite;

    lemma_set_intersect_union_lens(a, b);
    lemma_len_subset(a.union(b), cluster);
    let node = a.intersect(b).choose();
    if a.intersect(b).is_empty() {
        assert(a.intersect(b) =~= Set::<u64>::empty());
    }
    assert(a.intersect(b).contains(node));
}

/// A majority is more than half of the nodes, and the least number that is.
pub proof fn law_majority_is_least(cluster_size: nat)
    ensures
        2 * majority(cluster_size) > cluster_size,
        2 * (majority(cluster_size) - 1) <= cluster_size,
{
}

/// The own log is up-to-date, of two logs one is, and the relation is transitive.
pub proof fn law_up_to_date_is_an_order(
    term_a: nat,
    index_a: nat,
    term_b: nat,
    index_b: nat,
    term_c: nat,
    index_c: nat,
)
    ensures
        up_to_date(term_a, index_a, term_a, index_a),
        up_to_date(term_a, index_a, term_b, index_b) || up_to_date(
            term_b,
            index_b,
            term_a,
            index_a,
        ),
        up_to_date(term_a, index_a, term_b, index_b) && up_to_date(
            term_b,
            index_b,
            term_a,
            index_a,
        ) ==> term_a == term_b && index_a == index_b,
        up_to_date(term_a, index_a, term_b, index_b) && up_to_date(
            term_b,
            index_b,
            term_c,
            index_c,
        ) ==> up_to_date(term_a, index_a, term_c, index_c),
{
}

/// A log that is appended to, in no earlier term than its last, stays up-to-date with
/// itself as it was.
pub proof fn law_append_stays_up_to_date(log: LogView, term: nat, command: Seq<u8>)
    requires
        log.wf(),
        term >= log.last_term(),
    ensures
        ({
            let after = log.append(term, command);
            up_to_date(after.last_term(), after.last_index(), log.last_term(), log.last_index())
        }),
{
}

/// An election goes from candidate to leader in the next term; a later term makes any
/// node a follower, and a term that is not later changes nothing.
pub proof fn law_election(log: LogView, term: nat)
    ensures
        log.start_election().current_term == log.current_term + 1,
        log.start_election().node_state == NodeState::Candidate,
        log.start_election().with_node_state(NodeState::Leader).node_state == NodeState::Leader,
        term > log.current_term ==> log.advance_term(term).node_state == NodeState::Follower
            && log.advance_term(term).current_term == term,
        term <= log.current_term ==> log.advance_term(term) == log,
{
}

/// The entries from an index onwards are exactly those of the log with that index or a
/// later one, in order.
pub proof fn law_suffix_entries(log: LogView, start: nat)
    ensures
        ({
            let first = larger(start, log.first_index);
            &&& start >= log.next_index() ==> log.suffix(start).len() == 0
            &&& start < log.next_index() ==> log.suffix(start).len() == log.next_index() - first
            &&& forall|i: int|
                0 <= i < log.suffix(start).len() ==> #[trigger] log.suffix(start)[i] == log.entry(
                    (first + i) as nat,
                )
        }),
{
}

/// What compaction keeps is what the entries after its index were.
pub proof fn law_compact_keeps_suffix(log: LogView, through_index: nat)
    ensures
        log.compact(through_index).entries == log.suffix(through_index + 1),
{
}

/// Whatever is done to a log, its current term and its commit index never fall.
pub proof fn law_never_falls_back(
    log: LogView,
    index: nat,
    term: nat,
    command: Seq<u8>,
    peer_id: u64,
    state: NodeState,
)
    ensures
        log.current_term <= log.append(term, command).current_term,
        log.current_term <= log.append_at(index, term, command).current_term,
        log.current_term <= log.record_peer_append(peer_id, index).current_term,
        log.current_term <= log.advance_commit().current_term,
        log.current_term <= log.commit(index).current_term,
        log.current_term <= log.compact(index).current_term,
        log.current_term <= log.advance_term(term).current_term,
        log.current_term < log.start_election().current_term,
        log.current_term <= log.with_node_state(state).current_term,
        log.commit_index <= log.append(term, command).commit_index,
        log.commit_index <= log.append_at(index, term, command).commit_index,
        log.commit_index <= log.record_peer_append(peer_id, index).commit_index,
        log.commit_index <= log.advance_commit().commit_index,
        log.commit_index <= log.commit(index).commit_index,
        log.commit_index <= log.compact(index).commit_index,
        log.commit_index <= log.advance_term(term).commit_index,
        log.commit_index <= log.start_election().commit_index,
        log.commit_index <= log.with_node_state(state).commit_index,
{
}

/// Whatever is done to a log, it stays one.
pub proof fn law_operations_keep_log_well_formed(
    log: LogView,
    index: nat,
    term: nat,
    command: Seq<u8>,
    peer_id: u64,
    state: NodeState,
    cluster_size: nat,
)
    requires
        log.wf(),
    ensures
        LogView::empty(cluster_size).wf(),
        log.append(term, command).wf(),
        log.append_at(index, term, command).wf(),
        log.record_peer_append(peer_id, index).wf(),
        log.advance_commit().wf(),
        log.commit(index).wf(),
        log.compact(index).wf(),
        log.advance_term(term).wf(),
        log.start_election().wf(),
        log.with_node_state(state).wf(),
{
}

/// What a peer acknowledged is remembered at its highest; other peers are untouched, and
/// reporting the same or less again changes nothing.
pub proof fn law_peer_reports(
    log: LogView,
    peer_id: u64,
    match_index: nat,
    other: u64,
    again: nat,
)
    ensures
        ({
            let after = log.record_peer_append(peer_id, match_index);
            &&& after.match_index(peer_id) >= match_index
            &&& after.match_index(peer_id) >= log.match_index(peer_id)
            &&& after.match_index(peer_id) == match_index || after.match_index(peer_id)
                == log.match_index(peer_id)
            &&& other != peer_id ==> after.match_index(other) == log.match_index(other)
            &&& again <= match_index ==> after.record_peer_append(peer_id, again) == after
        }),
{
    let after = log.record_peer_append(peer_id, match_index);
    if again <= match_index {
        assert(after.record_peer_append(peer_id, again) =~= after);
    }
}

/// Reports may come in any order.
pub proof fn law_peer_reports_commute(
    log: LogView,
    peer_a: u64,
    match_a: nat,
    peer_b: u64,
    match_b: nat,
)
    ensures
        log.record_peer_append(peer_a, match_a).record_peer_append(peer_b, match_b)
            == log.record_peer_append(peer_b, match_b).record_peer_append(peer_a, match_a),
{
    assert(log.record_peer_append(peer_a, match_a).record_peer_append(peer_b, match_b)
        =~= log.record_peer_append(peer_b, match_b).record_peer_append(peer_a, match_a));
}

/// Before any peer reports, only this node counts.
pub proof fn law_replicas_without_peers(log: LogView, index: nat)
    requires
        log.peers == Map::<u64, nat>::empty(),
    ensures
        log.replicas(index) == if index <= log.last_index() {
            1nat
        } else {
            0nat
        },
{
    assert(log.acknowledging(index) =~= Set::<u64>::empty());
}

/// A report adds its peer to the replicas of the indices that it newly reaches, and
/// changes no other count.
pub proof fn law_replicas_after_report(
    log: LogView,
    peer_id: u64,
    match_index: nat,
    index: nat,
)
    requires
        log.wf(),
    ensures
        log.record_peer_append(peer_id, match_index).replicas(index) == log.replicas(index)
            + if index <= match_index && !(log.peers.contains_key(peer_id) && index
            <= log.peers[peer_id]) {
            1nat
        } else {
            0nat
        },
{
    let after = log.record_peer_append(peer_id, match_index);
    lemma_acknowledging_finite(log, index);
    if index <= match_index {
        assert(after.acknowledging(index) =~= log.acknowledging(index).insert(peer_id));
    } else {
        assert(after.acknowledging(index) =~= log.acknowledging(index));
    }
}

/// Whoever has appended an index has appended all before it.
pub proof fn law_replicas_fall_with_index(log: LogView, earlier: nat, later: nat)
    requires
        log.wf(),
        earlier <= later,
    ensures
        log.replicas(earlier) >= log.replicas(later),
{
    lemma_acknowledging_finite(log, earlier);
    assert(log.acknowledging(later).subset_of(log.acknowledging(earlier)));
    lemma_len_subset(log.acknowledging(later), log.acknowledging(earlier));
}

/// When the commit index advances, the log holds the new one, and a majority of the
/// cluster has appended it and everything before.
pub proof fn law_advance_commit_needs_majority(log: LogView, index: nat)
    requires
        log.wf(),
        log.advance_commit().commit_index != log.commit_index,
        index <= log.advance_commit().commit_index,
    ensures
        log.advance_commit().commit_index > log.commit_index,
        log.contains(log.advance_commit().commit_index),
        2 * log.replicas(index) > log.cluster_size,
{
    let reached = choose|i: nat| log.replicated_up_to(i);
    assert(log.replicated_up_to(reached));
    law_replicas_fall_with_index(log, index, reached);
}

/// Once a quorum of nodes has appended an index of the log, there is a highest such index.
pub proof fn law_quorum_reaches_an_index(log: LogView, index: nat)
    requires
        log.contains(index),
        log.replicas(index) >= log.quorum(),
    ensures
        exists|highest: nat| log.replicated_up_to(highest) && highest >= index,
    decreases log.next_index() - index,
{
    if exists|later: nat|
        later > index && log.contains(later) && #[trigger] log.replicas(later) >= log.quorum() {
        let later = choose|later: nat|
            later > index && log.contains(later) && #[trigger] log.replicas(later)
                >= log.quorum();
        law_quorum_reaches_an_index(log, later);
    } else {
        assert(log.replicated_up_to(index));
    }
}

/// Whatever in the log a quorum of nodes has appended is committed by advancing: it lies
/// within the commit index and is marked so.
pub proof fn law_advance_commit_commits_all(log: LogView, index: nat)
    requires
        log.contains(index),
        log.replicas(index) >= log.quorum(),
    ensures
        index <= log.advance_commit().commit_index,
        log.advance_commit().entry(index) == log.entry(index).committed(),
{
    law_quorum_reaches_an_index(log, index);
    let highest = choose|i: nat| log.replicated_up_to(i) && i >= index;
    let reached = choose|i: nat| log.replicated_up_to(i);
    log.lemma_replicated_up_to_unique(highest, reached);
}

/// Whatever a quorum has not appended keeps its status.
pub proof fn law_advance_commit_commits_no_more(log: LogView, index: nat)
    requires
        log.wf(),
        log.contains(index),
        log.replicas(index) < log.quorum(),
    ensures
        log.advance_commit().entry(index) == log.entry(index),
{
    if exists|i: nat| log.replicated_up_to(i) {
        let reached = choose|i: nat| log.replicated_up_to(i);
        if index <= reached {
            law_replicas_fall_with_index(log, index, reached);
        }
    }
}

/// Advancing touches only the commit index and the statuses, and advancing again at once
/// changes nothing.
pub proof fn law_advance_commit_settles(log: LogView, index: nat)
    ensures
        log.advance_commit() == (LogView {
            entries: log.advance_commit().entries,
            commit_index: log.advance_commit().commit_index,
            ..log
        }),
        log.advance_commit().entries.len() == log.entries.len(),
        log.contains(index) ==> log.advance_commit().entry(index) == (EntryView {
            status: log.advance_commit().entry(index).status,
            ..log.entry(index)
        }),
        log.advance_commit().advance_commit() == log.advance_commit(),
{
    let after = log.advance_commit();
    if exists|i: nat| log.replicated_up_to(i) {
        let reached = choose|i: nat| log.replicated_up_to(i);
        assert(log.replicated_up_to(reached));
        assert forall|i: nat| #[trigger] after.replicated_up_to(i) <==> log.replicated_up_to(i) by {
            lemma_same_replication(log, after, i);
        }
        assert(after.replicated_up_to(reached));
        let again = choose|i: nat| after.replicated_up_to(i);
        log.lemma_replicated_up_to_unique(reached, again);
        law_commit_in_steps(log, reached, reached);
    }
}

/// While fewer nodes than a quorum have reported, nothing is committed.
pub proof fn law_too_few_nodes_commit_nothing(log: LogView)
    requires
        log.wf(),
        log.peers.len() + 1 < log.quorum(),
    ensures
        log.advance_commit() == log,
{
    assert forall|index: nat| !(#[trigger] log.replicated_up_to(index)) by {
        lemma_len_subset(log.acknowledging(index), log.peers.dom());
    }
}

/// A log that keeps its last entry commits after compaction what it would have
/// committed before, as far as it still holds it.
pub proof fn law_compact_keeps_commits(log: LogView, through_index: nat, index: nat)
    requires
        through_index < log.last_index(),
        index > through_index,
    ensures
        log.compact(through_index).replicated_up_to(index) <==> log.replicated_up_to(index),
{
    let after = log.compact(through_index);
    assert forall|i: nat| #[trigger] after.replicas(i) == log.replicas(i) by {
        assert(after.acknowledging(i) =~= log.acknowledging(i));
    }
    assert(forall|i: nat| #[trigger] log.replicas(i) == after.replicas(i));
}

/// Replication depends on how far the log and the reports reach, not on the entries.
proof fn lemma_same_replication(a: LogView, b: LogView, index: nat)
    requires
        a.entries.len() == b.entries.len(),
        a.first_index == b.first_index,
        a.cluster_size == b.cluster_size,
        a.peers == b.peers,
    ensures
        a.replicated_up_to(index) <==> b.replicated_up_to(index),
{
    assert forall|i: nat| #[trigger] a.replicas(i) == b.replicas(i) by {
        assert(a.acknowledging(i) =~= b.acknowledging(i));
    }
    assert(forall|i: nat| #[trigger] b.replicas(i) == a.replicas(i));
}

proof fn lemma_acknowledging_finite(log: LogView, index: nat)
    requires
        log.wf(),
    ensures
        log.acknowledging(index).finite(),
{
    broadcast use vstd::set_lib::lemma_set_subset_finite;

    assert(log.acknowledging(index).subset_of(log.peers.dom()));
}

} // verus!

//! Edge cases, and each property of the log on concrete values.

use oxide_raft_log::{EntryStatus, LogEntry, NodeState, ReplicatedLog};

fn cmd(text: &str) -> Vec<u8> {
    text.as_bytes().to_vec()
}

/// A log with one entry per term, in a cluster of `nodes`.
fn log_of(nodes: usize, terms: &[u64]) -> ReplicatedLog {
    let mut log = ReplicatedLog::new(nodes);
    for (i, term) in terms.iter().enumerate() {
        log.append(*term, vec![i as u8 + 1]);
    }
    log
}

fn terms(log: &ReplicatedLog, from: u64) -> Vec<u64> {
    log.entries_from(from).iter().map(|e| e.term).collect()
}

fn indices(log: &ReplicatedLog, from: u64) -> Vec<u64> {
    log.entries_from(from).iter().map(|e| e.index).collect()
}

fn statuses(log: &ReplicatedLog, from: u64) -> Vec<i8> {
    log.entries_from(from).iter().map(|e| e.status.value()).collect()
}

#[test]
fn new_log_is_empty() {
    let log = ReplicatedLog::new(3);
    assert!(log.is_empty());
    assert_eq!(log.len(), 0);
    assert_eq!(log.current_term(), 0);
    assert_eq!(log.commit_index(), 0);
    assert_eq!(log.last_log_index(), 0);
    assert_eq!(log.last_log_term(), 0);
    assert_eq!(log.node_state(), NodeState::Follower);
    assert!(log.get(0).is_none());
    assert!(log.get(1).is_none());
    assert!(log.entries_from(1).is_empty());
}

#[test]
fn fresh_entry_is_appended() {
    let entry = LogEntry::new(7, 3, cmd("x"));
    assert_eq!(entry.index, 7);
    assert_eq!(entry.term, 3);
    assert_eq!(entry.command, cmd("x"));
    assert_eq!(entry.status, EntryStatus::Appended);
    let copy = entry.clone();
    assert_eq!(copy, entry);
    assert_ne!(copy, LogEntry::new(7, 3, cmd("y")));
}

#[test]
fn append_is_read_back() {
    let mut log = log_of(3, &[1, 1]);
    let index = log.append(4, cmd("set x = 42"));
    assert_eq!(index, 3);
    assert_eq!(*log.get(3).unwrap(), LogEntry::new(3, 4, cmd("set x = 42")));
    assert_eq!(*log.get(2).unwrap(), LogEntry::new(2, 1, vec![2]));
    assert_eq!(log.current_term(), 4);
    assert!(!log.is_empty());
}

#[test]
fn append_in_an_earlier_term_keeps_current_term() {
    let mut log = log_of(3, &[5]);
    assert_eq!(log.append(2, cmd("late")), 2);
    assert_eq!(log.current_term(), 5);
    assert_eq!(log.last_log_term(), 2);
}

#[test]
fn append_at_next_index_appends() {
    let mut by_leader = log_of(3, &[1, 2]);
    let mut own = log_of(3, &[1, 2]);
    assert_eq!(by_leader.append_at(3, 6, cmd("c")), EntryStatus::Appended);
    assert_eq!(own.append(6, cmd("c")), 3);
    assert_eq!(by_leader.entries_from(1), own.entries_from(1));
    assert_eq!(by_leader.current_term(), own.current_term());
}

#[test]
fn append_at_first_index_of_an_empty_log() {
    let mut log = ReplicatedLog::new(3);
    assert_eq!(log.append_at(0, 1, cmd("zero")), EntryStatus::Conflicting);
    assert_eq!(log.append_at(2, 1, cmd("gap")), EntryStatus::Conflicting);
    assert_eq!(log.append_at(1, 1, cmd("one")), EntryStatus::Appended);
    assert_eq!(log.len(), 1);
    assert_eq!(log.get(1).unwrap().command, cmd("one"));
}

#[test]
fn gap_is_rejected_but_its_term_is_noted() {
    let mut log = log_of(3, &[1, 1]);
    assert_eq!(log.append_at(4, 9, cmd("gap")), EntryStatus::Conflicting);
    assert_eq!(terms(&log, 1), vec![1, 1]);
    assert_eq!(log.current_term(), 9);
}

#[test]
fn huge_index_is_rejected() {
    let mut log = log_of(3, &[1, 1]);
    assert_eq!(log.append_at(u64::MAX, 2, cmd("far")), EntryStatus::Conflicting);
    assert!(log.get(u64::MAX).is_none());
    assert!(!log.commit(u64::MAX));
    assert!(log.entries_from(u64::MAX).is_empty());
    assert_eq!(log.len(), 2);
    assert_eq!(log.compact(u64::MAX), 2);
    assert_eq!(log.append(1, cmd("three")), 3);
}

#[test]
fn lower_term_is_rejected_without_a_trace() {
    let mut log = log_of(3, &[2, 5, 5]);
    assert_eq!(log.append_at(2, 4, cmd("old")), EntryStatus::Conflicting);
    assert_eq!(terms(&log, 1), vec![2, 5, 5]);
    assert_eq!(log.get(2).unwrap().command, vec![2]);
    assert_eq!(log.current_term(), 5);
}

#[test]
fn higher_term_wins_and_truncates() {
    let mut log = log_of(3, &[1, 1, 1, 1]);
    assert_eq!(log.append_at(2, 2, cmd("new")), EntryStatus::Appended);
    assert_eq!(terms(&log, 1), vec![1, 2]);
    assert_eq!(*log.get(1).unwrap(), LogEntry::new(1, 1, vec![1]));
    assert_eq!(*log.get(2).unwrap(), LogEntry::new(2, 2, cmd("new")));
    assert_eq!(log.last_log_index(), 2);
    assert_eq!(log.append(2, cmd("next")), 3);
}

#[test]
fn append_at_twice_is_append_at_once() {
    for (index, term) in [(2u64, 3u64), (2, 1), (3, 1), (9, 4), (1, 0)] {
        let mut log = log_of(3, &[1, 1]);
        let first = log.append_at(index, term, cmd("a"));
        let kept: Vec<LogEntry> = log.entries_from(1).into_iter().cloned().collect();
        let second = log.append_at(index, term, cmd("b"));
        assert_eq!(first, second);
        let now: Vec<LogEntry> = log.entries_from(1).into_iter().cloned().collect();
        assert_eq!(kept, now);
    }
}

#[test]
fn overwriting_keeps_the_commit_index() {
    let mut log = log_of(3, &[1, 1, 1]);
    assert!(log.commit(3));
    assert_eq!(log.append_at(2, 2, cmd("new")), EntryStatus::Appended);
    assert_eq!(log.commit_index(), 3);
    assert_eq!(statuses(&log, 1), vec![1, 0]);
}

#[test]
fn commit_marks_the_prefix() {
    let mut log = log_of(3, &[1, 1, 1]);
    assert!(log.commit(2));
    assert_eq!(statuses(&log, 1), vec![1, 1, 0]);
    assert_eq!(log.commit_index(), 2);
    // An earlier commit changes nothing.
    assert!(log.commit(1));
    assert_eq!(statuses(&log, 1), vec![1, 1, 0]);
    assert_eq!(log.commit_index(), 2);
    assert!(log.commit(3));
    assert_eq!(statuses(&log, 1), vec![1, 1, 1]);
    assert_eq!(log.commit_index(), 3);
}

#[test]
fn commit_of_an_unknown_index_fails() {
    let mut log = log_of(3, &[1]);
    assert!(!log.commit(0));
    assert!(!log.commit(2));
    assert_eq!(log.commit_index(), 0);
    assert_eq!(statuses(&log, 1), vec![0]);
}

#[test]
fn compaction_keeps_references() {
    let mut log = log_of(3, &[1, 2, 3, 4, 5]);
    assert_eq!(log.compact(2), 2);
    assert!(log.get(2).is_none());
    assert_eq!(*log.get(3).unwrap(), LogEntry::new(3, 3, vec![3]));
    assert_eq!(indices(&log, 3), vec![3, 4, 5]);
    assert_eq!(log.last_log_index(), 5);
    assert_eq!(log.last_log_term(), 5);
    // What is gone cannot be compacted again.
    assert_eq!(log.compact(2), 0);
    assert_eq!(log.compact(0), 0);
    assert_eq!(log.compact(4), 2);
    assert_eq!(indices(&log, 5), vec![5]);
    assert_eq!(log.append(5, cmd("six")), 6);
    assert_eq!(log.get(6).unwrap().index, 6);
}

#[test]
fn indices_go_on_after_everything_is_compacted() {
    let mut log = log_of(3, &[1, 1, 2]);
    assert_eq!(log.compact(3), 3);
    assert!(log.is_empty());
    assert_eq!(log.last_log_index(), 0);
    assert_eq!(log.last_log_term(), 0);
    assert_eq!(log.append_at(1, 2, cmd("gone")), EntryStatus::Conflicting);
    assert_eq!(log.append_at(5, 2, cmd("gap")), EntryStatus::Conflicting);
    assert_eq!(log.append(2, cmd("four")), 4);
    assert_eq!(*log.get(4).unwrap(), LogEntry::new(4, 2, cmd("four")));
    assert!(log.get(1).is_none());
    assert_eq!(log.last_log_index(), 4);
    assert_eq!(log.append_at(5, 2, cmd("five")), EntryStatus::Appended);
    assert_eq!(indices(&log, 4), vec![4, 5]);
}

#[test]
fn compacting_and_appending_commute() {
    let mut a = log_of(3, &[1, 1]);
    a.compact(2);
    a.append(3, cmd("x"));
    let mut b = log_of(3, &[1, 1]);
    b.append(3, cmd("x"));
    b.compact(2);
    assert_eq!(a.entries_from(3), b.entries_from(3));
    assert_eq!(a.len(), 1);
    assert_eq!(b.len(), 1);
}

#[test]
fn append_at_before_the_compacted_log_is_rejected() {
    let mut log = log_of(3, &[1, 1, 1]);
    log.compact(2);
    assert_eq!(log.append_at(2, 8, cmd("x")), EntryStatus::Conflicting);
    assert_eq!(indices(&log, 3), vec![3]);
    assert_eq!(log.append_at(3, 8, cmd("y")), EntryStatus::Appended);
    assert_eq!(*log.get(3).unwrap(), LogEntry::new(3, 8, cmd("y")));
}

#[test]
fn entries_from_an_index() {
    let mut log = log_of(3, &[1, 2, 3]);
    assert_eq!(terms(&log, 1), vec![1, 2, 3]);
    assert_eq!(terms(&log, 3), vec![3]);
    assert!(log.entries_from(4).is_empty());
    assert_eq!(terms(&log, 0), vec![1, 2, 3]);
    log.compact(1);
    assert_eq!(indices(&log, 0), vec![2, 3]);
    assert_eq!(indices(&log, 1), vec![2, 3]);
    assert_eq!(indices(&log, 2), vec![2, 3]);
    assert_eq!(indices(&log, 3), vec![3]);
    log.compact(3);
    assert!(log.entries_from(1).is_empty());
}

#[test]
fn commit_index_reaches_what_a_majority_has() {
    let mut log = log_of(5, &[1, 1, 1]);
    log.record_peer_append(2, 3);
    assert_eq!(log.advance_commit(), 0);
    assert_eq!(statuses(&log, 1), vec![0, 0, 0]);
    log.record_peer_append(3, 1);
    assert_eq!(log.advance_commit(), 1);
    assert_eq!(statuses(&log, 1), vec![1, 0, 0]);
    assert_eq!(log.advance_commit(), 1);
    assert_eq!(statuses(&log, 1), vec![1, 0, 0]);
    log.record_peer_append(4, 2);
    assert_eq!(log.advance_commit(), 2);
    log.record_peer_append(3, 3);
    assert_eq!(log.advance_commit(), 3);
    assert_eq!(log.commit_index(), 3);
    assert_eq!(statuses(&log, 1), vec![1, 1, 1]);
}

#[test]
fn half_of_an_even_cluster_is_no_majority() {
    let mut log = log_of(4, &[1]);
    log.record_peer_append(2, 1);
    assert_eq!(log.advance_commit(), 0);
    log.record_peer_append(3, 1);
    assert_eq!(log.advance_commit(), 1);
}

#[test]
fn a_cluster_of_one_commits_alone() {
    let mut log = log_of(1, &[1, 1]);
    assert_eq!(log.advance_commit(), 2);
    let mut none = log_of(0, &[1, 1]);
    assert_eq!(none.advance_commit(), 2);
    assert_eq!(ReplicatedLog::new(1).advance_commit(), 0);
}

#[test]
fn too_few_nodes_commit_nothing() {
    let mut log = log_of(7, &[1, 1]);
    log.record_peer_append(2, 2);
    log.record_peer_append(3, 2);
    assert_eq!(log.advance_commit(), 0);
}

#[test]
fn peers_ahead_commit_up_to_the_end_of_the_log() {
    let mut log = log_of(3, &[1, 1, 1]);
    log.record_peer_append(2, 5);
    log.record_peer_append(3, 5);
    assert_eq!(log.advance_commit(), 3);
    assert_eq!(statuses(&log, 1), vec![1, 1, 1]);
    // The next entry is on a majority as soon as it is here.
    assert_eq!(log.append(1, cmd("d")), 4);
    assert_eq!(log.advance_commit(), 4);
}

#[test]
fn a_compacted_index_is_not_committed() {
    let mut log = log_of(3, &[1, 1, 1]);
    log.record_peer_append(2, 2);
    log.compact(2);
    assert_eq!(log.advance_commit(), 0);
    log.record_peer_append(2, 3);
    assert_eq!(log.advance_commit(), 3);
    // Nothing is left to commit.
    let mut emptied = log_of(1, &[1, 1]);
    emptied.compact(2);
    assert_eq!(emptied.advance_commit(), 0);
}

#[test]
fn advancing_marks_the_entry_as_committed() {
    let mut log = ReplicatedLog::new(1);
    log.append(1, cmd("a"));
    assert_eq!(log.get(1).unwrap().status, EntryStatus::Appended);
    assert_eq!(log.advance_commit(), 1);
    assert_eq!(log.get(1).unwrap().status, EntryStatus::Committed);
    // An entry that replaces it is committed in its turn.
    assert_eq!(log.append_at(1, 2, cmd("b")), EntryStatus::Appended);
    assert_eq!(log.get(1).unwrap().status, EntryStatus::Appended);
    assert_eq!(log.advance_commit(), 1);
    assert_eq!(log.get(1).unwrap().status, EntryStatus::Committed);
}

#[test]
fn compacting_past_the_end_removes_everything() {
    let mut log = log_of(3, &[1, 1, 1]);
    assert_eq!(log.compact(10), 3);
    assert!(log.is_empty());
    assert_eq!(log.compact(10), 0);
    assert_eq!(log.append(1, cmd("four")), 4);
    assert_eq!(log.get(4).unwrap().index, 4);
}

#[test]
fn compacting_in_steps_adds_up() {
    let mut steps = log_of(3, &[1, 1, 1, 1]);
    let mut once = log_of(3, &[1, 1, 1, 1]);
    assert_eq!(steps.compact(1) + steps.compact(3), 3);
    assert_eq!(once.compact(3), 3);
    assert_eq!(steps.entries_from(0), once.entries_from(0));
    assert_eq!(steps.compact(2), 0);
}

#[test]
fn commit_index_does_not_fall() {
    let mut log = log_of(3, &[1, 1, 1]);
    assert!(log.commit(3));
    log.record_peer_append(2, 1);
    assert_eq!(log.advance_commit(), 3);
}

#[test]
fn the_highest_report_of_a_peer_counts() {
    let mut log = log_of(3, &[1, 1, 1]);
    log.record_peer_append(2, 2);
    log.record_peer_append(2, 1);
    log.record_peer_append(2, 2);
    assert_eq!(log.advance_commit(), 2);
}

#[test]
fn a_peer_counts_once() {
    let mut log = log_of(5, &[1, 1]);
    log.record_peer_append(2, 1);
    log.record_peer_append(2, 2);
    assert_eq!(log.advance_commit(), 0);
}

#[test]
fn reports_commute() {
    let reports = [(2u64, 3u64), (3, 1), (4, 2), (2, 1)];
    let mut forward = log_of(5, &[1, 1, 1]);
    for (peer, index) in reports.iter() {
        forward.record_peer_append(*peer, *index);
    }
    let mut backward = log_of(5, &[1, 1, 1]);
    for (peer, index) in reports.iter().rev() {
        backward.record_peer_append(*peer, *index);
    }
    assert_eq!(forward.advance_commit(), 2);
    assert_eq!(backward.advance_commit(), 2);
}

#[test]
fn more_peers_than_the_cluster_has() {
    let mut log = log_of(3, &[1, 1, 1, 1]);
    for peer in 2u64..7 {
        log.record_peer_append(peer, peer - 1);
    }
    // Match indices 5, 4, 4, 3, 2, 1: the second highest counts.
    assert_eq!(log.advance_commit(), 4);
}

#[test]
fn stale_term_changes_nothing() {
    let mut log = ReplicatedLog::new(3);
    log.advance_term(4);
    log.become_leader();
    log.advance_term(4);
    assert_eq!(log.node_state(), NodeState::Leader);
    log.advance_term(3);
    assert_eq!(log.node_state(), NodeState::Leader);
    assert_eq!(log.current_term(), 4);
    log.advance_term(5);
    assert_eq!(log.node_state(), NodeState::Follower);
    assert_eq!(log.current_term(), 5);
}

#[test]
fn elections_count_up() {
    let mut log = log_of(3, &[6]);
    assert_eq!(log.start_election(), 7);
    assert_eq!(log.start_election(), 8);
    assert_eq!(log.current_term(), 8);
    log.set_node_state(NodeState::Leader);
    assert_eq!(log.node_state(), NodeState::Leader);
    log.set_node_state(NodeState::Follower);
    assert_eq!(log.node_state(), NodeState::Follower);
    assert_eq!(terms(&log, 1), vec![6]);
}

#[test]
fn up_to_date_order() {
    let log = log_of(3, &[1, 3]);
    assert!(log.is_log_up_to_date(3, 2));
    assert!(log.is_log_up_to_date(4, 0));
    assert!(!log.is_log_up_to_date(2, u64::MAX));
    assert!(!log.is_log_up_to_date(3, 1));
    // Anyone is up-to-date with an empty log.
    assert!(ReplicatedLog::new(3).is_log_up_to_date(0, 0));
}

#[test]
fn compacting_a_committed_prefix_drops_committed_entries() {
    let mut log = log_of(3, &[1, 1, 2, 2]);
    assert!(log.commit(3));
    assert_eq!(statuses(&log, 1), vec![1, 1, 1, 0]);
    assert_eq!(log.compact(3), 3);
    assert_eq!(statuses(&log, 4), vec![0]);
    assert_eq!(log.commit_index(), 3);
}

#[test]
fn compaction_keeps_what_can_be_committed() {
    let mut whole = log_of(3, &[1, 1, 1, 1]);
    let mut short = log_of(3, &[1, 1, 1, 1]);
    assert_eq!(short.compact(2), 2);
    whole.record_peer_append(2, 3);
    short.record_peer_append(2, 3);
    assert_eq!(whole.advance_commit(), 3);
    assert_eq!(short.advance_commit(), 3);
}

#[test]
fn terms_and_commit_index_never_fall() {
    let mut log = log_of(3, &[3, 4]);
    assert!(log.commit(2));
    log.append(1, cmd("x"));
    log.append_at(9, 2, cmd("y"));
    log.append_at(3, 0, cmd("z"));
    log.advance_term(1);
    log.commit(1);
    log.record_peer_append(2, 1);
    log.advance_commit();
    log.compact(3);
    assert_eq!(log.current_term(), 4);
    assert_eq!(log.commit_index(), 2);
}

#[test]
fn longer_log_in_the_same_term_is_up_to_date() {
    let shorter = log_of(3, &[2, 2]);
    let longer = log_of(3, &[2, 2, 2]);
    assert!(shorter.is_log_up_to_date(longer.last_log_term(), longer.last_log_index()));
    assert!(!longer.is_log_up_to_date(shorter.last_log_term(), shorter.last_log_index()));
}

//! The log used as its callers use it.

use oxide_raft_log::{EntryStatus, NodeState, ReplicatedLog};

#[test]
fn test_append_and_index() {
    let mut log = ReplicatedLog::new(3);
    let idx1 = log.append(1, b"cmd1".to_vec());
    let idx2 = log.append(1, b"cmd2".to_vec());
    let idx3 = log.append(2, b"cmd3".to_vec());

    assert_eq!(idx1, 1);
    assert_eq!(idx2, 2);
    assert_eq!(idx3, 3);
    assert_eq!(log.len(), 3);
    assert_eq!(log.last_log_index(), 3);
    assert_eq!(log.last_log_term(), 2);
}

#[test]
fn test_entry_status_ternary() {
    assert_eq!(EntryStatus::Conflicting.value(), -1);
    assert_eq!(EntryStatus::Appended.value(), 0);
    assert_eq!(EntryStatus::Committed.value(), 1);
}

#[test]
fn test_append_at_conflict_detection_higher_term_wins() {
    let mut log = ReplicatedLog::new(3);
    log.append(1, b"original".to_vec());

    // Overwrite with higher term - should succeed.
    let status = log.append_at(1, 3, b"overwrite".to_vec());
    assert_eq!(status, EntryStatus::Appended);
    assert_eq!(log.get(1).unwrap().term, 3);
    assert_eq!(log.get(1).unwrap().command, b"overwrite".to_vec());
}

#[test]
fn test_append_at_conflict_detection_lower_term_rejected() {
    let mut log = ReplicatedLog::new(3);
    log.append(5, b"original".to_vec());

    // Try to append with lower term - should be rejected.
    let status = log.append_at(1, 2, b"reject".to_vec());
    assert_eq!(status, EntryStatus::Conflicting);
    assert_eq!(log.get(1).unwrap().term, 5);
}

#[test]
fn test_append_at_idempotent_same_term() {
    let mut log = ReplicatedLog::new(3);
    log.append(1, b"original".to_vec());

    let status = log.append_at(1, 1, b"duplicate".to_vec());
    assert_eq!(status, EntryStatus::Appended);
    // Original should be preserved (idempotent).
    assert_eq!(log.get(1).unwrap().command, b"original".to_vec());
}

#[test]
fn test_commit_advancement_with_quorum() {
    let mut log = ReplicatedLog::new(5); // 5 nodes, quorum = 3
    log.append(1, b"a".to_vec()); // index 1
    log.append(1, b"b".to_vec()); // index 2
    log.append(1, b"c".to_vec()); // index 3

    // Self has appended all 3. Peers have partial.
    log.record_peer_append(2, 3); // peer 2 has all
    log.record_peer_append(3, 2); // peer 3 has up to 2
    log.record_peer_append(4, 1); // peer 4 has up to 1

    let new_commit = log.advance_commit();
    // 3 nodes (self + peer 2 + peer 3) have at least index 2 so commit advances to 2.
    assert_eq!(new_commit, 2);
}

#[test]
fn test_compaction_removes_committed_prefix() {
    let mut log = ReplicatedLog::new(3);
    log.append(1, b"a".to_vec()); // index 1
    log.append(1, b"b".to_vec()); // index 2
    log.append(1, b"c".to_vec()); // index 3

    // Commit first two entries.
    log.commit(2);

    // Compact through index 2.
    let removed = log.compact(2);
    assert_eq!(removed, 2);
    assert_eq!(log.len(), 1);
    assert!(log.get(1).is_none());
    assert!(log.get(2).is_none());
    assert_eq!(log.get(3).unwrap().command, b"c".to_vec());
    assert_eq!(log.last_log_index(), 3);
}

#[test]
fn test_leader_election_state_transitions() {
    let mut log = ReplicatedLog::new(3);

    assert_eq!(log.node_state(), NodeState::Follower);

    // Start election.
    let new_term = log.start_election();
    assert_eq!(log.node_state(), NodeState::Candidate);
    assert_eq!(new_term, 1);
    assert_eq!(log.current_term(), 1);

    // Win election.
    log.become_leader();
    assert_eq!(log.node_state(), NodeState::Leader);

    // Discover higher term from another leader.
    log.advance_term(5);
    assert_eq!(log.node_state(), NodeState::Follower);
    assert_eq!(log.current_term(), 5);
}

#[test]
fn test_log_up_to_date_check() {
    let mut log = ReplicatedLog::new(3);
    log.append(2, b"x".to_vec()); // index 1, term 2
    log.append(2, b"y".to_vec()); // index 2, term 2

    // Candidate with same last term but shorter log so not up to date.
    assert!(!log.is_log_up_to_date(2, 1));

    // Candidate with same last term and same/longer log so up to date.
    assert!(log.is_log_up_to_date(2, 2));
    assert!(log.is_log_up_to_date(2, 3));

    // Candidate with higher last term so up to date regardless.
    assert!(log.is_log_up_to_date(3, 1));

    // Candidate with lower last term so not up to date.
    assert!(!log.is_log_up_to_date(1, 5));
}

#[test]
fn test_append_at_truncates_on_conflict() {
    let mut log = ReplicatedLog::new(3);
    log.append(1, b"a".to_vec()); // index 1
    log.append(1, b"b".to_vec()); // index 2
    log.append(1, b"c".to_vec()); // index 3

    // Append at index 2 with higher term - should truncate index 2 and 3.
    let status = log.append_at(2, 3, b"b-new".to_vec());
    assert_eq!(status, EntryStatus::Appended);
    assert_eq!(log.len(), 2);
    assert_eq!(log.get(2).unwrap().command, b"b-new".to_vec());
    assert!(log.get(3).is_none());
}

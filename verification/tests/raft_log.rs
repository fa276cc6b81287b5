use hyperion_vault::raft::log::{normalize_raft_log, reset_raft_state, RaftState};
use hyperion_vault::raft::types::{
    outcome_to_result, ApplyResult, EntryPayload, LogEntry, LogId, StoredMembership, Vote,
};
use hyperion_vault::store::model::StoreError;

fn log_id(term: u64, node_id: u64, index: u64) -> LogId {
    LogId { term, node_id, index }
}

fn entry(index: u64) -> LogEntry {
    LogEntry { log_id: log_id(1, 1, index), payload: EntryPayload::Blank }
}

fn log_keys(raft: &RaftState) -> Vec<u64> {
    raft.log.keys().copied().collect()
}

fn insert_log(raft: &mut RaftState, indexes: &[u64]) {
    for index in indexes {
        raft.log.insert(*index, entry(*index));
    }
}

#[test]
fn normalize_sets_purged_when_snapshot_covers_empty_log() {
    let mut raft = RaftState::new();
    let applied = log_id(696, 3, 18010);
    raft.last_applied = Some(applied);
    assert!(raft.last_purged.is_none(), "precondition: nothing purged yet");

    normalize_raft_log(&mut raft);

    assert_eq!(
        raft.last_purged,
        Some(applied),
        "purged must advance to the snapshot's last log id so absent entries are not read"
    );
}

#[test]
fn normalize_is_noop_without_snapshot() {
    let mut raft = RaftState::new();
    normalize_raft_log(&mut raft);
    assert!(raft.last_purged.is_none(), "no snapshot applied: nothing to normalize");
}

#[test]
fn normalize_advances_past_stray_low_index_entry() {
    let mut raft = RaftState::new();
    insert_log(&mut raft, &[0]);
    let applied = log_id(696, 3, 18010);
    raft.last_applied = Some(applied);

    let removed = normalize_raft_log(&mut raft);

    assert_eq!(raft.last_purged, Some(applied));
    assert!(log_keys(&raft).is_empty(), "a leftover low-index entry must be dropped");
    assert_eq!(removed, vec![0]);
}

#[test]
fn normalize_truncates_noncontiguous_tail() {
    let mut raft = RaftState::new();
    insert_log(&mut raft, &[18011, 18013]);
    raft.last_applied = Some(log_id(696, 3, 18010));

    normalize_raft_log(&mut raft);

    assert_eq!(
        log_keys(&raft),
        vec![18011],
        "entries after the first gap above last_applied must be truncated (the leader re-sends them)"
    );
}

#[test]
fn normalize_keeps_contiguous_tail() {
    let mut raft = RaftState::new();
    insert_log(&mut raft, &[0, 18011, 18012]);
    raft.last_applied = Some(log_id(696, 3, 18010));

    normalize_raft_log(&mut raft);

    assert_eq!(
        log_keys(&raft),
        vec![18011, 18012],
        "a contiguous tail above last_applied must be preserved"
    );
}

#[test]
fn reset_clears_raft_state() {
    let mut raft = RaftState::new();
    insert_log(&mut raft, &[1, 2, 3]);
    raft.last_applied = Some(log_id(5, 1, 3));
    raft.last_purged = Some(log_id(5, 1, 1));

    reset_raft_state(&mut raft);

    assert!(log_keys(&raft).is_empty(), "log must be cleared");
    assert!(
        raft.last_applied.is_none() && raft.last_purged.is_none(),
        "raft metadata must be cleared"
    );
}

#[test]
fn normalizing_twice_changes_nothing_more() {
    let mut raft = RaftState::new();
    insert_log(&mut raft, &[3, 11, 12, 14]);
    raft.last_applied = Some(log_id(2, 1, 10));
    assert_eq!(normalize_raft_log(&mut raft), vec![3, 14]);
    assert!(normalize_raft_log(&mut raft).is_empty());
    assert_eq!(log_keys(&raft), vec![11, 12]);
    assert_eq!(raft.last_purged, Some(log_id(2, 1, 10)));
}

#[test]
fn log_is_read_cut_and_purged_by_index() {
    let mut raft = RaftState::new();
    let entries: Vec<LogEntry> = (1..=6).map(entry).collect();
    raft.append(&entries);
    let read = |raft: &RaftState, from: u64, to: Option<u64>| -> Vec<u64> {
        raft.try_get_log_entries(from, to).iter().map(|e| e.log_id.index).collect()
    };
    assert_eq!(read(&raft, 2, Some(4)), vec![2, 3]);
    assert_eq!(read(&raft, 5, None), vec![5, 6]);
    assert_eq!(read(&raft, 9, None), Vec::<u64>::new());
    let state = raft.get_log_state();
    assert_eq!(state.last_log_id, Some(log_id(1, 1, 6)));
    assert_eq!(state.last_purged_log_id, None);

    assert_eq!(raft.truncate(log_id(1, 1, 5)), vec![5, 6]);
    assert_eq!(log_keys(&raft), vec![1, 2, 3, 4]);
    assert_eq!(raft.purge(log_id(1, 1, 2)), vec![1, 2]);
    assert_eq!(log_keys(&raft), vec![3, 4]);
    assert_eq!(raft.last_purged, Some(log_id(1, 1, 2)));
    raft.purge(log_id(1, 1, 4));
    let state = raft.get_log_state();
    assert_eq!(state.last_log_id, Some(log_id(1, 1, 4)));
    assert_eq!(state.last_purged_log_id, Some(log_id(1, 1, 4)));
}

#[test]
fn votes_are_read_back() {
    let mut raft = RaftState::new();
    assert!(raft.read_vote().is_none());
    let vote = Vote { term: 4, node_id: 2, committed: true };
    raft.save_vote(vote);
    assert_eq!(raft.read_vote(), Some(vote));
    assert!(raft.members().log_id.is_none());
    raft.membership = Some(StoredMembership { log_id: Some(log_id(1, 1, 1)), members: vec![7] });
    assert_eq!(raft.members().members, vec![7]);
}

#[test]
fn outcomes_become_results() {
    assert!(outcome_to_result(ApplyResult::Done).is_ok());
    assert!(matches!(outcome_to_result(ApplyResult::NotFound), Err(StoreError::NotFound)));
    assert!(matches!(
        outcome_to_result(ApplyResult::VersionConflict),
        Err(StoreError::VersionConflict)
    ));
    match outcome_to_result(ApplyResult::Conflict("taken".to_string())) {
        Err(StoreError::Conflict(message)) => assert_eq!(message, "taken"),
        _ => panic!("a conflict must stay one"),
    }
}

use hyperion_vault::raft::log::RaftState;
use hyperion_vault::raft::machine::{
    applied_state, apply_entries, build_snapshot, get_current_snapshot, install_snapshot,
    keep_snapshot,
};
use hyperion_vault::raft::node::{
    after_forward, after_write, must_initialize, route_command, ForwardReply, Route, WriteReply,
    WriteStep,
};
use hyperion_vault::raft::types::{ApplyResult, EntryPayload, LogEntry, LogId};
use hyperion_vault::store::local::{seed_admin_role, LocalStore};
use hyperion_vault::store::model::{
    AuditEntry, Command, RoleRecord, SecretRecord, StoreError, VersionRecord,
};
use hyperion_vault::store::ports::VaultReader;
use hyperion_vault::store::tables::Tables;
use hyperion_vault::{SecretFormat, SecretKind};

fn id(index: u64) -> LogId {
    LogId { term: 2, node_id: 1, index }
}

fn entry(index: u64, command: Command) -> LogEntry {
    LogEntry { log_id: id(index), payload: EntryPayload::Normal(command) }
}

fn role(name: &str) -> Command {
    Command::CreateRole {
        role: RoleRecord {
            name: name.to_string(),
            description: Some("scoped to stripe".to_string()),
            is_admin: false,
            permissions: vec![("create".to_string(), "stripe/*".to_string())],
            created_at: 0,
        },
    }
}

fn secret(ciphertext: Vec<u8>) -> Command {
    Command::CreateSecret {
        secret: SecretRecord {
            name: "db/password".to_string(),
            kind: SecretKind::Manual,
            format: SecretFormat::Opaque,
            description: None,
            rotation_interval_secs: None,
            grace_secs: 0,
            current_version: 1,
            next_rotation_at: None,
            created_at: 0,
            updated_at: 0,
            target: None,
        },
        version: VersionRecord {
            version: 1,
            kms_key_id: "local".to_string(),
            wrapped_dek: vec![1, 2, 3],
            nonce: vec![4; 24],
            ciphertext,
            aad: b"db/password:1".to_vec(),
            created_at: 0,
            expires_at: None,
            wrapped_rotation_at: None,
        },
    }
}

fn seeded() -> Tables {
    let mut tables = Tables::new();
    seed_admin_role(&mut tables);
    tables
}

#[test]
fn write_through_raft_is_readable() {
    let mut tables = seeded();
    let mut raft = RaftState::new();
    let (results, _) = apply_entries(&mut tables, &mut raft, 1, &vec![entry(1, role("payment"))]);
    assert!(matches!(results.as_slice(), [ApplyResult::Done]));
    let store = LocalStore::open(tables, 1);
    let role = store
        .role("payment".to_string())
        .expect("read role")
        .expect("role exists after replication");
    assert_eq!(role.name, "payment");
    assert!(!role.is_admin);
    assert_eq!(role.permissions, vec![("create".to_string(), "stripe/*".to_string())]);
}

#[test]
fn secret_version_round_trips_through_raft() {
    let mut tables = seeded();
    let mut raft = RaftState::new();
    let entries = vec![entry(1, secret(vec![9, 9, 9])), entry(2, secret(vec![]))];
    let (results, _) = apply_entries(&mut tables, &mut raft, 1, &entries);
    assert!(matches!(&results[0], ApplyResult::Done));
    assert!(
        matches!(&results[1], ApplyResult::Conflict(message) if message == "secret 'db/password' already exists"),
        "duplicate secret name must conflict"
    );
    let store = LocalStore::open(tables, 1);
    let (loaded, current) = store
        .current_version("db/password".to_string())
        .expect("read secret")
        .expect("secret exists after replication");
    assert_eq!(loaded.current_version, 1);
    assert_eq!(current.version, 1);
    assert_eq!(current.ciphertext, vec![9, 9, 9]);
}

#[test]
fn entries_move_the_applied_state_on() {
    let mut tables = seeded();
    let mut raft = RaftState::new();
    let (last, members) = applied_state(&raft);
    assert!(last.is_none() && members.log_id.is_none());
    let entries = vec![
        LogEntry { log_id: id(1), payload: EntryPayload::Membership(vec![5, 6]) },
        LogEntry { log_id: id(2), payload: EntryPayload::Blank },
        entry(3, Command::DeleteSecret { name: "none".to_string() }),
        entry(4, Command::UpdateMeta {
            name: "none".to_string(),
            expected_current: 1,
            set_description: None,
            set_rotation_interval_secs: None,
            set_grace_secs: None,
            next_rotation_at: hyperion_vault::store::model::NextRotation::Keep,
            updated_at: 0,
        }),
    ];
    let (results, rows) = apply_entries(&mut tables, &mut raft, 1, &entries);
    assert!(matches!(
        results.as_slice(),
        [ApplyResult::Done, ApplyResult::Done, ApplyResult::NotFound, ApplyResult::NotFound]
    ));
    assert!(rows.is_empty());
    let (last, members) = applied_state(&raft);
    assert_eq!(last, Some(id(4)));
    assert_eq!((members.log_id, members.members), (Some(id(1)), vec![5, 6]));
}

#[test]
fn snapshots_carry_the_replicated_tables() {
    let mut tables = seeded();
    let mut raft = RaftState::new();
    let entries = vec![entry(1, role("r")), entry(2, secret(vec![9]))];
    apply_entries(&mut tables, &mut raft, 1, &entries);
    assert!(get_current_snapshot(&raft).is_none());
    let (data, meta) = build_snapshot(&tables, &raft);
    assert_eq!(meta.snapshot_id, "T2-N1-2");
    assert_eq!(meta.last_log_id, Some(id(2)));
    assert_eq!(data.roles.len(), 2);
    keep_snapshot(&mut raft, &vec![1, 2, 3]);
    let (kept, bytes) = get_current_snapshot(&raft).unwrap();
    assert_eq!((kept.snapshot_id.as_str(), bytes), ("T2-N1-2", vec![1, 2, 3]));

    let mut other = seeded();
    let mut other_raft = RaftState::new();
    apply_entries(&mut other, &mut other_raft, 2, &vec![entry(1, role("stale"))]);
    other_raft.append(&vec![entry(1, role("stale")), entry(2, role("x")), entry(3, role("y"))]);
    let removed = install_snapshot(&mut other, &mut other_raft, &meta, &data);
    assert_eq!(removed, vec![1, 2]);
    assert_eq!(other_raft.last_applied, Some(id(2)));
    assert_eq!(other_raft.last_purged, Some(id(2)));
    let store = LocalStore::open(other, 2);
    assert!(store.role("r".to_string()).unwrap().is_some());
    assert!(store.role("stale".to_string()).unwrap().is_none());
    assert!(store.current_version("db/password".to_string()).unwrap().is_some());
    let (_, empty) = build_snapshot(&Tables::new(), &RaftState::new());
    assert_eq!(empty.snapshot_id, "empty");
}

#[test]
fn empty_lowest_node_skips_init_when_a_peer_reports_a_cluster() {
    assert!(must_initialize(1, &vec![1, 2], false));
    assert!(!must_initialize(1, &vec![1, 2], true));
    assert!(!must_initialize(2, &vec![1, 2], false));
    assert!(must_initialize(3, &vec![], false));
    assert!(!must_initialize(1, &vec![2, 3], false));
}

#[test]
fn writes_go_to_the_leader() {
    let internal = |r: Result<(), StoreError>| match r {
        Err(StoreError::Internal(message)) => message,
        _ => panic!("the write must fail"),
    };
    assert!(matches!(
        after_write(WriteReply::Applied(ApplyResult::Done)),
        WriteStep::Answer(Ok(()))
    ));
    match after_write(WriteReply::NotLeader { leader: Some("h:1".to_string()) }) {
        WriteStep::Forward { url } => assert_eq!(url, "http://h:1/raft/apply"),
        _ => panic!("the leader must be asked"),
    }
    match after_write(WriteReply::NotLeader { leader: None }) {
        WriteStep::Answer(r) => assert_eq!(internal(r), "no raft leader currently available"),
        _ => panic!("there is nobody to ask"),
    }
    match after_write(WriteReply::Failed("x".to_string())) {
        WriteStep::Answer(r) => assert_eq!(internal(r), "raft write failed: x"),
        _ => panic!("a failure is told"),
    }
    assert!(matches!(
        after_forward(ForwardReply::Applied(ApplyResult::VersionConflict)),
        Err(StoreError::VersionConflict)
    ));
    let rejected = ForwardReply::Rejected { status: "503".to_string(), body: "b".to_string() };
    assert_eq!(internal(after_forward(rejected)), "leader rejected write (503): b");
    assert_eq!(internal(after_forward(ForwardReply::Unreachable("u".to_string()))), "u");
}

#[test]
fn audit_and_lockouts_stay_on_the_node() {
    let entry = AuditEntry {
        at: 0,
        actor: None,
        client_ip: None,
        action: String::new(),
        secret_name: None,
        outcome: String::new(),
        node_id: 0,
    };
    assert_eq!(route_command(&Command::AppendAudit { entry }), Route::Local);
    assert_eq!(route_command(&role("r")), Route::Replicated);
}

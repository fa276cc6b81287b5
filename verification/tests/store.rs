use hyperion_vault::store::apply::{apply_command, fits};
use hyperion_vault::store::backup::{BackupData, BACKUP_VERSION};
use hyperion_vault::store::keys::{version_key, version_lower, version_upper};
use hyperion_vault::store::local::LocalStore;
use hyperion_vault::store::model::{
    AuditEntry, Command, KmsRewrapState, NextRotation, RoleRecord, SecretRecord, StoreError,
    TokenRecord, VersionRecord,
};
use hyperion_vault::store::ports::{VaultReader, VaultWriter};
use hyperion_vault::store::tables::{RowRef, Tables};
use hyperion_vault::{SecretFormat, SecretKind};

fn open(node_id: u64) -> LocalStore {
    LocalStore::open(Tables::new(), node_id)
}

fn sample_version(name: &str, version: i32, ciphertext: Vec<u8>) -> VersionRecord {
    VersionRecord {
        version,
        kms_key_id: "local".to_string(),
        wrapped_dek: vec![1, 2, 3],
        nonce: vec![4; 24],
        ciphertext,
        aad: format!("{name}:{version}").into_bytes(),
        created_at: 0,
        expires_at: None,
        wrapped_rotation_at: None,
    }
}

fn sample_secret(name: &str, ciphertext: Vec<u8>) -> (SecretRecord, VersionRecord) {
    let secret = SecretRecord {
        name: name.to_string(),
        kind: SecretKind::Manual,
        format: SecretFormat::Opaque,
        description: None,
        rotation_interval_secs: None,
        grace_secs: 0,
        current_version: 1,
        next_rotation_at: None,
        created_at: 0,
        updated_at: 0,
        target: None,
    };
    (secret, sample_version(name, 1, ciphertext))
}

fn create(store: &mut LocalStore, name: &str, ciphertext: Vec<u8>) {
    let (secret, version) = sample_secret(name, ciphertext);
    store.apply(Command::CreateSecret { secret, version }).expect("create secret");
}

fn role(name: &str) -> RoleRecord {
    RoleRecord {
        name: name.to_string(),
        description: None,
        is_admin: false,
        permissions: vec![("create".to_string(), "stripe/*".to_string())],
        created_at: 0,
    }
}

fn token(name: &str, role: &str, fingerprint: Vec<u8>) -> TokenRecord {
    TokenRecord {
        name: name.to_string(),
        role: Some(role.to_string()),
        fingerprint,
        created_at: 0,
        last_used_at: None,
        revoked_at: None,
    }
}

fn put(name: &str, expected: i32, version: i32, expiry: Option<i64>) -> Command {
    Command::PutVersion {
        name: name.to_string(),
        expected_current: expected,
        version: sample_version(name, version, vec![version as u8]),
        supersede_expires_at: expiry,
        set_description: None,
        set_rotation_interval_secs: None,
        set_grace_secs: None,
        next_rotation_at: NextRotation::Keep,
        updated_at: 50,
    }
}

#[test]
fn dump_restore_round_trips_and_replaces() {
    let mut source = open(1);
    create(&mut source, "db/password", vec![9, 8, 7]);
    source.apply(Command::CreateRole { role: role("payments") }).expect("create role");
    source
        .apply(Command::AddToken { token: token("ci", "payments", vec![7, 7, 7]) })
        .expect("add token");

    let backup = source.dump().expect("dump");
    assert_eq!(backup.version, BACKUP_VERSION);
    assert_eq!(backup.secrets.len(), 1);

    let mut target = open(2);
    create(&mut target, "stale/secret", vec![1, 1, 1]);

    target.restore(backup).expect("restore");

    let (loaded, current) = target
        .current_version("db/password".to_string())
        .expect("read restored secret")
        .expect("restored secret present");
    assert_eq!(loaded.current_version, 1);
    assert_eq!(current.ciphertext, vec![9, 8, 7]);

    let role = target
        .role("payments".to_string())
        .expect("read restored role")
        .expect("restored role present");
    assert_eq!(role.permissions, vec![("create".to_string(), "stripe/*".to_string())]);

    let token = target
        .token_by_fingerprint(vec![7, 7, 7])
        .expect("read restored token")
        .expect("restored token present");
    assert_eq!(token.name, "ci");

    assert!(
        target.secret("stale/secret".to_string()).expect("read stale").is_none(),
        "restore must replace existing data, not merge it"
    );
}

#[test]
fn restore_rejects_unknown_version() {
    let mut store = open(1);
    let bad = BackupData { version: BACKUP_VERSION + 1, ..Default::default() };
    match store.restore(bad) {
        Err(StoreError::Internal(message)) => assert_eq!(
            message,
            "unsupported backup version 2 (this build restores version 1)"
        ),
        _ => panic!("restore must reject an unsupported backup version"),
    }
    assert!(store.role("admin".to_string()).unwrap().is_some());
}

#[test]
fn opening_seeds_the_admin_role_once() {
    let store = open(7);
    assert_eq!(store.node_id(), 7);
    let admin = store.role("admin".to_string()).unwrap().unwrap();
    assert!(admin.is_admin);
    assert_eq!(
        admin.description.as_deref(),
        Some("Full superuser access to all secrets and administration")
    );
    let mut tables = Tables::new();
    let mut kept = role("admin");
    kept.created_at = 42;
    apply_command(&mut tables, 1, &Command::CreateRole { role: kept }).unwrap();
    let store = LocalStore::open(tables, 1);
    assert_eq!(store.role("admin".to_string()).unwrap().unwrap().created_at, 42);
}

#[test]
fn duplicate_secret_name_conflicts() {
    let mut store = open(1);
    create(&mut store, "db/password", vec![9, 9, 9]);
    let (loaded, current) = store.current_version("db/password".to_string()).unwrap().unwrap();
    assert_eq!(loaded.current_version, 1);
    assert_eq!(current.version, 1);
    assert_eq!(current.ciphertext, vec![9, 9, 9]);
    let (secret, version) = sample_secret("db/password", vec![]);
    match store.apply(Command::CreateSecret { secret, version }) {
        Err(StoreError::Conflict(message)) => {
            assert_eq!(message, "secret 'db/password' already exists")
        }
        _ => panic!("duplicate secret name must conflict"),
    }
    let (_, current) = store.current_version("db/password".to_string()).unwrap().unwrap();
    assert_eq!(current.ciphertext, vec![9, 9, 9]);
}

#[test]
fn a_new_version_supersedes_the_old_one() {
    let mut store = open(1);
    create(&mut store, "a", vec![1]);
    store.apply(put("a", 1, 2, Some(100))).unwrap();
    let live: Vec<i32> =
        store.live_versions("a".to_string(), 99).unwrap().iter().map(|v| v.version).collect();
    assert_eq!(live, vec![2, 1]);
    let live: Vec<i32> =
        store.live_versions("a".to_string(), 100).unwrap().iter().map(|v| v.version).collect();
    assert_eq!(live, vec![2]);
    assert_eq!(store.secret("a".to_string()).unwrap().unwrap().updated_at, 50);

    assert!(matches!(store.apply(put("a", 1, 3, None)), Err(StoreError::VersionConflict)));
    assert!(matches!(store.apply(put("b", 1, 2, None)), Err(StoreError::NotFound)));

    store.apply(Command::ExpireGraceVersions { now: 99 }).unwrap();
    assert!(store.version("a".to_string(), 1).unwrap().is_some());
    store.apply(Command::ExpireGraceVersions { now: 100 }).unwrap();
    assert!(store.version("a".to_string(), 1).unwrap().is_none());
    assert!(store.version("a".to_string(), 2).unwrap().is_some());
}

#[test]
fn metadata_changes_keep_the_version() {
    let mut store = open(1);
    create(&mut store, "a", vec![1]);
    let change = |expected_current: i32, next_rotation_at: NextRotation| Command::UpdateMeta {
        name: "a".to_string(),
        expected_current,
        set_description: Some("d".to_string()),
        set_rotation_interval_secs: Some(60),
        set_grace_secs: Some(5),
        next_rotation_at,
        updated_at: 9,
    };
    store.apply(change(1, NextRotation::SetTo(Some(69)))).unwrap();
    let secret = store.secret("a".to_string()).unwrap().unwrap();
    assert_eq!(secret.description.as_deref(), Some("d"));
    assert_eq!(secret.rotation_interval_secs, Some(60));
    assert_eq!(secret.grace_secs, 5);
    assert_eq!(secret.next_rotation_at, Some(69));
    assert_eq!(secret.current_version, 1);
    assert_eq!(store.due_rotations(68).unwrap().len(), 0);
    assert_eq!(store.due_rotations(69).unwrap().len(), 1);
    store.apply(change(1, NextRotation::Keep)).unwrap();
    assert_eq!(store.secret("a".to_string()).unwrap().unwrap().next_rotation_at, Some(69));
    store.apply(change(1, NextRotation::SetTo(None))).unwrap();
    assert_eq!(store.secret("a".to_string()).unwrap().unwrap().next_rotation_at, None);
    assert!(matches!(
        store.apply(change(2, NextRotation::Keep)),
        Err(StoreError::VersionConflict)
    ));
}

#[test]
fn deleting_takes_the_versions_of_that_secret_only() {
    let mut store = open(1);
    create(&mut store, "a", vec![1]);
    create(&mut store, "ab", vec![2]);
    create(&mut store, "a/b", vec![3]);
    store.apply(put("a", 1, 2, Some(100))).unwrap();
    store.apply(Command::DeleteSecret { name: "a".to_string() }).unwrap();
    assert!(store.secret("a".to_string()).unwrap().is_none());
    assert!(store.version("a".to_string(), 1).unwrap().is_none());
    assert!(store.version("a".to_string(), 2).unwrap().is_none());
    assert!(store.current_version("ab".to_string()).unwrap().is_some());
    assert!(store.current_version("a/b".to_string()).unwrap().is_some());
    assert!(matches!(
        store.apply(Command::DeleteSecret { name: "a".to_string() }),
        Err(StoreError::NotFound)
    ));
    let names: Vec<String> = store.list_secrets().unwrap().into_iter().map(|s| s.name).collect();
    assert_eq!(names, vec!["a/b".to_string(), "ab".to_string()]);
}

#[test]
fn roles_with_tokens_cannot_be_deleted() {
    let mut store = open(1);
    store.apply(Command::CreateRole { role: role("r") }).unwrap();
    match store.apply(Command::CreateRole { role: role("r") }) {
        Err(StoreError::Conflict(message)) => assert_eq!(message, "role 'r' already exists"),
        _ => panic!("duplicate role must conflict"),
    }
    store.apply(Command::AddToken { token: token("t", "r", vec![1]) }).unwrap();
    match store.apply(Command::AddToken { token: token("t", "r", vec![2]) }) {
        Err(StoreError::Conflict(message)) => assert_eq!(message, "token 't' already exists"),
        _ => panic!("duplicate token must conflict"),
    }
    match store.apply(Command::DeleteRole { name: "r".to_string() }) {
        Err(StoreError::Conflict(message)) => {
            assert_eq!(message, "role 'r' still has tokens; revoke/remove them first")
        }
        _ => panic!("a role with tokens must stay"),
    }
    let permissions = vec![("read".to_string(), "*".to_string())];
    store
        .apply(Command::SetPermissions { name: "r".to_string(), permissions: permissions.clone() })
        .unwrap();
    assert_eq!(store.role("r".to_string()).unwrap().unwrap().permissions, permissions);
    store.apply(Command::CreateRole { role: role("free") }).unwrap();
    store.apply(Command::DeleteRole { name: "free".to_string() }).unwrap();
    for name in ["free", "none"] {
        assert!(matches!(
            store.apply(Command::DeleteRole { name: name.to_string() }),
            Err(StoreError::NotFound)
        ));
    }
    assert!(matches!(
        store.apply(Command::SetPermissions { name: "free".to_string(), permissions: vec![] }),
        Err(StoreError::NotFound)
    ));
    assert_eq!(store.list_roles().unwrap().len(), 2);
}

#[test]
fn tokens_are_touched_and_revoked() {
    let mut store = open(1);
    store.apply(Command::AddToken { token: token("t", "r", vec![1]) }).unwrap();
    store.apply(Command::TouchToken { fingerprint: vec![1], at: 5 }).unwrap();
    store.apply(Command::TouchToken { fingerprint: vec![9], at: 5 }).unwrap();
    let revoke = |name: &str| Command::RevokeToken { name: name.to_string(), revoked_at: 8 };
    store.apply(revoke("t")).unwrap();
    let found = store.token_by_fingerprint(vec![1]).unwrap().unwrap();
    assert_eq!(found.last_used_at, Some(5));
    assert_eq!(found.revoked_at, Some(8));
    assert!(matches!(store.apply(revoke("t")), Err(StoreError::NotFound)));
    assert!(matches!(store.apply(revoke("u")), Err(StoreError::NotFound)));
    assert_eq!(store.list_tokens().unwrap().len(), 1);
}

#[test]
fn audit_entries_are_numbered_and_signed_by_the_node() {
    let mut tables = Tables::new();
    let append = |outcome: &str| Command::AppendAudit {
        entry: AuditEntry {
            at: 1,
            actor: None,
            client_ip: None,
            action: "read".to_string(),
            secret_name: None,
            outcome: outcome.to_string(),
            node_id: 0,
        },
    };
    let rows = apply_command(&mut tables, 3, &append("ok")).unwrap();
    assert!(matches!(rows.as_slice(), [RowRef::Audit(0)]));
    apply_command(&mut tables, 3, &append("denied")).unwrap();
    assert_eq!(tables.audit.len(), 2);
    assert_eq!(tables.audit.row(1).key, 1);
    assert_eq!(tables.audit.row(1).value.node_id, 3);
    assert_eq!(tables.audit.row(1).value.outcome, "denied");
}

#[test]
fn failures_lock_an_address_out() {
    let mut store = open(1);
    let fail = |now: i64| Command::RecordAuthFailure {
        ip: "10.0.0.1".to_string(),
        now,
        max: 3,
        window_secs: 60,
        lockout_secs: 300,
    };
    store.apply(fail(0)).unwrap();
    store.apply(fail(10)).unwrap();
    let record = store.lockout("10.0.0.1".to_string()).unwrap().unwrap();
    assert_eq!((record.failures, record.window_start, record.locked_until), (2, 0, None));
    store.apply(fail(59)).unwrap();
    let record = store.lockout("10.0.0.1".to_string()).unwrap().unwrap();
    assert_eq!((record.failures, record.locked_until), (3, Some(359)));
    store.apply(fail(60)).unwrap();
    let record = store.lockout("10.0.0.1".to_string()).unwrap().unwrap();
    assert_eq!((record.failures, record.window_start), (1, 60));
    assert!(store.lockout("10.0.0.2".to_string()).unwrap().is_none());
}

#[test]
fn counters_and_times_stay_in_range() {
    let mut tables = Tables::new();
    let fail = |now: i64, max: u32, lockout_secs: i64| Command::RecordAuthFailure {
        ip: "10.0.0.1".to_string(),
        now,
        max,
        window_secs: 60,
        lockout_secs,
    };
    assert!(fits(&tables, &fail(i64::MAX, 2, 1)));
    assert!(!fits(&tables, &fail(i64::MAX, 1, 1)));
    assert!(fits(&tables, &fail(i64::MAX, 1, 0)));
    apply_command(&mut tables, 1, &fail(-1, 2, 1)).unwrap();
    assert!(!fits(&tables, &fail(i64::MAX, 2, 1)));
    assert!(fits(&tables, &fail(5, 2, 1)));
    assert!(!fits(&tables, &fail(5, 2, i64::MAX)));
    assert!(fits(&tables, &Command::DeleteSecret { name: "x".to_string() }));
}

#[test]
fn rewrapping_changes_the_wrapping_only() {
    let mut store = open(1);
    create(&mut store, "a", vec![1]);
    let rewrap = |version: i32| Command::RewrapVersion {
        name: "a".to_string(),
        version,
        kms_key_id: "k2".to_string(),
        wrapped_dek: vec![8],
        wrapped_rotation_at: 77,
    };
    store.apply(rewrap(1)).unwrap();
    let version = store.version("a".to_string(), 1).unwrap().unwrap();
    assert_eq!(version.kms_key_id, "k2");
    assert_eq!(version.wrapped_dek, vec![8]);
    assert_eq!(version.wrapped_rotation_at, Some(77));
    assert_eq!(version.ciphertext, vec![1]);
    assert!(matches!(store.apply(rewrap(2)), Err(StoreError::NotFound)));
    assert!(store.kms_rewrap_state().unwrap().is_none());
    let state = KmsRewrapState { last_completed_rotation_at: 1, last_swept_at: 2, updated_at: 3 };
    store.apply(Command::SetKmsRewrapState { state }).unwrap();
    assert_eq!(store.kms_rewrap_state().unwrap().unwrap().last_swept_at, 2);
}

#[test]
fn version_keys_sort_by_number() {
    assert_eq!(version_key("a", 7), "a\u{0}0000000007");
    assert_eq!(version_key("a", i32::MAX), "a\u{0}2147483647");
    assert_eq!(version_key("a", -7), format!("a\u{0}{:010}", -7));
    assert_eq!(version_lower("a"), "a\u{0}");
    assert_eq!(version_upper("a"), "a\u{1}");
    assert!(version_key("a", 9) < version_key("a", 10));
    assert!(version_lower("a") < version_key("a", 0) && version_key("a", 0) < version_upper("a"));
}

#[test]
fn only_audit_and_lockout_commands_are_local() {
    let (secret, version) = sample_secret("a", vec![]);
    assert!(!Command::CreateSecret { secret, version }.is_local());
    assert!(!Command::ExpireGraceVersions { now: 0 }.is_local());
    assert!(Command::RecordAuthFailure {
        ip: String::new(),
        now: 0,
        max: 1,
        window_secs: 1,
        lockout_secs: 1,
    }
    .is_local());
}

#[test]
fn store_errors_are_told_in_words() {
    assert_eq!(StoreError::NotFound.message(), "not found");
    assert_eq!(StoreError::VersionConflict.message(), "write conflict; retry");
    assert_eq!(StoreError::Conflict("c".to_string()).message(), "c");
    assert_eq!(StoreError::Internal("i".to_string()).message(), "i");
}

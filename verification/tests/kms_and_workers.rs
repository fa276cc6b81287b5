use hyperion_vault::kms::{
    backoff, data_key_from, latest_rotation, next_page, retry_after, rewrapped_from,
};
use hyperion_vault::pg_apply::{
    begin_apply, connection_string, failure_message, split_hostport, Attempt,
};
use hyperion_vault::rewrap::{
    count_pending, force, force_completes, needs_rewrap, pace, persist_completed, rewrap_one,
    secret_work, status, sweep_completes, tick, RewrapSummary, TickStep,
};
use hyperion_vault::store::apply::apply_command;
use hyperion_vault::store::model::{Command, PgRoleTarget, SecretRecord, VersionRecord};
use hyperion_vault::store::tables::Tables;
use hyperion_vault::supervisor::{
    database, must_notify, must_scan, rotation_enabled, scan_interval_secs, SupervisorSettings,
};
use hyperion_vault::sweep::{PassAction, RewrapPass};
use hyperion_vault::types::{SecretFormat, SecretKind};
use hyperion_vault::workers::{
    due_names, expire_command, is_leader, poll_period, RotationAction, RotationEvent, RotationTick,
};

fn version(number: i32, expires_at: Option<i64>, wrapped_rotation_at: Option<i64>) -> VersionRecord {
    VersionRecord {
        version: number,
        kms_key_id: "k".to_string(),
        wrapped_dek: vec![number as u8],
        nonce: vec![],
        ciphertext: vec![],
        aad: vec![],
        created_at: 0,
        expires_at,
        wrapped_rotation_at,
    }
}

fn add(tables: &mut Tables, name: &str, wrapped_rotation_at: Option<i64>, due: Option<i64>) {
    let secret = SecretRecord {
        name: name.to_string(),
        kind: SecretKind::Automatic,
        format: SecretFormat::Opaque,
        description: None,
        rotation_interval_secs: Some(1),
        grace_secs: 0,
        current_version: 1,
        next_rotation_at: due,
        created_at: 0,
        updated_at: 0,
        target: None,
    };
    let version = version(1, None, wrapped_rotation_at);
    apply_command(tables, 1, &Command::CreateSecret { secret, version }).unwrap();
}

#[test]
fn splits_host_and_port() {
    assert_eq!(split_hostport("10.0.0.2:5433"), ("10.0.0.2".to_string(), 5433));
    assert_eq!(split_hostport("db"), ("db".to_string(), 5432));
}

#[test]
fn odd_hosts_and_ports_are_split() {
    assert_eq!(split_hostport("a:b:7"), ("a:b".to_string(), 7));
    assert_eq!(split_hostport("db:"), ("db".to_string(), 5432));
    assert_eq!(split_hostport("db:70000"), ("db".to_string(), 5432));
    assert_eq!(
        connection_string("h", 5433, "d", "u", "p"),
        "host=h port=5433 dbname=d user=u password=p connect_timeout=3"
    );
}

#[test]
fn servers_are_tried_until_one_is_the_primary() {
    let target = |hosts: &[&str]| PgRoleTarget {
        hosts: hosts.iter().map(|h| h.to_string()).collect(),
        database: "postgres".to_string(),
        role: None,
        login_secret: None,
    };
    assert_eq!(begin_apply(&target(&[])).err().unwrap(), "pg_replica target has no hosts");
    let mut attempts = begin_apply(&target(&["a", "b", "c"])).ok().unwrap();
    assert_eq!(attempts.current().unwrap(), "a");
    assert!(!attempts.note(Attempt::NotPrimary));
    assert!(!attempts.note(Attempt::Failed("down".to_string())));
    assert_eq!(attempts.current().unwrap(), "c");
    assert!(attempts.note(Attempt::Changed));
    let mut attempts = begin_apply(&target(&["a", "b\"c"])).ok().unwrap();
    attempts.note(Attempt::NotPrimary);
    attempts.note(Attempt::NotPrimary);
    assert!(attempts.current().is_none());
    assert_eq!(
        attempts.into_error(),
        "no writable primary among pg_replica nodes [\"a\", \"b\\\"c\"]"
    );
    let mut attempts = begin_apply(&target(&["a"])).ok().unwrap();
    attempts.note(Attempt::Failed("down".to_string()));
    assert!(!attempts.note(Attempt::NotPrimary));
    assert!(attempts.current().is_none());
    assert_eq!(attempts.into_error(), "down");
    assert_eq!(failure_message("[]", None), "no writable primary among pg_replica nodes []");
}

#[test]
fn pauses_double_up_to_a_limit() {
    let pauses: Vec<u64> = (0..9).map(backoff).collect();
    assert_eq!(pauses, vec![100, 200, 400, 800, 1600, 3200, 6400, 6400, 6400]);
    assert_eq!(retry_after(2, 0), Some(100));
    assert_eq!(retry_after(2, 1), Some(200));
    assert_eq!(retry_after(2, 2), None);
    assert_eq!(retry_after(0, 0), None);
}

#[test]
fn the_latest_rotation_is_kept_over_the_pages() {
    let first = latest_rotation(None, &vec![Some(5), None, Some(9), Some(7)]);
    assert_eq!(first, Some(9));
    assert_eq!(latest_rotation(first, &vec![Some(8)]), Some(9));
    assert_eq!(latest_rotation(None, &vec![None]), None);
    assert_eq!(next_page(true, Some("m".to_string())), Some("m".to_string()));
    assert_eq!(next_page(true, None), None);
    assert_eq!(next_page(false, Some("m".to_string())), None);
}

#[test]
fn replies_of_the_key_service_are_checked() {
    let key = data_key_from(Some(&[1u8; 32]), Some(&[2, 3]), None, "asked").ok().unwrap();
    assert_eq!(key.plaintext.as_slice(), &[1u8; 32]);
    assert_eq!((key.wrapped, key.key_id.as_str()), (vec![2, 3], "asked"));
    let told = data_key_from(Some(&[1u8; 32]), Some(&[2]), Some("told".to_string()), "asked");
    assert_eq!(told.ok().unwrap().key_id, "told");
    let refusal = |plain: Option<&[u8]>, wrapped: Option<&[u8]>| {
        data_key_from(plain, wrapped, None, "asked").err().unwrap().message
    };
    assert_eq!(refusal(None, None), "kms returned no plaintext data key");
    assert_eq!(refusal(Some(&[1]), None), "invalid key length: expected 32, got 1");
    assert_eq!(refusal(Some(&[1u8; 32]), None), "kms returned no ciphertext blob");
    assert_eq!(
        rewrapped_from(Some(&[4]), None, "asked").ok().unwrap(),
        (vec![4], "asked".to_string())
    );
    assert_eq!(
        rewrapped_from(None, None, "asked").err().unwrap().message,
        "kms re_encrypt returned no ciphertext blob"
    );
}

#[test]
fn versions_behind_a_rotation_are_wrapped_anew() {
    assert!(needs_rewrap(&version(1, None, None), 0));
    assert!(needs_rewrap(&version(1, None, Some(4)), 5));
    assert!(!needs_rewrap(&version(1, None, Some(5)), 5));
    let mut tables = Tables::new();
    add(&mut tables, "a", Some(4), None);
    add(&mut tables, "b", Some(5), None);
    add(&mut tables, "c", None, None);
    let (work, seen) = secret_work(&tables, &"a".to_string(), 5, 0);
    assert_eq!((work.len(), seen), (1, 1));
    assert_eq!(secret_work(&tables, &"b".to_string(), 5, 0).0.len(), 0);
    assert_eq!(count_pending(&tables, 5, 0), Some((3, 2)));
    let command = rewrap_one("a", &work[0], (vec![9], "k2".to_string()), 5);
    apply_command(&mut tables, 1, &command).unwrap();
    assert_eq!(count_pending(&tables, 5, 0), Some((3, 1)));
}

#[test]
fn passes_are_summed_up() {
    let mut summary = RewrapSummary::default();
    summary.scan(3);
    summary.note(true);
    assert!(force_completes(&summary, 60) && !force_completes(&summary, 0));
    assert!(sweep_completes(&summary));
    let answer = force(&summary, 60);
    assert_eq!((answer.scanned, answer.rewrapped, answer.failed), (3, 1, 0));
    assert_eq!(answer.target_rotation_at.as_deref(), Some("1970-01-01T00:01:00Z"));
    assert_eq!(force(&summary, 0).target_rotation_at, None);
    summary.note(false);
    assert!(!force_completes(&summary, 60) && !sweep_completes(&summary));
    assert_eq!(pace(0), None);
    assert_eq!(pace(3), Some(333));
    assert_eq!(pace(2000), Some(0));
}

#[test]
fn the_rewrap_worker_sweeps_new_rotations_only() {
    let mut tables = Tables::new();
    assert_eq!(tick(&tables, None), TickStep::Seed { baseline: 0 });
    assert_eq!(tick(&tables, Some(50)), TickStep::Seed { baseline: 50 });
    apply_command(&mut tables, 1, &persist_completed(50, 7)).unwrap();
    assert_eq!(tick(&tables, Some(50)), TickStep::Idle);
    assert_eq!(tick(&tables, None), TickStep::Idle);
    assert_eq!(tick(&tables, Some(51)), TickStep::Sweep { target: 51 });
    add(&mut tables, "a", Some(50), None);
    let report = status(&tables, Some(51), true, false, 0).unwrap();
    assert_eq!((report.total_versions, report.pending_versions), (1, 1));
    assert!(report.enabled && !report.busy);
    assert_eq!(report.last_completed_rotation_at.as_deref(), Some("1970-01-01T00:00:50Z"));
    assert_eq!(report.latest_rotation_at.as_deref(), Some("1970-01-01T00:00:51Z"));
    let report = status(&tables, None, false, true, 0).unwrap();
    assert_eq!((report.pending_versions, report.latest_rotation_at), (0, None));
}

#[test]
fn only_the_leader_rotates_what_is_due() {
    assert!(is_leader(false, None, 1));
    assert!(is_leader(true, Some(1), 1));
    assert!(!is_leader(true, Some(2), 1));
    assert!(!is_leader(true, None, 1));
    assert_eq!((poll_period(0), poll_period(1), poll_period(15)), (1, 1, 15));
    let mut tables = Tables::new();
    add(&mut tables, "late", None, Some(10));
    add(&mut tables, "early", None, Some(5));
    add(&mut tables, "never", None, None);
    assert_eq!(due_names(&tables, 5), vec!["early"]);
    assert_eq!(due_names(&tables, 10), vec!["early", "late"]);
    assert!(matches!(expire_command(3), Command::ExpireGraceVersions { now: 3 }));
}

#[test]
fn the_supervisor_scans_on_the_primary_only() {
    let settings = SupervisorSettings::default();
    assert!(rotation_enabled(&settings));
    assert_eq!(scan_interval_secs(&settings), 30);
    assert!(must_scan(&settings, Some(false)));
    assert!(!must_scan(&settings, Some(true)));
    assert!(!must_scan(&settings, None));
    let off = SupervisorSettings { rotation_enabled: false, ..SupervisorSettings::default() };
    assert!(!must_scan(&off, Some(false)));
    assert!(must_notify(Some(1)) && !must_notify(Some(0)) && !must_notify(None));
    let named = |name: &str| SupervisorSettings {
        database: Some(name.to_string()),
        ..SupervisorSettings::default()
    };
    assert_eq!(database(&named("vault"), Some("env".to_string())), "vault");
    assert_eq!(database(&named(""), Some("env".to_string())), "env");
    assert_eq!(database(&settings, Some(String::new())), "postgres");
    assert_eq!(database(&settings, None), "postgres");
}

#[test]
fn a_tick_expires_first_and_then_rotates_what_is_due() {
    let mut tables = Tables::new();
    add(&mut tables, "b", None, Some(10));
    add(&mut tables, "a", None, Some(5));
    add(&mut tables, "later", None, Some(11));
    let tick = RotationTick::begin(true);
    match tick.action(10) {
        RotationAction::Apply { command: Command::ExpireGraceVersions { now } } => {
            assert_eq!(now, 10)
        }
        _ => panic!("versions expire first"),
    }
    let tick = tick.note(RotationEvent::Applied { ok: true });
    assert!(matches!(tick.action(10), RotationAction::ListDue));
    let mut tick = tick.note(RotationEvent::Listed { names: due_names(&tables, 10) });
    let mut rotated: Vec<String> = Vec::new();
    while let RotationAction::Rotate { name } = tick.action(10) {
        rotated.push(name);
        tick = tick.note(RotationEvent::Rotated { ok: false });
    }
    assert_eq!(rotated, vec!["a", "b"]);
    assert!(matches!(tick.action(10), RotationAction::Finish));
}

#[test]
fn a_tick_does_nothing_on_a_node_that_does_not_lead() {
    let tick = RotationTick::begin(false);
    assert!(matches!(tick.action(10), RotationAction::Finish));
    let tick = tick.note(RotationEvent::Rotated { ok: true });
    assert!(matches!(tick.action(10), RotationAction::Finish));
}

#[test]
fn a_tick_fails_where_versions_cannot_expire() {
    let tick = RotationTick::begin(true).note(RotationEvent::Applied { ok: false });
    assert!(matches!(tick.action(10), RotationAction::Fail));
}

#[test]
fn a_pass_takes_every_version_that_is_behind() {
    let mut tables = Tables::new();
    add(&mut tables, "b", Some(4), None);
    add(&mut tables, "a", None, None);
    add(&mut tables, "current", Some(5), None);
    let mut pass = RewrapPass::begin(&tables, 5, 0);
    let mut taken: Vec<(String, i32)> = Vec::new();
    let summary = loop {
        match pass.action() {
            PassAction::Load { .. } => pass = pass.load(&tables).unwrap(),
            PassAction::Rewrap { name, version } => {
                pass = pass.note(name != "a");
                taken.push((name, version.version));
            }
            PassAction::Finish { summary } => break summary,
        }
    };
    assert_eq!(taken, vec![("a".to_string(), 1), ("b".to_string(), 1)]);
    assert_eq!((summary.scanned, summary.rewrapped, summary.failed), (3, 1, 1));
    assert!(!sweep_completes(&summary));
    pass = pass.note(true).load(&tables).unwrap();
    match pass.action() {
        PassAction::Finish { summary } => assert_eq!((summary.scanned, summary.rewrapped), (3, 1)),
        _ => panic!("a finished pass stays finished"),
    }
}

#[test]
fn a_pass_over_no_secrets_finishes_at_once() {
    let pass = RewrapPass::begin(&Tables::new(), 5, 0);
    match pass.action() {
        PassAction::Finish { summary } => {
            assert_eq!((summary.scanned, summary.rewrapped, summary.failed), (0, 0, 0))
        }
        _ => panic!("there is nothing to do"),
    }
}

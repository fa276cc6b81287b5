use hyperion_vault::api_error::ApiError;
use hyperion_vault::batch::{get_secrets, BatchStep};
use hyperion_vault::change::{
    begin_rotate, begin_update, begin_verify, finish_rotate, finish_update, next_version, rotate,
    update_secret, verify, verify_outcome, UpdatePlan,
};
use hyperion_vault::crypto::{DataKey, KeyWrapper, LocalKeyWrapper, SecretBytes, NONCE_LEN};
use hyperion_vault::dto::{CreateSecretRequest, UpdateSecretRequest, UserPass};
use hyperion_vault::lockout::{check_ip, LockoutPolicy};
use hyperion_vault::payload::{decode_payload, encode_userpass, merge_userpass, rotate_payload_with};
use hyperion_vault::service::{
    audit, begin_create, check_batch, check_record, create_secret, delete_secret, finish_create,
    get_secret, kms_context, list_secrets, load_metadata, open_version, seal_version, seal_version_with,
    wrap_generation,
};
use hyperion_vault::store::apply::apply_command;
use hyperion_vault::store::engine::read_current_version;
use hyperion_vault::store::model::{Command, KmsRewrapState, NextRotation, VersionRecord};
use hyperion_vault::store::tables::Tables;
use hyperion_vault::types::{aad_for, SecretFormat, SecretKind};
use hyperion_vault::validate::{normalize_grace, validate_field, validate_name, validate_value};

fn wrapper() -> LocalKeyWrapper {
    LocalKeyWrapper::new([3u8; 32], "local")
}

fn data_key() -> DataKey {
    wrapper().generate_data_key().unwrap()
}

fn text(s: &str) -> Option<String> {
    Some(s.to_string())
}

fn request(name: &str, kind: SecretKind) -> CreateSecretRequest {
    CreateSecretRequest {
        name: name.to_string(),
        kind,
        value: None,
        username: None,
        password: None,
        description: None,
        rotation_interval_secs: None,
        grace_period_secs: None,
    }
}

fn update() -> UpdateSecretRequest {
    UpdateSecretRequest {
        value: None,
        username: None,
        password: None,
        description: None,
        rotation_interval_secs: None,
        grace_period_secs: None,
    }
}

fn bad<T>(r: Result<T, ApiError>) -> String {
    match r {
        Err(ApiError::BadRequest(message)) => message,
        _ => panic!("the request must be refused"),
    }
}

fn create(tables: &mut Tables, req: CreateSecretRequest, now: i64) -> hyperion_vault::dto::SecretValue {
    let payload = begin_create(&req).unwrap();
    let version =
        seal_version(&req.name, 1, data_key(), &payload.bytes, now, wrap_generation(tables)).unwrap();
    let (command, value) = create_secret(req, payload, version, now);
    apply_command(tables, 1, &command).unwrap();
    value
}

fn manual(tables: &mut Tables, name: &str, value: &str) {
    let mut req = request(name, SecretKind::Manual);
    req.value = text(value);
    create(tables, req, 100);
}

fn open_record(name: &str, record: &VersionRecord) -> SecretBytes {
    let dek = wrapper().unwrap_data_key(&record.wrapped_dek, &record.kms_key_id).unwrap();
    open_version(name, record.version, record, &dek).unwrap()
}

fn userpass(bytes: &[u8]) -> Option<UserPass> {
    let value: serde_json::Value = serde_json::from_slice(bytes).ok()?;
    Some(UserPass {
        username: value.get("username")?.as_str()?.to_string(),
        password: value.get("password")?.as_str()?.to_string(),
    })
}

fn read(tables: &Tables, name: &str) -> hyperion_vault::dto::SecretValue {
    let (secret, version) = read_current_version(tables, &name.to_string()).unwrap();
    let plaintext = open_record(name, &version);
    let parsed = userpass(plaintext.as_slice());
    let fields = decode_payload(secret.format, &plaintext, parsed).unwrap();
    get_secret(name, &secret, &version, fields)
}

#[test]
fn a_created_secret_reads_back() {
    let mut tables = Tables::new();
    let mut req = request("db/password", SecretKind::Manual);
    req.value = text("s3cr3t");
    req.description = text("d");
    req.grace_period_secs = Some(7);
    let answer = create(&mut tables, req, 1_700_000_000);
    assert_eq!(answer.value, text("s3cr3t"));
    assert_eq!(answer.version, 1);
    assert_eq!(answer.created_at, "2023-11-14T22:13:20Z");
    let value = read(&tables, "db/password");
    assert_eq!(value.name, "db/password");
    assert_eq!(value.value, text("s3cr3t"));
    assert_eq!((value.username, value.password), (None, None));
    let meta = load_metadata(&tables, &"db/password".to_string()).unwrap();
    assert_eq!(meta.description, text("d"));
    assert_eq!(meta.grace_period_secs, 7);
    assert_eq!(meta.next_rotation_at, None);
    assert_eq!(meta.updated_at, "2023-11-14T22:13:20Z");
    let (secret, version) = read_current_version(&tables, &"db/password".to_string()).unwrap();
    assert!(secret.target.is_none());
    assert_ne!(version.ciphertext, b"s3cr3t".to_vec());
    assert_eq!(version.wrapped_rotation_at, Some(0));
    assert!(matches!(load_metadata(&tables, &"x".to_string()), Err(ApiError::NotFound)));
}

#[test]
fn an_automatic_secret_needs_an_interval() {
    let message = "automatic secret requires positive 'rotation_interval_secs'";
    let mut req = request("a", SecretKind::Automatic);
    assert_eq!(bad(begin_create(&req)), message);
    req.rotation_interval_secs = Some(0);
    assert_eq!(bad(begin_create(&req)), message);
    req.rotation_interval_secs = Some(60);
    let mut tables = Tables::new();
    let answer = create(&mut tables, req, 1000);
    assert_eq!(answer.value.as_ref().unwrap().len(), 43);
    assert_eq!(read(&tables, "a").value, answer.value);
    let (secret, _) = read_current_version(&tables, &"a".to_string()).unwrap();
    assert_eq!(secret.next_rotation_at, Some(1060));
}

#[test]
fn names_values_and_fields_are_checked() {
    let range = "secret name must be between 1 and 255 characters";
    assert_eq!(bad(validate_name("")), range);
    assert_eq!(bad(validate_name(&"a".repeat(256))), range);
    assert_eq!(bad(validate_name("a b")), "secret name may contain only [A-Za-z0-9-_/.]");
    assert_eq!(bad(validate_name("ü")), "secret name may contain only [A-Za-z0-9-_/.]");
    assert!(validate_name(&"a".repeat(255)).is_ok());
    assert!(validate_name("aZ09-_/.").is_ok());
    assert!(validate_value(&"v".repeat(65536)).is_ok());
    assert_eq!(bad(validate_value(&"v".repeat(65537))), "secret value is too large");
    assert_eq!(bad(validate_field("username", "")), "username must not be empty");
    assert_eq!(bad(validate_field("password", &"ü".repeat(32769))), "password is too large");
    assert_eq!(normalize_grace(None).unwrap(), 0);
    assert_eq!(normalize_grace(Some(5)).unwrap(), 5);
    assert_eq!(bad(normalize_grace(Some(-1))), "grace_period_secs must not be negative");
    let mut req = request("", SecretKind::Manual);
    req.grace_period_secs = Some(-1);
    assert_eq!(bad(begin_create(&req)), range);
}

#[test]
fn sealing_is_bound_to_name_and_version() {
    let key = data_key();
    let dek = wrapper().unwrap_data_key(&key.wrapped, "local").unwrap();
    let record = seal_version_with("a", 2, key, [8u8; NONCE_LEN], b"v", 5, 6).unwrap();
    assert_eq!(record.nonce, vec![8u8; NONCE_LEN]);
    assert_eq!(record.aad, aad_for("a", 2));
    assert_eq!((record.created_at, record.wrapped_rotation_at), (5, Some(6)));
    assert_eq!(open_version("a", 2, &record, &dek).unwrap().as_slice(), b"v");
    let internal = |r: Result<SecretBytes, ApiError>| match r {
        Err(ApiError::Internal(message)) => message,
        _ => panic!("opening must fail"),
    };
    let foreign = "stored aad does not match secret identity (possible tampering)";
    assert_eq!(internal(open_version("a", 3, &record, &dek)), foreign);
    assert_eq!(internal(open_version("b", 2, &record, &dek)), foreign);
    let mut moved = record.clone();
    moved.aad = aad_for("b", 2);
    assert_eq!(internal(open_version("b", 2, &moved, &dek)), "decryption failed");
    let mut short = record.clone();
    short.nonce.pop();
    assert_eq!(internal(open_version("a", 2, &short, &dek)), "stored nonce has invalid length");
    assert!(check_record("a", 2, &record).is_ok());
}

#[test]
fn the_context_names_secret_and_version() {
    assert_eq!(
        kms_context("a/b", 12),
        vec![("secret".to_string(), "a/b".to_string()), ("version".to_string(), "12".to_string())]
    );
    let mut tables = Tables::new();
    assert_eq!(wrap_generation(&tables), 0);
    let state = KmsRewrapState { last_completed_rotation_at: 44, last_swept_at: 1, updated_at: 1 };
    apply_command(&mut tables, 1, &Command::SetKmsRewrapState { state }).unwrap();
    assert_eq!(wrap_generation(&tables), 44);
}

#[test]
fn lists_show_what_the_role_may_see() {
    let mut tables = Tables::new();
    for name in ["stripe/key", "db/password", "stripe/web"] {
        manual(&mut tables, name, "v");
    }
    let names = |is_admin: bool, rules: &[(String, String)]| -> Vec<String> {
        list_secrets(&tables, is_admin, rules).into_iter().map(|m| m.name).collect()
    };
    assert_eq!(names(true, &[]), vec!["db/password", "stripe/key", "stripe/web"]);
    let rules = [("create".to_string(), "stripe/*".to_string())];
    assert_eq!(names(false, &rules), vec!["stripe/key", "stripe/web"]);
    assert!(names(false, &[]).is_empty());
}

#[test]
fn many_secrets_are_read_at_once() {
    let mut tables = Tables::new();
    manual(&mut tables, "a", "1");
    manual(&mut tables, "b", "2");
    let names: Vec<String> = ["b", "none", "a", "b"].iter().map(|s| s.to_string()).collect();
    let mut batch = get_secrets(names).unwrap();
    let mut missing = 0;
    loop {
        match batch.step(&tables) {
            BatchStep::Done => break,
            BatchStep::Missing { .. } => {
                missing += 1;
                batch.pass();
            }
            BatchStep::Open { secret, version, .. } => {
                let plaintext = open_record(&secret.name, &version);
                let fields = decode_payload(secret.format, &plaintext, None).unwrap();
                batch.answer(&secret, &version, fields);
            }
        }
    }
    assert_eq!(missing, 1);
    let got: Vec<(String, Option<String>)> =
        batch.into_answers().into_iter().map(|v| (v.name, v.value)).collect();
    assert_eq!(
        got,
        vec![
            ("b".to_string(), text("2")),
            ("a".to_string(), text("1")),
            ("b".to_string(), text("2"))
        ]
    );
    let many = vec!["x".to_string(); 257];
    assert_eq!(bad(check_batch(&many)), "batch too large: 257 names (max 256)");
    assert_eq!(bad(get_secrets(many)), "batch too large: 257 names (max 256)");
    assert!(check_batch(&vec!["x".to_string(); 256]).is_ok());
}

#[test]
fn updates_are_refused_for_a_reason() {
    let mut tables = Tables::new();
    manual(&mut tables, "a", "1");
    let mut pair = request("p", SecretKind::Manual);
    pair.username = text("u");
    pair.password = text("p");
    create(&mut tables, pair, 100);
    let plan = |name: &str, req: &UpdateSecretRequest| begin_update(&tables, &name.to_string(), req);
    let mut req = update();
    req.rotation_interval_secs = Some(0);
    assert_eq!(bad(plan("none", &req)), "rotation_interval_secs must be positive");
    let mut req = update();
    req.grace_period_secs = Some(-1);
    assert_eq!(bad(plan("a", &req)), "grace_period_secs must not be negative");
    assert!(matches!(plan("none", &update()), Err(ApiError::NotFound)));
    let mut req = update();
    req.username = text("u");
    assert_eq!(
        bad(plan("a", &req)),
        "secret is opaque; use 'value', not 'username'/'password'"
    );
    let mut req = update();
    req.value = text("v");
    assert_eq!(
        bad(plan("p", &req)),
        "secret is userpass; use 'username'/'password', not 'value'"
    );
    req.value = text(&"v".repeat(65537));
    assert_eq!(bad(plan("a", &req)), "secret value is too large");
    assert!(matches!(plan("a", &update()), Ok(UpdatePlan::Meta { .. })));
}

#[test]
fn an_updated_secret_reads_back_and_the_old_value_stays_for_a_while() {
    let mut tables = Tables::new();
    let mut req = request("a", SecretKind::Manual);
    req.value = text("old");
    req.grace_period_secs = Some(50);
    create(&mut tables, req, 100);
    let mut req = update();
    req.value = text("new");
    req.grace_period_secs = Some(9);
    let (secret, bytes) = match begin_update(&tables, &"a".to_string(), &req).unwrap() {
        UpdatePlan::Value { secret, bytes } => (secret, bytes),
        _ => panic!("a new value is a new version"),
    };
    let version = next_version(&secret);
    assert_eq!(version, 2);
    let sealed = seal_version("a", version, data_key(), &bytes, 200, 0).unwrap();
    let command = update_secret("a", &req, &secret, Some(sealed), 200);
    apply_command(&mut tables, 1, &command).unwrap();
    assert_eq!(read(&tables, "a").value, text("new"));
    let meta = load_metadata(&tables, &"a".to_string()).unwrap();
    assert_eq!((meta.version, meta.grace_period_secs), (2, 9));

    let check = |presented: &str, now: i64| {
        let mut scan = begin_verify(&tables, &"a".to_string(), presented, now);
        loop {
            let plaintext = match scan.current() {
                Some(version) => open_record("a", version),
                None => return verify(None),
            };
            if let Some(matched) = scan.offer(&plaintext, &None) {
                return verify(Some(matched));
            }
        }
    };
    let found = check("old", 249);
    assert_eq!((found.valid, found.version), (true, Some(1)));
    let found = check("new", 249);
    assert_eq!((found.valid, found.version), (true, Some(2)));
    let found = check("old", 250);
    assert_eq!((found.valid, found.version), (false, None));
    assert!(!check("other", 0).valid);
}

#[test]
fn a_metadata_update_keeps_the_value() {
    let mut tables = Tables::new();
    let mut req = request("a", SecretKind::Automatic);
    req.rotation_interval_secs = Some(60);
    req.value = text("v");
    create(&mut tables, req, 100);
    let mut req = update();
    req.description = text("d");
    let secret = match begin_update(&tables, &"a".to_string(), &req).unwrap() {
        UpdatePlan::Meta { secret } => secret,
        _ => panic!("no new version"),
    };
    let command = update_secret("a", &req, &secret, None, 200);
    assert!(matches!(
        &command,
        Command::UpdateMeta { next_rotation_at: NextRotation::Keep, .. }
    ));
    req.rotation_interval_secs = Some(30);
    let command2 = update_secret("a", &req, &secret, None, 200);
    assert!(matches!(
        &command2,
        Command::UpdateMeta { next_rotation_at: NextRotation::SetTo(Some(230)), .. }
    ));
    apply_command(&mut tables, 1, &command).unwrap();
    let value = read(&tables, "a");
    assert_eq!((value.value, value.version), (text("v"), 1));
}

#[test]
fn a_pair_is_updated_field_by_field() {
    let mut tables = Tables::new();
    let mut req = request("p", SecretKind::Manual);
    req.username = text("u");
    req.password = text("p");
    create(&mut tables, req, 100);
    let mut req = update();
    req.password = text("q");
    let (secret, current) = match begin_update(&tables, &"p".to_string(), &req).unwrap() {
        UpdatePlan::Userpass { secret, current } => (secret, current),
        _ => panic!("the current pair is needed"),
    };
    let plaintext = open_record("p", &current);
    let bytes = merge_userpass(&req, userpass(plaintext.as_slice()).unwrap()).unwrap();
    let sealed = seal_version("p", 2, data_key(), &bytes, 200, 0).unwrap();
    let command = update_secret("p", &req, &secret, Some(sealed), 200);
    apply_command(&mut tables, 1, &command).unwrap();
    let value = read(&tables, "p");
    assert_eq!((value.username, value.password), (text("u"), text("q")));
}

#[test]
fn rotation_makes_a_new_version_and_restarts_the_interval() {
    let mut tables = Tables::new();
    manual(&mut tables, "m", "v");
    assert_eq!(
        bad(begin_rotate(&tables, &"m".to_string())),
        "only automatic secrets can be rotated; use update for manual secrets"
    );
    assert!(matches!(begin_rotate(&tables, &"none".to_string()), Err(ApiError::NotFound)));
    let mut req = request("a", SecretKind::Automatic);
    req.username = text("u");
    req.rotation_interval_secs = Some(60);
    req.grace_period_secs = Some(10);
    create(&mut tables, req, 100);
    let plan = begin_rotate(&tables, &"a".to_string()).unwrap();
    let current = plan.current.unwrap();
    let up = userpass(open_record("a", &current).as_slice()).unwrap();
    assert_eq!(up.username, "u");
    let payload = rotate_payload_with(SecretFormat::Userpass, up.username, "fresh".to_string());
    assert_eq!(payload.bytes, encode_userpass("u", "fresh"));
    let version = seal_version("a", 2, data_key(), &payload.bytes, 160, 0).unwrap();
    let (command, answer) = rotate("a", &plan.secret, payload, version, 160);
    assert_eq!((answer.version, answer.password), (2, text("fresh")));
    apply_command(&mut tables, 1, &command).unwrap();
    let (secret, _) = read_current_version(&tables, &"a".to_string()).unwrap();
    assert_eq!(secret.next_rotation_at, Some(220));
    assert_eq!(read(&tables, "a").password, text("fresh"));
    let old = tables.versions.get(&"a\u{0}0000000001".to_string()).unwrap();
    assert_eq!(old.expires_at, Some(170));
}

#[test]
fn deletions_and_audit_entries_are_commands() {
    assert!(matches!(delete_secret("a"), Command::DeleteSecret { name } if name == "a"));
    match audit(text("ci"), text("10.0.0.1"), "get", text("a"), "ok", 7) {
        Command::AppendAudit { entry } => {
            assert_eq!(entry.actor, text("ci"));
            assert_eq!(entry.client_ip, text("10.0.0.1"));
            assert_eq!(entry.secret_name, text("a"));
            assert_eq!((entry.action.as_str(), entry.outcome.as_str()), ("get", "ok"));
            assert_eq!((entry.at, entry.node_id), (7, 0));
        }
        _ => panic!("an audit entry is appended"),
    }
}

#[test]
fn a_secret_is_sealed_and_stored_under_the_key_it_is_given() {
    let mut tables = Tables::new();
    let mut req = request("a", SecretKind::Manual);
    req.value = text("one");
    let payload = begin_create(&req).unwrap();
    let (command, answer) = finish_create(req, payload, data_key(), 100, 7).unwrap();
    assert_eq!((answer.version, answer.value), (1, text("one")));
    match &command {
        Command::CreateSecret { secret, version } => {
            assert_eq!((secret.current_version, version.version), (1, 1));
            assert_eq!(version.aad, aad_for("a", 1));
            assert_eq!(version.wrapped_rotation_at, Some(7));
            assert_eq!(open_record("a", version).as_slice(), b"one");
        }
        _ => panic!("a secret is created"),
    }
    apply_command(&mut tables, 1, &command).unwrap();

    let mut req = update();
    req.value = text("two");
    match begin_update(&tables, &"a".to_string(), &req).unwrap() {
        UpdatePlan::Value { secret, bytes } => {
            let command =
                finish_update("a", &req, &secret, &bytes, data_key(), 110, 7).unwrap();
            match &command {
                Command::PutVersion { expected_current, version, .. } => {
                    assert_eq!((*expected_current, version.version), (1, 2));
                    assert_eq!(open_record("a", version).as_slice(), b"two");
                }
                _ => panic!("a version is stored"),
            }
            apply_command(&mut tables, 1, &command).unwrap();
        }
        _ => panic!("the value changes"),
    }
    assert_eq!(read(&tables, "a").value, text("two"));
}

#[test]
fn a_rotated_secret_is_sealed_as_the_next_version() {
    let mut tables = Tables::new();
    let mut req = request("a", SecretKind::Automatic);
    req.rotation_interval_secs = Some(60);
    create(&mut tables, req, 100);
    let plan = begin_rotate(&tables, &"a".to_string()).unwrap();
    let payload = rotate_payload_with(SecretFormat::Opaque, String::new(), "fresh".to_string());
    let (command, answer) =
        finish_rotate("a", &plan.secret, payload, data_key(), 160, 0).unwrap();
    assert_eq!((answer.version, answer.value), (2, text("fresh")));
    match &command {
        Command::PutVersion { version, next_rotation_at, supersede_expires_at, .. } => {
            assert_eq!(version.version, 2);
            assert_eq!(*supersede_expires_at, Some(160));
            assert!(matches!(next_rotation_at, NextRotation::SetTo(Some(220))));
            assert_eq!(open_record("a", version).as_slice(), b"fresh");
        }
        _ => panic!("a version is stored"),
    }
    apply_command(&mut tables, 1, &command).unwrap();
    assert_eq!(read(&tables, "a").value, text("fresh"));
}

#[test]
fn a_value_that_does_not_verify_counts_as_a_failure() {
    let policy = LockoutPolicy { max_failures: 2, lockout_secs: 900, window_secs: 300 };
    let ip = text("10.0.0.1");
    let (answer, failure) = verify_outcome(&policy, Some(3), &ip, 5);
    assert_eq!((answer.valid, answer.version), (true, Some(3)));
    assert!(failure.is_none());

    let mut tables = Tables::new();
    manual(&mut tables, "a", "one");
    let mut scan = begin_verify(&tables, &"none".to_string(), "one", 5);
    assert!(scan.current().is_none());
    for now in [5, 6] {
        assert!(check_ip(&tables, &policy, &"10.0.0.1".to_string(), now).is_ok());
        let (answer, failure) = verify_outcome(&policy, None, &ip, now);
        assert_eq!((answer.valid, answer.version), (false, None));
        apply_command(&mut tables, 1, &failure.unwrap()).unwrap();
    }
    assert!(matches!(
        check_ip(&tables, &policy, &"10.0.0.1".to_string(), 905),
        Err(ApiError::TooManyRequests)
    ));
    assert!(check_ip(&tables, &policy, &"10.0.0.1".to_string(), 906).is_ok());
    assert!(check_ip(&tables, &policy, &"10.0.0.2".to_string(), 10).is_ok());
    assert!(verify_outcome(&policy, None, &None, 7).1.is_none());
    let off = LockoutPolicy { max_failures: 0, ..policy };
    assert!(verify_outcome(&off, None, &ip, 7).1.is_none());
    scan = begin_verify(&tables, &"a".to_string(), "one", 5);
    let plaintext = open_record("a", scan.current().unwrap());
    assert_eq!(scan.offer(&plaintext, &None), Some(1));
}

#[test]
fn a_scan_names_the_newest_match_and_ends_where_no_version_is_left() {
    let mut tables = Tables::new();
    let mut req = request("a", SecretKind::Manual);
    req.value = text("same");
    req.grace_period_secs = Some(50);
    create(&mut tables, req, 100);
    let mut req = update();
    req.value = text("same");
    if let UpdatePlan::Value { secret, bytes } =
        begin_update(&tables, &"a".to_string(), &req).unwrap()
    {
        let command = finish_update("a", &req, &secret, &bytes, data_key(), 110, 0).unwrap();
        apply_command(&mut tables, 1, &command).unwrap();
    }
    let mut scan = begin_verify(&tables, &"a".to_string(), "same", 120);
    let plaintext = open_record("a", scan.current().unwrap());
    assert_eq!(scan.offer(&plaintext, &None), Some(2));
    let mut scan = begin_verify(&tables, &"a".to_string(), "other", 120);
    for left in [2, 1] {
        assert_eq!(scan.current().unwrap().version, left);
        assert_eq!(scan.offer(&plaintext, &None), None);
    }
    assert!(scan.current().is_none());
    assert_eq!(scan.offer(&plaintext, &None), None);
}

#[test]
fn a_finished_batch_stays_finished() {
    let mut tables = Tables::new();
    manual(&mut tables, "a", "1");
    let mut batch = get_secrets(vec!["a".to_string()]).unwrap();
    match batch.step(&tables) {
        BatchStep::Open { name, secret, version } => {
            assert_eq!(name, "a");
            batch.answer(&secret, &version, (text("1"), None, None));
            batch.answer(&secret, &version, (text("2"), None, None));
        }
        _ => panic!("the secret is there"),
    }
    batch.pass();
    assert!(matches!(batch.step(&tables), BatchStep::Done));
    let answers = batch.into_answers();
    assert_eq!(answers.len(), 1);
    assert_eq!(answers[0].value, text("1"));
}

use hyperion_vault::config::{is_affirmative, parse_bool, parse_mode, parse_peers, Config, KmsMode};
use hyperion_vault::error::Error;
use hyperion_vault::kms::{build, KmsChoice};
use hyperion_vault::startup::{
    check_identity, clustered, port_of, raft_listen_port, read_allowlist, seed_bootstrap_token,
};
use hyperion_vault::store::local::seed_admin_role;
use hyperion_vault::store::tables::Tables;

fn env(vars: &[(&str, &str)]) -> Vec<(String, String)> {
    vars.iter().map(|(k, v)| (k.to_string(), v.to_string())).collect()
}

fn local(extra: &[(&str, &str)]) -> Vec<(String, String)> {
    let mut vars = env(&[("VAULT_KMS_MODE", "local")]);
    vars.extend(env(extra));
    vars
}

fn config(extra: &[(&str, &str)]) -> Config {
    match Config::from_env(&local(extra)) {
        Ok(cfg) => cfg,
        Err(error) => panic!("{}", error.message),
    }
}

fn refusal(vars: &[(String, String)]) -> String {
    match Config::from_env(&vars.to_vec()) {
        Ok(_) => panic!("the configuration must be refused"),
        Err(error) => error.message,
    }
}

#[test]
fn defaults_hold_where_nothing_is_set() {
    let cfg = match Config::from_env(&env(&[("VAULT_KMS_KEY_ID", "arn")])) {
        Ok(cfg) => cfg,
        Err(error) => panic!("{}", error.message),
    };
    assert_eq!(cfg.node_id, 1);
    assert_eq!(cfg.peers.len(), 0);
    assert_eq!(cfg.api_port, 8200);
    assert_eq!(cfg.db_path, "vault.redb");
    assert_eq!(cfg.bootstrap_token, None);
    assert_eq!(cfg.allowed_ips, "");
    assert!(!cfg.trust_proxy);
    assert!(!cfg.read_consistency_linearizable);
    assert_eq!(cfg.kms_mode, KmsMode::Aws);
    assert_eq!(cfg.kms_key_id, "arn");
    assert_eq!(cfg.local_master_key_b64, None);
    assert_eq!(cfg.rotation_poll_secs, 15);
    assert_eq!(cfg.dek_cache_ttl_secs, 300);
    assert_eq!(cfg.kms_max_retries, 5);
    assert!(!cfg.kms_rewrap_enabled);
    assert_eq!(cfg.kms_rewrap_poll_secs, 86400);
    assert_eq!(cfg.kms_rewrap_max_per_sec, 10);
    assert_eq!(cfg.auth_max_failures, 5);
    assert_eq!(cfg.auth_lockout_secs, 900);
    assert_eq!(cfg.auth_window_secs, 300);
}

#[test]
fn variables_are_read() {
    let cfg = config(&[
        ("NODE_ID", "+3"),
        ("VAULT_PEERS", "1=a:7400, 3=c:7402 ,,"),
        ("VAULT_API_PORT", "65535"),
        ("VAULT_BOOTSTRAP_TOKEN", "boot"),
        ("VAULT_LOCAL_MASTER_KEY", ""),
        ("VAULT_TRUST_PROXY", "YES"),
        ("VAULT_READ_CONSISTENCY", "Linearizable"),
        ("VAULT_KMS_REWRAP_ENABLED", "on"),
        ("VAULT_AUTH_LOCKOUT_SECS", "-5"),
        ("NODE_ID", "9"),
    ]);
    assert_eq!(cfg.node_id, 3);
    assert_eq!(cfg.api_port, 65535);
    assert_eq!(cfg.bootstrap_token.as_deref(), Some("boot"));
    assert_eq!(cfg.local_master_key_b64, None);
    assert!(cfg.trust_proxy && cfg.read_consistency_linearizable && cfg.kms_rewrap_enabled);
    assert_eq!(cfg.auth_lockout_secs, -5);
    assert_eq!(cfg.self_addr(), Some("c:7402"));
    assert_eq!(cfg.peer_addr(1), Some("a:7400"));
    assert_eq!(cfg.peer_addr(2), None);
    assert!(clustered(&cfg));
    assert!(check_identity(&cfg).is_ok());
    assert_eq!(raft_listen_port(&cfg).ok(), Some(7402));
}

#[test]
fn bad_variables_are_named() {
    let one = |key: &str, value: &str| refusal(&local(&[(key, value)]));
    assert_eq!(one("NODE_ID", "x"), "NODE_ID must be a positive integer");
    assert_eq!(one("NODE_ID", "0"), "NODE_ID must be >= 1");
    assert_eq!(one("VAULT_PEERS", "a"), "VAULT_PEERS entry 'a' must be 'id=host:port'");
    assert_eq!(one("VAULT_PEERS", "1=a, x =b"), "VAULT_PEERS id 'x ' must be an integer");
    assert_eq!(one("VAULT_PEERS", "1= "), "VAULT_PEERS entry '1=' has an empty address");
    assert_eq!(one("VAULT_API_PORT", "65536"), "VAULT_API_PORT must be a port number");
    assert_eq!(
        refusal(&env(&[("VAULT_KMS_MODE", "GCP")])),
        "VAULT_KMS_MODE must be 'aws' or 'local', got 'gcp'"
    );
    assert_eq!(refusal(&[]), "VAULT_KMS_KEY_ID is required when VAULT_KMS_MODE=aws");
    assert_eq!(one("VAULT_ROTATION_POLL_SECS", "-1"), "VAULT_ROTATION_POLL_SECS must be an integer");
    assert_eq!(
        one("VAULT_DEK_CACHE_TTL_SECS", "soon"),
        "VAULT_DEK_CACHE_TTL_SECS must be an integer (seconds; 0 disables)"
    );
    assert_eq!(
        one("VAULT_KMS_MAX_RETRIES", "4294967296"),
        "VAULT_KMS_MAX_RETRIES must be an integer (0 disables retries)"
    );
    assert_eq!(
        one("VAULT_KMS_REWRAP_POLL_SECS", ""),
        "VAULT_KMS_REWRAP_POLL_SECS must be an integer (seconds)"
    );
    assert_eq!(
        one("VAULT_KMS_REWRAP_MAX_PER_SEC", "1.5"),
        "VAULT_KMS_REWRAP_MAX_PER_SEC must be an integer (0 disables pacing)"
    );
    assert_eq!(
        one("VAULT_AUTH_MAX_FAILURES", " 5"),
        "VAULT_AUTH_MAX_FAILURES must be an integer (0 disables lockout)"
    );
    assert_eq!(
        one("VAULT_AUTH_LOCKOUT_SECS", "9223372036854775808"),
        "VAULT_AUTH_LOCKOUT_SECS must be an integer (seconds a lockout lasts)"
    );
    assert_eq!(
        one("VAULT_AUTH_WINDOW_SECS", "w"),
        "VAULT_AUTH_WINDOW_SECS must be an integer (failure accumulation window)"
    );
}

#[test]
fn yes_is_said_in_four_ways() {
    for text in ["1", "true", "yes", "on", "TRUE", "Yes", "oN"] {
        assert!(parse_bool(text), "{text}");
    }
    for text in ["", "0", "false", "y", " true"] {
        assert!(!parse_bool(text), "{text}");
    }
    assert!(is_affirmative("on") && !is_affirmative("ON"));
    assert_eq!(parse_mode("aws").ok(), Some(KmsMode::Aws));
    assert!(parse_mode("AWS").is_err());
}

#[test]
fn later_peers_replace_earlier_ones() {
    let peers = parse_peers("2=b,1=a,2=c=d").ok().unwrap();
    assert_eq!(peers.len(), 2);
    assert_eq!(peers.get(&2).unwrap(), "c=d");
    assert_eq!(peers.keys().next().copied(), Some(1));
}

#[test]
fn a_cluster_needs_its_own_address() {
    let cfg = config(&[("NODE_ID", "4"), ("VAULT_PEERS", "1=a:1,2=b:2")]);
    match check_identity(&cfg) {
        Err(error) => assert_eq!(error.message, "NODE_ID 4 is not present in VAULT_PEERS"),
        Ok(_) => panic!("an unlisted node must be refused"),
    }
    assert!(raft_listen_port(&cfg).is_err());
    let alone = config(&[("NODE_ID", "4"), ("VAULT_PEERS", "1=a:1")]);
    assert!(check_identity(&alone).is_ok());
    assert!(!clustered(&alone));
    let cfg = config(&[("VAULT_PEERS", "1=a:x,2=b:2")]);
    match raft_listen_port(&cfg) {
        Err(error) => assert_eq!(error.message, "VAULT_PEERS address 'a:x' must be host:port"),
        Ok(_) => panic!("an address without a port must be refused"),
    }
    assert_eq!(port_of("h:80"), Some(80));
    assert_eq!(port_of("80"), Some(80));
    assert_eq!(port_of("h"), None);
    assert_eq!(port_of("h:65536"), None);
}

#[test]
fn the_allowlist_comes_from_the_configuration() {
    let list = read_allowlist(&config(&[("VAULT_ALLOWED_IPS", "10.0.0.0/8, 1.2.3.4")]));
    assert_eq!(list.ok().unwrap().len(), 2);
    match read_allowlist(&config(&[("VAULT_ALLOWED_IPS", "x")])) {
        Err(error) => assert_eq!(error.message, "VAULT_ALLOWED_IPS is invalid"),
        Ok(_) => panic!("a bad list must be refused"),
    }
}

#[test]
fn the_bootstrap_token_is_seeded_once() {
    let mut tables = Tables::new();
    seed_admin_role(&mut tables);
    assert_eq!(seed_bootstrap_token(&mut tables, 1, "tok", 9).len(), 2);
    assert_eq!(tables.tokens.len(), 1);
    let record = &tables.tokens.row(0).value;
    assert_eq!(record.name, "bootstrap-admin");
    assert_eq!(record.role.as_deref(), Some("admin"));
    assert_eq!(record.created_at, 9);
    assert!(seed_bootstrap_token(&mut tables, 1, "tok", 10).is_empty());
    assert!(seed_bootstrap_token(&mut tables, 1, "other", 10).is_empty());
    assert_eq!(tables.tokens.len(), 1);
}

#[test]
fn the_wrapping_service_is_chosen() {
    let cfg = Config::from_env(&env(&[("VAULT_KMS_KEY_ID", "arn")])).ok().unwrap();
    assert!(matches!(build(&cfg), Ok(KmsChoice::Aws { key_id }) if key_id == "arn"));
    assert!(matches!(build(&config(&[])), Ok(KmsChoice::Local { .. })));
    let key = "AQEBAQEBAQEBAQEBAQEBAQEBAQEBAQEBAQEBAQEBAQE=";
    assert!(matches!(
        build(&config(&[("VAULT_LOCAL_MASTER_KEY", key)])),
        Ok(KmsChoice::Local { .. })
    ));
    assert!(matches!(build(&config(&[("VAULT_LOCAL_MASTER_KEY", "*")])), Err(Error::KeyUnwrap)));
}

#[test]
fn the_mode_is_read_in_any_case() {
    for text in ["aws", "AWS", "Aws"] {
        let vars = env(&[("VAULT_KMS_MODE", text), ("VAULT_KMS_KEY_ID", "arn")]);
        assert_eq!(Config::from_env(&vars).ok().map(|cfg| cfg.kms_mode), Some(KmsMode::Aws));
    }
    let vars = env(&[("VAULT_KMS_MODE", "Local")]);
    assert_eq!(Config::from_env(&vars).ok().map(|cfg| cfg.kms_mode), Some(KmsMode::Local));
}

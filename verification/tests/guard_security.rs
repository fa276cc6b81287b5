use hyperion_vault::api_error::{ApiError, ApiResult};
use hyperion_vault::auth::fingerprint;
use hyperion_vault::guards::{
    admit_reader, authenticate, authorize, bearer_token, client_ip, forwarded_for, require_admin,
    AdminActor, ClientIp,
};
use hyperion_vault::ip_allowlist::{parse_ipv4, IpAllowlist};
use hyperion_vault::lockout::LockoutPolicy;
use hyperion_vault::store::apply::apply_command;
use hyperion_vault::store::local::seed_admin_role;
use hyperion_vault::store::model::{Command, RoleRecord, TokenRecord};
use hyperion_vault::store::tables::Tables;

const POLICY: LockoutPolicy = LockoutPolicy { max_failures: 2, lockout_secs: 900, window_secs: 300 };

fn tables() -> Tables {
    let mut tables = Tables::new();
    seed_admin_role(&mut tables);
    tables
}

fn client(text: &str) -> Option<ClientIp> {
    Some(ClientIp { text: text.to_string(), v4: parse_ipv4(text) })
}

fn status<T>(r: &ApiResult<T>) -> u16 {
    match r {
        Ok(_) => 200,
        Err(error) => error.parts().0,
    }
}

fn read_status(allowed: &str, ip: Option<ClientIp>) -> u16 {
    let allowlist = IpAllowlist::parse(allowed).unwrap();
    status(&admit_reader(&tables(), &POLICY, &allowlist, ip, 0).0)
}

fn add_token(tables: &mut Tables, name: &str, role: Option<&str>, token: &str) {
    let token = TokenRecord {
        name: name.to_string(),
        role: role.map(|r| r.to_string()),
        fingerprint: fingerprint(token).to_vec(),
        created_at: 0,
        last_used_at: None,
        revoked_at: None,
    };
    apply_command(tables, 1, &Command::AddToken { token }).unwrap();
}

#[test]
fn create_requires_admin_token() {
    let (r, _) = authenticate(&tables(), &POLICY, client("10.0.0.1"), None, 0);
    assert_eq!(status(&r), 401);
}

#[test]
fn create_with_malformed_authorization_is_unauthorized() {
    let token = bearer_token("Basic abc");
    assert!(token.is_none());
    let (r, _) = authenticate(&tables(), &POLICY, client("10.0.0.1"), token, 0);
    assert_eq!(status(&r), 401);
}

#[test]
fn read_from_disallowed_ip_is_forbidden() {
    assert_eq!(read_status("10.0.0.0/24", client("192.168.1.1")), 403);
    assert_eq!(read_status("10.0.0.0/24", client("10.0.0.9")), 200);
}

#[test]
fn read_without_connect_info_is_forbidden() {
    assert_eq!(read_status("10.0.0.0/24", None), 403);
}

#[test]
fn empty_allowlist_denies_all_reads() {
    assert_eq!(read_status("", client("10.0.0.9")), 403);
}

#[test]
fn verify_from_disallowed_ip_is_forbidden() {
    assert_eq!(read_status("10.0.0.0/24", client("203.0.113.5")), 403);
    assert_eq!(read_status("0.0.0.0/0", Some(ClientIp { text: "::1".to_string(), v4: None })), 403);
}

#[test]
fn bearer_tokens_are_read_from_the_header() {
    assert_eq!(bearer_token("Bearer  abc "), Some("abc".to_string()));
    assert_eq!(bearer_token("bearer abc"), Some("abc".to_string()));
    assert_eq!(bearer_token("BEARER abc"), None);
    assert_eq!(bearer_token("Bearer "), None);
    assert_eq!(bearer_token("Bearer"), None);
}

#[test]
fn the_proxy_is_believed_only_where_it_is_trusted() {
    assert_eq!(forwarded_for(" 1.2.3.4 , 5.6.7.8"), "1.2.3.4");
    assert_eq!(forwarded_for(""), "");
    let pick = |trust: bool, forwarded: Option<ClientIp>| {
        client_ip(trust, forwarded, client("9.9.9.9")).unwrap().text
    };
    assert_eq!(pick(true, client("1.2.3.4")), "1.2.3.4");
    assert_eq!(pick(false, client("1.2.3.4")), "9.9.9.9");
    assert_eq!(pick(true, None), "9.9.9.9");
    assert!(client_ip(true, None, None).is_none());
}

#[test]
fn a_valid_token_brings_the_rights_of_its_role() {
    let mut tables = tables();
    add_token(&mut tables, "boss", Some("admin"), "t1");
    add_token(&mut tables, "gone", Some("no-such-role"), "t2");
    add_token(&mut tables, "bare", None, "t3");
    let role = RoleRecord {
        name: "payments".to_string(),
        description: None,
        is_admin: false,
        permissions: vec![("create".to_string(), "stripe/*".to_string())],
        created_at: 0,
    };
    apply_command(&mut tables, 1, &Command::CreateRole { role }).unwrap();
    add_token(&mut tables, "ci", Some("payments"), "t4");

    let enter = |token: &str| -> AdminActor {
        let (r, command) =
            authenticate(&tables, &POLICY, client("10.0.0.1"), Some(token.to_string()), 77);
        match command {
            Some(Command::TouchToken { fingerprint: print, at }) => {
                assert_eq!(print, fingerprint(token).to_vec());
                assert_eq!(at, 77);
            }
            _ => panic!("the use of a token must be noted"),
        }
        r.unwrap()
    };
    let boss = enter("t1");
    assert_eq!(boss.name, "boss");
    assert!(boss.is_admin);
    assert!(require_admin(&POLICY, &boss, 0).0.is_ok());
    for token in ["t2", "t3"] {
        let actor = enter(token);
        assert!(!actor.is_admin && actor.rules.is_empty());
    }
    let ci = enter("t4");
    assert!(authorize(&POLICY, &ci, "create", "stripe/key", 0).0.is_ok());
    let (refused, failure) = authorize(&POLICY, &ci, "delete", "stripe/key", 5);
    assert_eq!(status(&refused), 403);
    match failure {
        Some(Command::RecordAuthFailure { ip, now, max, window_secs, lockout_secs }) => {
            assert_eq!((ip.as_str(), now, max, window_secs, lockout_secs), ("10.0.0.1", 5, 2, 300, 900));
        }
        _ => panic!("a refusal must count as a failure"),
    }
    assert_eq!(status(&require_admin(&POLICY, &ci, 0).0), 403);
}

#[test]
fn unknown_and_revoked_tokens_are_refused_and_counted() {
    let mut tables = tables();
    add_token(&mut tables, "t", Some("admin"), "secret");
    let revoke = Command::RevokeToken { name: "t".to_string(), revoked_at: 1 };
    apply_command(&mut tables, 1, &revoke).unwrap();
    for token in ["secret", "other"] {
        let (r, command) =
            authenticate(&tables, &POLICY, client("10.0.0.1"), Some(token.to_string()), 0);
        assert!(matches!(r, Err(ApiError::Unauthorized)));
        assert!(matches!(command, Some(Command::RecordAuthFailure { .. })));
    }
    let (_, command) = authenticate(&tables, &POLICY, None, None, 0);
    assert!(command.is_none());
}

#[test]
fn too_many_failures_lock_an_address_out() {
    let mut tables = tables();
    add_token(&mut tables, "t", Some("admin"), "secret");
    for now in [0, 1] {
        let (_, command) = authenticate(&tables, &POLICY, client("10.0.0.1"), None, now);
        apply_command(&mut tables, 1, &command.unwrap()).unwrap();
    }
    let token = || Some("secret".to_string());
    let (r, command) = authenticate(&tables, &POLICY, client("10.0.0.1"), token(), 900);
    assert_eq!(status(&r), 429);
    assert!(command.is_none());
    assert!(authenticate(&tables, &POLICY, client("10.0.0.2"), token(), 900).0.is_ok());
    assert!(authenticate(&tables, &POLICY, client("10.0.0.1"), token(), 901).0.is_ok());
    let allowlist = IpAllowlist::parse("10.0.0.0/8").unwrap();
    let (r, _) = admit_reader(&tables, &POLICY, &allowlist, client("10.0.0.1"), 900);
    assert_eq!(status(&r), 429);

    let off = LockoutPolicy { max_failures: 0, lockout_secs: 900, window_secs: 300 };
    assert!(authenticate(&tables, &off, client("10.0.0.1"), token(), 900).0.is_ok());
    assert!(authenticate(&tables, &off, client("10.0.0.1"), None, 900).1.is_none());
}

#[test]
fn errors_have_a_status_and_a_text() {
    let parts = |e: ApiError| e.parts();
    assert_eq!(parts(ApiError::Unauthorized), (401, "unauthorized".to_string()));
    assert_eq!(parts(ApiError::Forbidden), (403, "forbidden".to_string()));
    assert_eq!(
        parts(ApiError::TooManyRequests),
        (429, "too many failed attempts; locked out".to_string())
    );
    assert_eq!(parts(ApiError::NotFound), (404, "not found".to_string()));
    assert_eq!(parts(ApiError::BadRequest("b".to_string())), (400, "b".to_string()));
    assert_eq!(parts(ApiError::Conflict("c".to_string())), (409, "c".to_string()));
    assert_eq!(parts(ApiError::Internal("i".to_string())), (500, "internal error".to_string()));
}

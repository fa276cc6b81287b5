use hyperion_vault::api_error::ApiError;
use hyperion_vault::auth::fingerprint;
use hyperion_vault::dto::{CreateRoleRequest, CreateTokenRequest, PermissionRule};
use hyperion_vault::manage::{
    check_backup, check_token, create_role, create_token, create_token_with, delete_role, get_role,
    list_roles, list_tokens, revoke_token, set_permissions, validate_permissions,
    validate_role_name,
};
use hyperion_vault::store::apply::apply_command;
use hyperion_vault::store::backup::BackupData;
use hyperion_vault::store::model::Command;
use hyperion_vault::store::tables::Tables;

fn rule(action: &str, path: &str) -> PermissionRule {
    PermissionRule { action: action.to_string(), path: path.to_string() }
}

fn role_request(name: &str, permissions: Vec<PermissionRule>) -> CreateRoleRequest {
    CreateRoleRequest { name: name.to_string(), description: None, is_admin: false, permissions }
}

fn token_request(name: &str, role: &str) -> CreateTokenRequest {
    CreateTokenRequest { name: name.to_string(), role: role.to_string() }
}

fn bad<T>(r: Result<T, ApiError>) -> String {
    match r {
        Err(ApiError::BadRequest(message)) => message,
        _ => panic!("the request must be refused"),
    }
}

#[test]
fn roles_are_created_listed_and_changed() {
    let mut tables = Tables::new();
    for name in ["writers", "readers"] {
        let (command, info) =
            create_role(role_request(name, vec![rule("create", "a/*")]), 0).unwrap();
        assert_eq!(info.name, name);
        assert_eq!(info.created_at, "1970-01-01T00:00:00Z");
        apply_command(&mut tables, 1, &command).unwrap();
    }
    let names: Vec<String> = list_roles(&tables).into_iter().map(|r| r.name).collect();
    assert_eq!(names, vec!["readers", "writers"]);
    let command = set_permissions("writers", &vec![rule("*", "b/*"), rule("rotate", "c")]).unwrap();
    apply_command(&mut tables, 1, &command).unwrap();
    let info = get_role(&tables, &"writers".to_string()).unwrap();
    assert_eq!(info.permissions.len(), 2);
    assert_eq!(
        (info.permissions[0].action.as_str(), info.permissions[1].path.as_str()),
        ("*", "c")
    );
    assert!(matches!(get_role(&tables, &"none".to_string()), Err(ApiError::NotFound)));
    let command = delete_role("readers").unwrap();
    apply_command(&mut tables, 1, &command).unwrap();
    assert_eq!(list_roles(&tables).len(), 1);
    assert_eq!(bad(delete_role("admin")), "the built-in 'admin' role cannot be deleted");
}

#[test]
fn bad_roles_and_rules_are_refused() {
    let range = "role name must be between 1 and 255 characters";
    assert_eq!(bad(validate_role_name(" \t")), range);
    assert_eq!(bad(validate_role_name(&"r".repeat(256))), range);
    assert!(validate_role_name("any name ü").is_ok());
    let action = "invalid action 'read' (allowed: create, update, delete, rotate, *)";
    assert_eq!(bad(validate_permissions(&vec![rule("create", "a"), rule("read", "")])), action);
    assert_eq!(
        bad(validate_permissions(&vec![rule("create", "")])),
        "permission path must not be empty"
    );
    assert_eq!(bad(create_role(role_request("", vec![rule("read", "a")]), 0)), range);
    assert_eq!(bad(create_role(role_request("r", vec![rule("read", "a")]), 0)), action);
    assert_eq!(bad(set_permissions("r", &vec![rule("read", "a")])), action);
}

#[test]
fn tokens_are_stored_as_fingerprints() {
    let mut tables = Tables::new();
    assert_eq!(bad(check_token(&tables, &token_request(" ", "r"))), "token name is required");
    assert_eq!(bad(check_token(&tables, &token_request("t", "r"))), "role 'r' does not exist");
    let (command, _) = create_role(role_request("r", vec![]), 0).unwrap();
    apply_command(&mut tables, 1, &command).unwrap();
    let (command, created) =
        create_token_with(&tables, token_request("t", "r"), "plain".to_string(), 5).unwrap();
    assert_eq!((created.name.as_str(), created.token.as_str()), ("t", "plain"));
    match &command {
        Command::AddToken { token } => {
            assert_eq!(token.fingerprint, fingerprint("plain").to_vec());
            assert_eq!(token.created_at, 5);
        }
        _ => panic!("a token is added"),
    }
    apply_command(&mut tables, 1, &command).unwrap();
    let (command, created) = create_token(&tables, token_request("a", "r"), 6).unwrap();
    assert_eq!(created.token.len(), 43);
    apply_command(&mut tables, 1, &command).unwrap();
    apply_command(&mut tables, 1, &revoke_token("t", 60)).unwrap();
    let infos = list_tokens(&tables);
    assert_eq!(infos.len(), 2);
    assert_eq!((infos[0].name.as_str(), infos[1].name.as_str()), ("a", "t"));
    assert_eq!(infos[1].revoked_at.as_deref(), Some("1970-01-01T00:01:00Z"));
    assert_eq!(infos[1].last_used_at, None);
    assert!(create_token(&tables, token_request("b", "none"), 6).is_err());
}

#[test]
fn backups_of_another_version_are_refused() {
    assert!(check_backup(&BackupData { version: 1, ..Default::default() }).is_ok());
    assert_eq!(
        bad(check_backup(&BackupData { version: 0, ..Default::default() })),
        "unsupported backup version 0 (this build restores version 1)"
    );
}

use hyperion_vault::api_error::ApiError;
use hyperion_vault::audit::{record, settle, Operation};
use hyperion_vault::dto::CreateRoleRequest;
use hyperion_vault::manage::create_role;
use hyperion_vault::store::apply::apply_command;
use hyperion_vault::store::model::{AuditEntry, Command, StoreError};
use hyperion_vault::store::tables::Tables;

fn text(s: &str) -> Option<String> {
    Some(s.to_string())
}

fn named() -> String {
    "a".to_string()
}

fn entry(command: Command) -> AuditEntry {
    match command {
        Command::AppendAudit { entry } => entry,
        _ => panic!("an entry is appended"),
    }
}

fn recorded(operation: Operation) -> (String, Option<String>, String) {
    let entry = entry(record(operation, text("ci"), text("10.0.0.1"), 7));
    assert_eq!((entry.at, entry.actor, entry.client_ip), (7, text("ci"), text("10.0.0.1")));
    (entry.action, entry.secret_name, entry.outcome)
}

fn row(action: &str, name: Option<&str>, outcome: &str) -> (String, Option<String>, String) {
    (action.to_string(), name.map(str::to_string), outcome.to_string())
}

#[test]
fn each_operation_has_its_action_and_outcome() {
    let a = Some("a");
    assert_eq!(recorded(Operation::Create { name: named() }), row("create", a, "ok"));
    assert_eq!(recorded(Operation::Get { name: named(), found: true }), row("get", a, "ok"));
    assert_eq!(
        recorded(Operation::Get { name: named(), found: false }),
        row("get", a, "not_found")
    );
    assert_eq!(recorded(Operation::List), row("list", None, "ok"));
    assert_eq!(recorded(Operation::Update { name: named() }), row("update", a, "ok"));
    assert_eq!(recorded(Operation::Delete { name: named() }), row("delete", a, "ok"));
    assert_eq!(recorded(Operation::Rotate { name: named() }), row("rotate", a, "ok"));
    assert_eq!(
        recorded(Operation::Verify { name: named(), valid: true }),
        row("verify", a, "valid")
    );
    assert_eq!(
        recorded(Operation::Verify { name: named(), valid: false }),
        row("verify", a, "invalid")
    );
    assert_eq!(recorded(Operation::Backup), row("backup", None, "ok"));
    assert_eq!(recorded(Operation::Restore), row("restore", None, "ok"));
    assert_eq!(recorded(Operation::CreateRole { name: named() }), row("create_role", a, "ok"));
    assert_eq!(recorded(Operation::ListRoles), row("list_roles", None, "ok"));
    assert_eq!(recorded(Operation::GetRole { name: named() }), row("get_role", a, "ok"));
    assert_eq!(
        recorded(Operation::SetPermissions { name: named() }),
        row("set_permissions", a, "ok")
    );
    assert_eq!(recorded(Operation::DeleteRole { name: named() }), row("delete_role", a, "ok"));
    assert_eq!(recorded(Operation::CreateToken { name: named() }), row("create_token", a, "ok"));
    assert_eq!(recorded(Operation::ListTokens), row("list_tokens", None, "ok"));
    assert_eq!(recorded(Operation::RevokeToken { name: named() }), row("revoke_token", a, "ok"));
}

#[test]
fn a_created_role_is_stored_and_recorded_once() {
    let mut tables = Tables::new();
    let request = || CreateRoleRequest {
        name: "readers".to_string(),
        description: None,
        is_admin: false,
        permissions: vec![],
    };
    let (command, info) = create_role(request(), 5).unwrap();
    let operation = Operation::CreateRole { name: info.name };
    let applied = apply_command(&mut tables, 3, &command).map(|_| ());
    let (answer, entry) = settle(applied, operation, text("root"), text("10.0.0.1"), 6);
    assert!(answer.is_ok());
    apply_command(&mut tables, 3, &entry.unwrap()).unwrap();
    assert_eq!(tables.roles.get(&"readers".to_string()).unwrap().created_at, 5);
    assert_eq!(tables.audit.len(), 1);
    let stored = tables.audit.get(&0).unwrap();
    assert_eq!((stored.action.as_str(), stored.outcome.as_str()), ("create_role", "ok"));
    assert_eq!((&stored.actor, &stored.client_ip), (&text("root"), &text("10.0.0.1")));
    assert_eq!((stored.at, stored.node_id), (6, 3));

    let (command, info) = create_role(request(), 7).unwrap();
    let operation = Operation::CreateRole { name: info.name };
    let applied = apply_command(&mut tables, 3, &command).map(|_| ());
    let (answer, entry) = settle(applied, operation, text("root"), None, 8);
    assert!(matches!(answer, Err(ApiError::Conflict(_))));
    assert!(entry.is_none());
    assert_eq!(tables.audit.len(), 1);
}

#[test]
fn a_refused_change_is_not_recorded() {
    let operation = || Operation::Delete { name: named() };
    let (answer, entry) = settle(Err(StoreError::NotFound), operation(), None, None, 1);
    assert!(matches!(answer, Err(ApiError::NotFound)) && entry.is_none());
    let (answer, entry) = settle(Err(StoreError::VersionConflict), operation(), None, None, 1);
    assert!(matches!(answer, Err(ApiError::Conflict(_))) && entry.is_none());
}

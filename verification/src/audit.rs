//! Which operations are recorded in the audit log, and how.

use vstd::prelude::*;
use crate::api_error::{of_store, ApiError, ApiResult};
use crate::lockout::command_view;
use crate::service::audit;
use crate::store::apply::{next_audit_key, outcome};
use crate::store::laws::lemma_audit_keys_below;
use crate::store::model::{AuditView, Command, CommandView, StoreErrorView, StoreResult};
use crate::store::tables::StoreView;

verus! {

/// An operation that a client or a worker has carried out, with what it was about and what came of
/// it.
pub enum Operation {
    Create { name: String },
    Get { name: String, found: bool },
    List,
    Update { name: String },
    Delete { name: String },
    Rotate { name: String },
    Verify { name: String, valid: bool },
    Backup,
    Restore,
    CreateRole { name: String },
    ListRoles,
    GetRole { name: String },
    SetPermissions { name: String },
    DeleteRole { name: String },
    CreateToken { name: String },
    ListTokens,
    RevokeToken { name: String },
}

/// The action under which an operation is recorded.
pub open spec fn action_of(operation: Operation) -> Seq<char> {
    match operation {
        Operation::Create { .. } => "create"@,
        Operation::Get { .. } => "get"@,
        Operation::List => "list"@,
        Operation::Update { .. } => "update"@,
        Operation::Delete { .. } => "delete"@,
        Operation::Rotate { .. } => "rotate"@,
        Operation::Verify { .. } => "verify"@,
        Operation::Backup => "backup"@,
        Operation::Restore => "restore"@,
        Operation::CreateRole { .. } => "create_role"@,
        Operation::ListRoles => "list_roles"@,
        Operation::GetRole { .. } => "get_role"@,
        Operation::SetPermissions { .. } => "set_permissions"@,
        Operation::DeleteRole { .. } => "delete_role"@,
        Operation::CreateToken { .. } => "create_token"@,
        Operation::ListTokens => "list_tokens"@,
        Operation::RevokeToken { .. } => "revoke_token"@,
    }
}

/// What an operation was about: the secret, role or token that it names, if it names one.
pub open spec fn subject_of(operation: Operation) -> Option<Seq<char>> {
    match operation {
        Operation::Create { name } => Some(name@),
        Operation::Get { name, .. } => Some(name@),
        Operation::List => None,
        Operation::Update { name } => Some(name@),
        Operation::Delete { name } => Some(name@),
        Operation::Rotate { name } => Some(name@),
        Operation::Verify { name, .. } => Some(name@),
        Operation::Backup => None,
        Operation::Restore => None,
        Operation::CreateRole { name } => Some(name@),
        Operation::ListRoles => None,
        Operation::GetRole { name } => Some(name@),
        Operation::SetPermissions { name } => Some(name@),
        Operation::DeleteRole { name } => Some(name@),
        Operation::CreateToken { name } => Some(name@),
        Operation::ListTokens => None,
        Operation::RevokeToken { name } => Some(name@),
    }
}

/// The outcome with which an operation is recorded: whether the secret that was read was there,
/// whether the value that was presented is valid, and `ok` for everything else that was done.
pub open spec fn outcome_of(operation: Operation) -> Seq<char> {
    match operation {
        Operation::Get { found, .. } => if found {
            "ok"@
        } else {
            "not_found"@
        },
        Operation::Verify { valid, .. } => if valid {
            "valid"@
        } else {
            "invalid"@
        },
        _ => "ok"@,
    }
}

/// The entry that records an operation. The node adds its own id.
pub open spec fn entry_of(
    operation: Operation,
    actor: Option<Seq<char>>,
    client_ip: Option<Seq<char>>,
    now: i64,
) -> AuditView {
    AuditView {
        at: now,
        actor,
        client_ip,
        action: action_of(operation),
        secret_name: subject_of(operation),
        outcome: outcome_of(operation),
        node_id: 0,
    }
}

fn action(operation: &Operation) -> (r: &'static str)
    ensures
        r@ == action_of(*operation),
{
    match operation {
        Operation::Create { .. } => "create",
        Operation::Get { .. } => "get",
        Operation::List => "list",
        Operation::Update { .. } => "update",
        Operation::Delete { .. } => "delete",
        Operation::Rotate { .. } => "rotate",
        Operation::Verify { .. } => "verify",
        Operation::Backup => "backup",
        Operation::Restore => "restore",
        Operation::CreateRole { .. } => "create_role",
        Operation::ListRoles => "list_roles",
        Operation::GetRole { .. } => "get_role",
        Operation::SetPermissions { .. } => "set_permissions",
        Operation::DeleteRole { .. } => "delete_role",
        Operation::CreateToken { .. } => "create_token",
        Operation::ListTokens => "list_tokens",
        Operation::RevokeToken { .. } => "revoke_token",
    }
}

fn outcome_text(operation: &Operation) -> (r: &'static str)
    ensures
        r@ == outcome_of(*operation),
{
    match operation {
        Operation::Get { found, .. } => if *found {
            "ok"
        } else {
            "not_found"
        },
        Operation::Verify { valid, .. } => if *valid {
            "valid"
        } else {
            "invalid"
        },
        _ => "ok",
    }
}

fn subject(operation: Operation) -> (r: Option<String>)
    ensures
        r.deep_view() == subject_of(operation),
{
    match operation {
        Operation::Create { name } => Some(name),
        Operation::Get { name, .. } => Some(name),
        Operation::List => None,
        Operation::Update { name } => Some(name),
        Operation::Delete { name } => Some(name),
        Operation::Rotate { name } => Some(name),
        Operation::Verify { name, .. } => Some(name),
        Operation::Backup => None,
        Operation::Restore => None,
        Operation::CreateRole { name } => Some(name),
        Operation::ListRoles => None,
        Operation::GetRole { name } => Some(name),
        Operation::SetPermissions { name } => Some(name),
        Operation::DeleteRole { name } => Some(name),
        Operation::CreateToken { name } => Some(name),
        Operation::ListTokens => None,
        Operation::RevokeToken { name } => Some(name),
    }
}

/// The command that records an operation.
pub fn record(
    operation: Operation,
    actor: Option<String>,
    client_ip: Option<String>,
    now: i64,
) -> (r: Command)
    ensures
        r@ == (CommandView::AppendAudit {
            entry: entry_of(operation, actor.deep_view(), client_ip.deep_view(), now),
        }),
{
    let action = action(&operation);
    let outcome = outcome_text(&operation);
    audit(actor, client_ip, action, subject(operation), outcome, now)
}

/// What follows once the command of an operation was handed to the store: where it was applied the
/// operation is done and recorded, where it was refused the client is told why and there is
/// nothing to record.
pub fn settle(
    applied: StoreResult<()>,
    operation: Operation,
    actor: Option<String>,
    client_ip: Option<String>,
    now: i64,
) -> (r: (ApiResult<()>, Option<Command>))
    ensures
        match applied {
            Ok(_) => {
                &&& r.0 is Ok
                &&& command_view(r.1) == Some(
                    CommandView::AppendAudit {
                        entry: entry_of(operation, actor.deep_view(), client_ip.deep_view(), now),
                    },
                )
            },
            Err(error) => (r.0 matches Err(e) && e@ == of_store(error@)) && r.1 is None,
        },
{
    match applied {
        Ok(_) => (Ok(()), Some(record(operation, actor, client_ip, now))),
        Err(error) => (Err(ApiError::from_store(error)), None),
    }
}

/// The state after the command of an operation and the record of the operation.
pub open spec fn after_operation(
    state: StoreView,
    node_id: u64,
    command: CommandView,
    entry: AuditView,
) -> StoreView {
    outcome(
        outcome(state, node_id, command)->Ok_0,
        node_id,
        CommandView::AppendAudit { entry },
    )->Ok_0
}

/// Every operation is recorded: a change that is carried out leaves one new entry in the audit
/// log, which tells who did it from where, what was done and what came of it, and on which node.
/// The entries that were there stay as they are, and apart from the log the state is what the
/// change made it.
pub proof fn law_operation_is_recorded(
    state: StoreView,
    node_id: u64,
    command: CommandView,
    operation: Operation,
    actor: Option<Seq<char>>,
    client_ip: Option<Seq<char>>,
    now: i64,
)
    requires
        state.audit.dom().finite(),
        next_audit_key(state.audit) <= u64::MAX,
        !(command is AppendAudit),
        outcome(state, node_id, command) is Ok,
    ensures
        ({
            let entry = entry_of(operation, actor, client_ip, now);
            let key = next_audit_key(state.audit) as u64;
            let after = after_operation(state, node_id, command, entry);
            &&& !state.audit.contains_key(key)
            &&& after.audit == state.audit.insert(key, AuditView { node_id, ..entry })
            &&& after.audit.dom().len() == state.audit.dom().len() + 1
            &&& after == (StoreView {
                audit: after.audit,
                ..outcome(state, node_id, command)->Ok_0
            })
        }),
{
    let key = next_audit_key(state.audit) as u64;
    if state.audit.contains_key(key) {
        lemma_audit_keys_below(state.audit, key);
    }
    assert(outcome(state, node_id, command)->Ok_0.audit == state.audit);
}

/// A read is recorded too: it leaves one new entry in the audit log and nothing else.
pub proof fn law_read_is_recorded(
    state: StoreView,
    node_id: u64,
    operation: Operation,
    actor: Option<Seq<char>>,
    client_ip: Option<Seq<char>>,
    now: i64,
)
    requires
        state.audit.dom().finite(),
        next_audit_key(state.audit) <= u64::MAX,
    ensures
        ({
            let entry = entry_of(operation, actor, client_ip, now);
            let key = next_audit_key(state.audit) as u64;
            let after = outcome(state, node_id, CommandView::AppendAudit { entry });
            &&& !state.audit.contains_key(key)
            &&& after == Ok::<StoreView, StoreErrorView>(
                StoreView {
                    audit: state.audit.insert(key, AuditView { node_id, ..entry }),
                    ..state
                },
            )
            &&& after->Ok_0.audit.dom().len() == state.audit.dom().len() + 1
        }),
{
    let key = next_audit_key(state.audit) as u64;
    if state.audit.contains_key(key) {
        lemma_audit_keys_below(state.audit, key);
    }
}

} // verus!

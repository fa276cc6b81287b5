//! What holds of the stored state across commands.

use vstd::prelude::*;
use crate::rotation::active_at;
use super::apply::{command_fits, next_audit_key, outcome, row_of};
use super::keys::{key_of, law_key_belongs, law_key_injective, nul_free};
use super::model::{
    AuditView, CommandView, MetaChange, SecretView, StoreErrorView, VersionView,
};
use super::table::{lemma_ordered_exists, lemma_ordered_has, ordered};
use super::tables::StoreView;

verus! {

/// What is created can be read back: the secret under its name, the version under its key.
pub proof fn law_created_is_stored(
    state: StoreView,
    node_id: u64,
    secret: SecretView,
    version: VersionView,
)
    requires
        !state.secrets.contains_key(secret.name),
    ensures
        ({
            let after = outcome(state, node_id, CommandView::CreateSecret { secret, version });
            &&& after is Ok
            &&& row_of(after->Ok_0.secrets, secret.name) == Some(secret)
            &&& row_of(after->Ok_0.versions, key_of(secret.name, version.version as int)) == Some(
                version,
            )
        }),
{
}

/// A name is taken once: creating it again is refused.
pub proof fn law_duplicate_name_conflicts(
    state: StoreView,
    node_id: u64,
    first: SecretView,
    first_version: VersionView,
    second: SecretView,
    second_version: VersionView,
)
    requires
        first.name == second.name,
        !state.secrets.contains_key(first.name),
    ensures
        ({
            let after = outcome(
                state,
                node_id,
                CommandView::CreateSecret { secret: first, version: first_version },
            )->Ok_0;
            outcome(
                after,
                node_id,
                CommandView::CreateSecret { secret: second, version: second_version },
            ) is Err
        }),
{
}

/// A taken name, a secret that does not exist and an outdated version number are refused, whatever
/// the state. No refused command is out of the range that `apply_command` asks for, so that it
/// leaves the tables as they are on every one of them.
pub proof fn law_refusals(state: StoreView, node_id: u64, command: CommandView)
    ensures
        match command {
            CommandView::CreateSecret { secret, .. } => state.secrets.contains_key(secret.name)
                ==> outcome(state, node_id, command) == Err::<StoreView, StoreErrorView>(
                StoreErrorView::Conflict("secret '"@ + secret.name + "' already exists"@),
            ),
            CommandView::PutVersion { name, expected_current, .. } => refused_write(
                state,
                node_id,
                command,
                name,
                expected_current,
            ),
            CommandView::UpdateMeta { name, expected_current, .. } => refused_write(
                state,
                node_id,
                command,
                name,
                expected_current,
            ),
            _ => true,
        },
        outcome(state, node_id, command) is Err ==> command_fits(state, command),
{
}

/// Whether a write is refused for a secret that does not exist, and for one whose version is not
/// the expected one.
pub open spec fn refused_write(
    state: StoreView,
    node_id: u64,
    command: CommandView,
    name: Seq<char>,
    expected_current: i32,
) -> bool {
    if !state.secrets.contains_key(name) {
        outcome(state, node_id, command) == Err::<StoreView, StoreErrorView>(
            StoreErrorView::NotFound,
        )
    } else {
        state.secrets[name].current_version != expected_current ==> outcome(
            state,
            node_id,
            command,
        ) == Err::<StoreView, StoreErrorView>(StoreErrorView::VersionConflict)
    }
}

/// Of two writers that both saw version `seen`, the second is told of the conflict, unless the
/// first kept the version number.
pub proof fn law_second_writer_conflicts(
    state: StoreView,
    node_id: u64,
    name: Seq<char>,
    seen: i32,
    a: VersionView,
    b: VersionView,
    expiry: Option<i64>,
    meta: MetaChange,
)
    requires
        a.version != seen,
        state.secrets.contains_key(name),
        state.secrets[name].current_version == seen,
    ensures
        ({
            let first = outcome(
                state,
                node_id,
                CommandView::PutVersion {
                    name,
                    expected_current: seen,
                    version: a,
                    supersede_expires_at: expiry,
                    meta,
                },
            );
            &&& first is Ok
            &&& outcome(
                first->Ok_0,
                node_id,
                CommandView::PutVersion {
                    name,
                    expected_current: seen,
                    version: b,
                    supersede_expires_at: expiry,
                    meta,
                },
            ) == Err::<StoreView, StoreErrorView>(StoreErrorView::VersionConflict)
        }),
{
}

/// A new version becomes the current one and is stored as given; the version it supersedes stays,
/// valid until its expiry and no longer; every other version is untouched.
pub proof fn law_superseded_until_expiry(
    state: StoreView,
    node_id: u64,
    name: Seq<char>,
    version: VersionView,
    expiry: i64,
    meta: MetaChange,
    now: i64,
    key: Seq<char>,
)
    requires
        nul_free(name),
        state.secrets.contains_key(name),
        version.version != state.secrets[name].current_version,
        state.versions.contains_key(key_of(name, state.secrets[name].current_version as int)),
        state.versions[key_of(name, state.secrets[name].current_version as int)].expires_at is None,
        version.expires_at is None,
    ensures
        ({
            let seen = state.secrets[name].current_version;
            let after = outcome(
                state,
                node_id,
                CommandView::PutVersion {
                    name,
                    expected_current: seen,
                    version,
                    supersede_expires_at: Some(expiry),
                    meta,
                },
            )->Ok_0;
            let new_key = key_of(name, version.version as int);
            let old_key = key_of(name, seen as int);
            &&& after.secrets[name].current_version == version.version
            &&& row_of(after.versions, new_key) == Some(version)
            &&& active_at(now as int, after.versions[new_key].expires_at)
            &&& row_of(after.versions, old_key) == Some(
                VersionView { expires_at: Some(expiry), ..state.versions[old_key] },
            )
            &&& active_at(now as int, after.versions[old_key].expires_at) <==> now < expiry
            &&& key != new_key && key != old_key ==> row_of(after.versions, key) == row_of(
                state.versions,
                key,
            )
        }),
{
    let seen = state.secrets[name].current_version;
    if key_of(name, version.version as int) == key_of(name, seen as int) {
        law_key_injective(name, version.version as int, name, seen as int);
    }
}

/// Deleting a secret removes it and all its versions, and nothing of any other secret.
pub proof fn law_delete_is_exact(
    state: StoreView,
    node_id: u64,
    name: Seq<char>,
    other: Seq<char>,
    version: int,
)
    requires
        state.secrets.contains_key(name),
        nul_free(name),
        nul_free(other),
    ensures
        ({
            let after = outcome(state, node_id, CommandView::DeleteSecret { name })->Ok_0;
            let key = key_of(other, version);
            if other == name {
                !after.secrets.contains_key(other) && !after.versions.contains_key(key)
            } else {
                row_of(after.secrets, other) == row_of(state.secrets, other) && row_of(
                    after.versions,
                    key,
                ) == row_of(state.versions, key)
            }
        }),
{
    law_key_belongs(other, version, name);
}

/// Expiry removes exactly the versions that are no longer valid.
pub proof fn law_expiry_keeps_valid_versions(
    state: StoreView,
    node_id: u64,
    now: i64,
    key: Seq<char>,
)
    requires
        state.versions.contains_key(key),
    ensures
        ({
            let after = outcome(
                state,
                node_id,
                CommandView::ExpireGraceVersions { now },
            )->Ok_0;
            if active_at(now as int, state.versions[key].expires_at) {
                row_of(after.versions, key) == Some(state.versions[key])
            } else {
                !after.versions.contains_key(key)
            }
        }),
{
}

/// The key of a new audit entry is above all that are taken.
pub proof fn lemma_audit_keys_below(audit: Map<u64, AuditView>, key: u64)
    requires
        audit.dom().finite(),
        audit.contains_key(key),
    ensures
        key < next_audit_key(audit),
{
    let rows = ordered::<u64, AuditView>(audit);
    lemma_ordered_exists::<u64, AuditView>(audit);
    lemma_ordered_has::<u64, AuditView>(audit, key);
    let i = choose|i: int| 0 <= i < rows.len() && (#[trigger] rows[i]).0 == key;
    if i < rows.len() - 1 {
        assert(<u64 as crate::order::Key>::precedes(rows[i].0, rows[rows.len() - 1].0));
    }
}

/// The audit log only grows: no command changes or removes an entry.
pub proof fn law_audit_is_append_only(
    state: StoreView,
    node_id: u64,
    command: CommandView,
    key: u64,
)
    requires
        state.audit.dom().finite(),
        command_fits(state, command),
        outcome(state, node_id, command) is Ok,
        state.audit.contains_key(key),
    ensures
        row_of(outcome(state, node_id, command)->Ok_0.audit, key) == Some(state.audit[key]),
{
    lemma_audit_keys_below(state.audit, key);
}

/// Whether two states agree on everything that is replicated: all but the audit log and the
/// counts of failed attempts.
pub open spec fn same_replicated(a: StoreView, b: StoreView) -> bool {
    a == (StoreView { audit: a.audit, lockouts: a.lockouts, ..b })
}

/// Replicas agree: a replicated command does the same on two nodes whose replicated state is the
/// same, and leaves what each node keeps for itself alone.
pub proof fn law_replicas_agree(
    a: StoreView,
    b: StoreView,
    node_a: u64,
    node_b: u64,
    command: CommandView,
)
    requires
        same_replicated(a, b),
        !(command is AppendAudit),
        !(command is RecordAuthFailure),
    ensures
        match outcome(a, node_a, command) {
            Err(error) => outcome(b, node_b, command) == Err::<StoreView, StoreErrorView>(error),
            Ok(after_a) => {
                &&& outcome(b, node_b, command) is Ok
                &&& same_replicated(after_a, outcome(b, node_b, command)->Ok_0)
                &&& after_a.audit == a.audit
                &&& after_a.lockouts == a.lockouts
            },
        },
{
}

/// A command that concerns one node alone leaves everything replicated alone.
pub proof fn law_local_commands_stay_local(state: StoreView, node_id: u64, command: CommandView)
    requires
        command is AppendAudit || command is RecordAuthFailure,
    ensures
        outcome(state, node_id, command) is Ok,
        same_replicated(state, outcome(state, node_id, command)->Ok_0),
{
}

/// Whether every secret is stored under its own name.
pub open spec fn keyed_by_name(state: StoreView) -> bool {
    forall|name: Seq<char>| #[trigger]
        state.secrets.contains_key(name) ==> state.secrets[name].name == name
}

/// Secrets are stored under their own names: every command keeps it so.
pub proof fn law_secrets_keyed_by_name(state: StoreView, node_id: u64, command: CommandView)
    requires
        keyed_by_name(state),
        outcome(state, node_id, command) is Ok,
    ensures
        keyed_by_name(outcome(state, node_id, command)->Ok_0),
{
}

} // verus!

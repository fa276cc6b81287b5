//! What each change of the stored state does, and what it leaves alone.

use vstd::prelude::*;
use crate::auth::fingerprint_of;
use crate::guards::valid_token;
use crate::laws::secrets::{due_by, still_valid};
use crate::lockout::{locked_out, LockoutPolicy};
use crate::rewrap::{
    behind_of, lemma_behind_shorter, pending_of, positive_time, status_target, tick_step, total_of,
    TickStep,
};
use crate::service::generation_of;
use crate::startup::bootstrapped;
use crate::store::apply::{carried_out, command_fits, next_audit_key, outcome};
use crate::store::backup::{backup_of, finite_store, restored, BackupView};
use crate::store::engine::{current_of, due_of, law_due_rotations, live_of};
use crate::store::keys::{key_of, law_key_belongs, nul_free};
use crate::store::laws::{keyed_by_name, lemma_audit_keys_below};
use crate::store::local::seeded;
use crate::store::model::{
    AuditView, CommandView, KmsRewrapState, LockoutRecord, MetaChange, NextRotation, SecretView,
    StoreErrorView, StoreResult, TokenView, VersionView,
};
use crate::store::table::{
    ascending, lemma_ordered_exists, lemma_ordered_has, lemma_rows_map_dom, lemma_rows_map_value,
    ordered,
};
use crate::store::tables::{names_row, RowRef, RowRefView, StoreView};

verus! {

/// Storing a version needs the secret to exist with the version number that the writer saw. It then
/// stores the version, makes it current, ends the one that was current where an end is given and
/// none was set, and changes of the secret what the change gives.
pub proof fn law_version_is_put(
    state: StoreView,
    node_id: u64,
    name: Seq<char>,
    expected_current: i32,
    version: VersionView,
    end: Option<i64>,
    meta: MetaChange,
    key: Seq<char>,
)
    ensures
        ({
            let command = CommandView::PutVersion {
                name,
                expected_current,
                version,
                supersede_expires_at: end,
                meta,
            };
            let result = outcome(state, node_id, command);
            let after = result->Ok_0;
            let new_key = key_of(name, version.version as int);
            let old_key = key_of(name, expected_current as int);
            &&& result is Ok <==> state.secrets.contains_key(name)
                && state.secrets[name].current_version == expected_current
            &&& result is Ok ==> {
                &&& secret_changed(state.secrets[name], after.secrets[name], meta)
                &&& after.secrets[name].current_version == version.version
                &&& after.secrets == state.secrets.insert(name, after.secrets[name])
                &&& after == (StoreView {
                    secrets: after.secrets,
                    versions: after.versions,
                    ..state
                })
                &&& after.versions.contains_key(new_key)
                &&& new_key != old_key ==> after.versions[new_key] == version
                &&& key != old_key && key != new_key ==> after.versions.contains_key(key)
                    == state.versions.contains_key(key) && (state.versions.contains_key(key)
                    ==> after.versions[key] == state.versions[key])
                &&& new_key != old_key && !state.versions.contains_key(old_key)
                    ==> !after.versions.contains_key(old_key)
                &&& new_key != old_key && state.versions.contains_key(old_key) ==> {
                    let old = state.versions[old_key];
                    let kept = after.versions[old_key];
                    &&& after.versions.contains_key(old_key)
                    &&& old.expires_at is Some || end is None ==> kept == old
                    &&& old.expires_at is None && end is Some ==> kept == (VersionView {
                        expires_at: end,
                        ..old
                    })
                }
            }
        }),
{
}

/// Whether what a change gives has replaced what was there, and the rest but the version number is
/// as it was.
pub open spec fn secret_changed(before: SecretView, after: SecretView, meta: MetaChange) -> bool {
    &&& after.name == before.name
    &&& after.kind == before.kind
    &&& after.format == before.format
    &&& after.created_at == before.created_at
    &&& after.target == before.target
    &&& after.updated_at == meta.updated_at
    &&& after.description == if meta.description is Some {
        meta.description
    } else {
        before.description
    }
    &&& after.rotation_interval_secs == if meta.rotation_interval_secs is Some {
        meta.rotation_interval_secs
    } else {
        before.rotation_interval_secs
    }
    &&& meta.grace_secs is Some ==> after.grace_secs == meta.grace_secs->0
    &&& meta.grace_secs is None ==> after.grace_secs == before.grace_secs
    &&& meta.next_rotation_at matches NextRotation::SetTo(at) ==> after.next_rotation_at == at
    &&& meta.next_rotation_at is Keep ==> after.next_rotation_at == before.next_rotation_at
}

/// Changing the metadata needs the secret to exist with the version number that the writer saw,
/// and changes of it what the change gives.
pub proof fn law_metadata_is_changed(
    state: StoreView,
    node_id: u64,
    name: Seq<char>,
    expected_current: i32,
    meta: MetaChange,
)
    ensures
        ({
            let result = outcome(
                state,
                node_id,
                CommandView::UpdateMeta { name, expected_current, meta },
            );
            let after = result->Ok_0;
            &&& result is Ok <==> state.secrets.contains_key(name)
                && state.secrets[name].current_version == expected_current
            &&& result is Ok ==> {
                &&& secret_changed(state.secrets[name], after.secrets[name], meta)
                &&& after.secrets[name].current_version == expected_current
                &&& after == (StoreView {
                    secrets: state.secrets.insert(name, after.secrets[name]),
                    ..state
                })
            }
        }),
{
}

/// Deleting a secret is refused only where there is none. It takes the secret and every version of
/// it, and leaves everything else.
pub proof fn law_deletion(
    state: StoreView,
    node_id: u64,
    name: Seq<char>,
    other: Seq<char>,
    version: int,
)
    requires
        nul_free(name),
        nul_free(other),
    ensures
        ({
            let result = outcome(state, node_id, CommandView::DeleteSecret { name });
            let after = result->Ok_0;
            let key = key_of(other, version);
            &&& !state.secrets.contains_key(name) ==> result == Err::<StoreView, StoreErrorView>(
                StoreErrorView::NotFound,
            )
            &&& state.secrets.contains_key(name) ==> {
                &&& result is Ok
                &&& after == (StoreView {
                    secrets: state.secrets.remove(name),
                    versions: after.versions,
                    ..state
                })
                &&& after.versions.contains_key(key) <==> state.versions.contains_key(key) && other
                    != name
                &&& after.versions.contains_key(key) ==> after.versions[key]
                    == state.versions[key]
                &&& current_of(after, name) is None
            }
        }),
{
    law_key_belongs(other, version, name);
}

/// Expiry takes the versions whose time is up, keeps every other version as it is, and touches
/// nothing else. It is never refused.
pub proof fn law_expiry(state: StoreView, node_id: u64, now: i64, key: Seq<char>)
    ensures
        ({
            let result = outcome(state, node_id, CommandView::ExpireGraceVersions { now });
            let after = result->Ok_0;
            &&& result is Ok
            &&& after == (StoreView { versions: after.versions, ..state })
            &&& after.versions.contains_key(key) <==> state.versions.contains_key(key)
                && still_valid(state.versions[key].expires_at, now as int)
            &&& after.versions.contains_key(key) ==> after.versions[key] == state.versions[key]
        }),
{
}

/// Wrapping a data key anew is refused only where there is no such version, and changes the
/// wrapping of that version alone.
pub proof fn law_rewrapping(
    state: StoreView,
    node_id: u64,
    name: Seq<char>,
    version: i32,
    kms_key_id: Seq<char>,
    wrapped_dek: Seq<u8>,
    target: i64,
)
    ensures
        ({
            let key = key_of(name, version as int);
            let result = outcome(
                state,
                node_id,
                CommandView::RewrapVersion {
                    name,
                    version,
                    kms_key_id,
                    wrapped_dek,
                    wrapped_rotation_at: target,
                },
            );
            let row = result->Ok_0.versions[key];
            &&& !state.versions.contains_key(key) ==> result == Err::<StoreView, StoreErrorView>(
                StoreErrorView::NotFound,
            )
            &&& state.versions.contains_key(key) ==> {
                &&& result is Ok
                &&& result->Ok_0 == (StoreView {
                    versions: state.versions.insert(key, row),
                    ..state
                })
                &&& row.kms_key_id == kms_key_id
                &&& row.wrapped_dek == wrapped_dek
                &&& row.wrapped_rotation_at == Some(target)
                &&& row.version == state.versions[key].version
                &&& row.nonce == state.versions[key].nonce
                &&& row.ciphertext == state.versions[key].ciphertext
                &&& row.aad == state.versions[key].aad
                &&& row.created_at == state.versions[key].created_at
                &&& row.expires_at == state.versions[key].expires_at
            }
        }),
{
}

/// What is noted of a sweep is what new versions are marked with and what the next tick goes by.
pub proof fn law_sweep_is_noted(state: StoreView, node_id: u64, rewrap: KmsRewrapState)
    ensures
        ({
            let result = outcome(state, node_id, CommandView::SetKmsRewrapState { state: rewrap });
            let after = result->Ok_0;
            &&& result is Ok
            &&& after == (StoreView { kms_rewrap: after.kms_rewrap, ..state })
            &&& generation_of(after) == rewrap.last_completed_rotation_at
            &&& state.kms_rewrap.dom().len() == 0 && state.kms_rewrap.dom().finite()
                ==> generation_of(state) == 0
        }),
{
    if state.kms_rewrap.dom().len() == 0 && state.kms_rewrap.dom().finite() {
        assert(state.kms_rewrap.dom() =~= Set::empty());
    }
}

/// A failure within the window of the record adds one to its count, a later one starts a new window
/// with a count of one. From the `max`th on it locks the client out for the given time; a lockout
/// that is set stays otherwise. No other record changes.
pub proof fn law_failure_is_counted(
    state: StoreView,
    node_id: u64,
    ip: Seq<char>,
    now: i64,
    max: u32,
    window_secs: i64,
    lockout_secs: i64,
)
    requires
        command_fits(
            state,
            CommandView::RecordAuthFailure { ip, now, max, window_secs, lockout_secs },
        ),
    ensures
        ({
            let result = outcome(
                state,
                node_id,
                CommandView::RecordAuthFailure { ip, now, max, window_secs, lockout_secs },
            );
            let record = result->Ok_0.lockouts[ip];
            let known = state.lockouts.contains_key(ip);
            let before = state.lockouts[ip];
            let same_window = known && now - before.window_start < window_secs;
            &&& result is Ok
            &&& result->Ok_0 == (StoreView {
                lockouts: state.lockouts.insert(ip, record),
                ..state
            })
            &&& same_window ==> record.failures == before.failures + 1 && record.window_start
                == before.window_start
            &&& !same_window ==> record.failures == 1 && record.window_start == now
            &&& record.failures >= max ==> record.locked_until is Some && record.locked_until->0
                == now + lockout_secs
            &&& record.failures < max && known ==> record.locked_until == before.locked_until
            &&& record.failures < max && !known ==> record.locked_until is None
        }),
{
}

/// A client is locked out exactly while a lockout of it lasts, and only where failures are counted.
pub proof fn law_lockout_lasts(
    state: StoreView,
    policy: LockoutPolicy,
    ip: Seq<char>,
    now: i64,
)
    ensures
        locked_out(state, policy, ip, now) <==> policy.max_failures > 0
            && state.lockouts.contains_key(ip) && exists|until: i64| #[trigger]
            until_of(state.lockouts[ip], until) && now < until,
{
    if locked_out(state, policy, ip, now) {
        assert(until_of(state.lockouts[ip], state.lockouts[ip].locked_until->0));
    }
}

/// Whether a record locks its client out until the given time.
pub open spec fn until_of(record: LockoutRecord, until: i64) -> bool {
    record.locked_until == Some(until)
}

/// A new audit entry follows on the last one: the first has the key zero, every other the key after
/// the greatest that is taken.
pub proof fn law_audit_keys_follow(audit: Map<u64, AuditView>, key: u64)
    requires
        audit.dom().finite(),
    ensures
        (forall|k: u64| !#[trigger] audit.contains_key(k)) ==> next_audit_key(audit) == 0,
        audit.contains_key(key) && (forall|k: u64| #[trigger] audit.contains_key(k) ==> k <= key)
            ==> next_audit_key(audit) == key + 1,
{
    let rows = ordered::<u64, AuditView>(audit);
    lemma_ordered_exists::<u64, AuditView>(audit);
    if rows.len() > 0 {
        let last = rows.len() - 1;
        lemma_ordered_has::<u64, AuditView>(audit, rows[last].0);
        assert(audit.contains_key(rows[last].0));
        if audit.contains_key(key) {
            lemma_audit_keys_below(audit, key);
        }
    } else {
        lemma_ordered_has::<u64, AuditView>(audit, key);
    }
}

/// A command that is refused leaves the state as it was; one that is carried out leads to the state
/// it should, and a copy of the old state that takes over the rows named is then the same.
pub proof fn law_copy_catches_up(
    before: StoreView,
    expected: Result<StoreView, StoreErrorView>,
    answer: StoreResult<Vec<RowRef>>,
    after: StoreView,
)
    requires
        carried_out(before, expected, answer, after),
    ensures
        answer is Ok <==> expected is Ok,
        answer is Ok ==> expected->Ok_0 == after,
        answer is Err ==> after == before && expected->Err_0 == answer->Err_0@,
        answer is Ok ==> {
            let rows = answer->Ok_0@;
            let named = |row: RowRefView|
                exists|i: int| 0 <= i < rows.len() && (#[trigger] rows[i])@ == row;
            &&& forall|k: Seq<char>|
                #![trigger before.secrets.contains_key(k)]
                !named(RowRefView::Secret(k)) ==> after.secrets.contains_key(k)
                    == before.secrets.contains_key(k) && (before.secrets.contains_key(k)
                    ==> after.secrets[k] == before.secrets[k])
            &&& forall|k: Seq<char>|
                #![trigger before.versions.contains_key(k)]
                !named(RowRefView::Version(k)) ==> after.versions.contains_key(k)
                    == before.versions.contains_key(k) && (before.versions.contains_key(k)
                    ==> after.versions[k] == before.versions[k])
            &&& forall|k: Seq<char>|
                #![trigger before.roles.contains_key(k)]
                !named(RowRefView::Role(k)) ==> after.roles.contains_key(k)
                    == before.roles.contains_key(k) && (before.roles.contains_key(k)
                    ==> after.roles[k] == before.roles[k])
            &&& forall|k: Seq<u8>|
                #![trigger before.tokens.contains_key(k)]
                !named(RowRefView::Token(k)) ==> after.tokens.contains_key(k)
                    == before.tokens.contains_key(k) && (before.tokens.contains_key(k)
                    ==> after.tokens[k] == before.tokens[k])
            &&& forall|k: Seq<char>|
                #![trigger before.tokens_by_name.contains_key(k)]
                !named(RowRefView::TokenName(k)) ==> after.tokens_by_name.contains_key(k)
                    == before.tokens_by_name.contains_key(k) && (
                before.tokens_by_name.contains_key(k) ==> after.tokens_by_name[k]
                    == before.tokens_by_name[k])
            &&& forall|k: Seq<char>|
                #![trigger before.lockouts.contains_key(k)]
                !named(RowRefView::Lockout(k)) ==> after.lockouts.contains_key(k)
                    == before.lockouts.contains_key(k) && (before.lockouts.contains_key(k)
                    ==> after.lockouts[k] == before.lockouts[k])
            &&& forall|k: u64|
                #![trigger before.audit.contains_key(k)]
                !named(RowRefView::Audit(k)) ==> after.audit.contains_key(k)
                    == before.audit.contains_key(k) && (before.audit.contains_key(k)
                    ==> after.audit[k] == before.audit[k])
            &&& forall|k: Seq<char>|
                #![trigger before.kms_rewrap.contains_key(k)]
                !named(RowRefView::KmsRewrap(k)) ==> after.kms_rewrap.contains_key(k)
                    == before.kms_rewrap.contains_key(k) && (before.kms_rewrap.contains_key(k)
                    ==> after.kms_rewrap[k] == before.kms_rewrap[k])
        },
{
    if answer is Ok {
        let rows = answer->Ok_0@;
        assert forall|k: Seq<char>|
            #![trigger before.secrets.contains_key(k)]
            names_row(rows, RowRefView::Secret(k)) || (
            after.secrets.contains_key(k) == before.secrets.contains_key(k) && (
            before.secrets.contains_key(k) ==> after.secrets[k] == before.secrets[k])) by {}
        assert forall|k: Seq<char>|
            #![trigger before.versions.contains_key(k)]
            names_row(rows, RowRefView::Version(k)) || (
            after.versions.contains_key(k) == before.versions.contains_key(k) && (
            before.versions.contains_key(k) ==> after.versions[k] == before.versions[k])) by {}
        assert forall|k: Seq<char>|
            #![trigger before.roles.contains_key(k)]
            names_row(rows, RowRefView::Role(k)) || (
            after.roles.contains_key(k) == before.roles.contains_key(k) && (
            before.roles.contains_key(k) ==> after.roles[k] == before.roles[k])) by {}
        assert forall|k: Seq<u8>|
            #![trigger before.tokens.contains_key(k)]
            names_row(rows, RowRefView::Token(k)) || (
            after.tokens.contains_key(k) == before.tokens.contains_key(k) && (
            before.tokens.contains_key(k) ==> after.tokens[k] == before.tokens[k])) by {}
        assert forall|k: Seq<char>|
            #![trigger before.tokens_by_name.contains_key(k)]
            names_row(rows, RowRefView::TokenName(k)) || (
            after.tokens_by_name.contains_key(k) == before.tokens_by_name.contains_key(k) && (
            before.tokens_by_name.contains_key(k) ==> after.tokens_by_name[k]
                == before.tokens_by_name[k])) by {}
        assert forall|k: Seq<char>|
            #![trigger before.lockouts.contains_key(k)]
            names_row(rows, RowRefView::Lockout(k)) || (
            after.lockouts.contains_key(k) == before.lockouts.contains_key(k) && (
            before.lockouts.contains_key(k) ==> after.lockouts[k] == before.lockouts[k])) by {}
        assert forall|k: u64|
            #![trigger before.audit.contains_key(k)]
            names_row(rows, RowRefView::Audit(k)) || (
            after.audit.contains_key(k) == before.audit.contains_key(k) && (
            before.audit.contains_key(k) ==> after.audit[k] == before.audit[k])) by {}
        assert forall|k: Seq<char>|
            #![trigger before.kms_rewrap.contains_key(k)]
            names_row(rows, RowRefView::KmsRewrap(k)) || (
            after.kms_rewrap.contains_key(k) == before.kms_rewrap.contains_key(k) && (
            before.kms_rewrap.contains_key(k) ==> after.kms_rewrap[k] == before.kms_rewrap[k])) by {}
    }
}

/// The current version of a secret is the stored one with the secret's version number.
pub proof fn law_current_version(state: StoreView, name: Seq<char>)
    ensures
        ({
            let secret = state.secrets[name];
            let key = key_of(name, secret.current_version as int);
            &&& current_of(state, name) is Some <==> state.secrets.contains_key(name)
                && state.versions.contains_key(key)
            &&& current_of(state, name) matches Some(found) ==> found.0 == secret && found.1
                == state.versions[key]
        }),
{
}

/// A restore takes over every row of a backup and nothing that is not in it, whatever was there
/// before; the counts of failed attempts stay.
pub proof fn law_restore_takes_every_row(state: StoreView, backup: BackupView, i: int)
    requires
        ascending::<String, SecretView>(backup.secrets),
        ascending::<String, VersionView>(backup.versions),
        ascending::<Vec<u8>, TokenView>(backup.tokens),
    ensures
        ({
            let after = restored(state, backup);
            &&& after.lockouts == state.lockouts
            &&& 0 <= i < backup.secrets.len() ==> after.secrets.contains_key(backup.secrets[i].0)
                && after.secrets[backup.secrets[i].0] == backup.secrets[i].1
            &&& 0 <= i < backup.versions.len() ==> after.versions.contains_key(
                backup.versions[i].0,
            ) && after.versions[backup.versions[i].0] == backup.versions[i].1
            &&& 0 <= i < backup.tokens.len() ==> after.tokens.contains_key(backup.tokens[i].0)
                && after.tokens[backup.tokens[i].0] == backup.tokens[i].1
            &&& forall|name: Seq<char>| #[trigger]
                after.secrets.contains_key(name) ==> exists|j: int|
                    0 <= j < backup.secrets.len() && (#[trigger] backup.secrets[j]).0 == name
            &&& forall|name: Seq<char>| #[trigger]
                after.roles.contains_key(name) <==> exists|j: int|
                    0 <= j < backup.roles.len() && (#[trigger] backup.roles[j]).0 == name
        }),
{
    let after = restored(state, backup);
    if 0 <= i < backup.secrets.len() {
        lemma_rows_map_value::<String, SecretView>(backup.secrets, i);
    }
    if 0 <= i < backup.versions.len() {
        lemma_rows_map_value::<String, VersionView>(backup.versions, i);
    }
    if 0 <= i < backup.tokens.len() {
        lemma_rows_map_value::<Vec<u8>, TokenView>(backup.tokens, i);
    }
    assert forall|name: Seq<char>| #[trigger] after.secrets.contains_key(name) implies exists|
        j: int,
    | 0 <= j < backup.secrets.len() && (#[trigger] backup.secrets[j]).0 == name by {
        lemma_rows_map_dom(backup.secrets, name);
    }
    assert forall|name: Seq<char>| #[trigger] after.roles.contains_key(name) <==> exists|j: int|
        0 <= j < backup.roles.len() && (#[trigger] backup.roles[j]).0 == name by {
        lemma_rows_map_dom(backup.roles, name);
    }
}

/// A backup of this version can always be restored: taking one, changing anything, and restoring it
/// gives back what was there when it was taken.
pub proof fn law_backup_undoes_changes(state: StoreView, node_id: u64, command: CommandView)
    requires
        finite_store(state),
        outcome(state, node_id, command) is Ok,
    ensures
        ({
            let back = restored(outcome(state, node_id, command)->Ok_0, backup_of(state));
            &&& back.secrets == state.secrets
            &&& back.versions == state.versions
            &&& back.roles == state.roles
            &&& back.tokens == state.tokens
            &&& back.tokens_by_name == state.tokens_by_name
            &&& back.audit == state.audit
            &&& back.kms_rewrap == state.kms_rewrap
            &&& backup_of(state).version == 1
        }),
{
    crate::store::backup::law_restore_inverts_dump(
        state,
        outcome(state, node_id, command)->Ok_0,
    );
}

/// There is always a role named `admin`, and where the store had none it may do everything. Nothing
/// else is added.
pub proof fn law_admin_role_is_there(state: StoreView)
    ensures
        ({
            let after = seeded(state);
            &&& after.roles.contains_key("admin"@)
            &&& !state.roles.contains_key("admin"@) ==> after.roles["admin"@].is_admin
                && after.roles["admin"@].name == "admin"@ && after.roles["admin"@].permissions.len()
                == 0
            &&& state.roles.contains_key("admin"@) ==> after == state
            &&& after == (StoreView {
                roles: state.roles.insert("admin"@, after.roles["admin"@]),
                ..state
            })
        }),
{
    if state.roles.contains_key("admin"@) {
        assert(state.roles =~= state.roles.insert("admin"@, state.roles["admin"@]));
    }
}

/// The bootstrap token is accepted with the role of an admin, unless its name is taken. Adding it
/// again changes nothing, and a token that was revoked stays revoked.
pub proof fn law_bootstrap_token(
    state: StoreView,
    node_id: u64,
    token: Seq<char>,
    now: i64,
    later: i64,
)
    ensures
        ({
            let after = bootstrapped(state, node_id, token, now);
            let print = fingerprint_of(token);
            &&& state.tokens.contains_key(print) ==> after == state
            &&& !state.tokens.contains_key(print) && state.tokens_by_name.contains_key(
                "bootstrap-admin"@,
            ) ==> after == state
            &&& !state.tokens.contains_key(print) && !state.tokens_by_name.contains_key(
                "bootstrap-admin"@,
            ) ==> {
                let record = after.tokens[print];
                &&& valid_token(after, Some(token)) == Some(record)
                &&& record.role == Some("admin"@)
                &&& record.name == "bootstrap-admin"@
                &&& record.created_at == now
                &&& record.last_used_at is None
                &&& after == (StoreView {
                    tokens: state.tokens.insert(print, record),
                    tokens_by_name: state.tokens_by_name.insert("bootstrap-admin"@, print),
                    ..state
                })
            }
            &&& bootstrapped(after, node_id, token, later) == after
        }),
{
}

/// The versions behind a rotation are those whose data key was wrapped before it, or at an unknown
/// time, each of them and no other, in their order.
pub proof fn law_versions_behind(versions: Seq<VersionView>, target: i64)
    ensures
        behind_of(versions, target) == versions.filter(
            |version: VersionView|
                version.wrapped_rotation_at is None || version.wrapped_rotation_at->0 < target,
        ),
    decreases versions.len(),
{
    let behind = |version: VersionView|
        version.wrapped_rotation_at is None || version.wrapped_rotation_at->0 < target;
    reveal(Seq::filter);
    if versions.len() > 0 {
        law_versions_behind(versions.drop_last(), target);
    } else {
        assert(versions.filter(behind) =~= versions);
    }
}

/// Pending versions are among the valid ones; where every valid version was wrapped since the
/// rotation none is pending, and where none was all are.
pub proof fn law_pending_versions(
    state: StoreView,
    secrets: Seq<SecretView>,
    target: i64,
    now: int,
)
    ensures
        pending_of(state, secrets, target, now) <= total_of(state, secrets, now),
        (forall|i: int, j: int|
            #![trigger live_of(state, secrets[i].name, now)[j]]
            0 <= i < secrets.len() && 0 <= j < live_of(state, secrets[i].name, now).len() ==> {
                let at = live_of(state, secrets[i].name, now)[j].wrapped_rotation_at;
                at is Some && at->0 >= target
            }) ==> pending_of(state, secrets, target, now) == 0,
        (forall|i: int, j: int|
            #![trigger live_of(state, secrets[i].name, now)[j]]
            0 <= i < secrets.len() && 0 <= j < live_of(state, secrets[i].name, now).len() ==> {
                let at = live_of(state, secrets[i].name, now)[j].wrapped_rotation_at;
                at is None || at->0 < target
            }) ==> pending_of(state, secrets, target, now) == total_of(state, secrets, now),
    decreases secrets.len(),
{
    if secrets.len() > 0 {
        let front = secrets.drop_last();
        let last = secrets.len() - 1;
        let live = live_of(state, secrets[last].name, now);
        law_pending_versions(state, front, target, now);
        lemma_behind_shorter(live, target);
        if forall|i: int, j: int|
            #![trigger live_of(state, secrets[i].name, now)[j]]
            0 <= i < secrets.len() && 0 <= j < live_of(state, secrets[i].name, now).len() ==> {
                let at = live_of(state, secrets[i].name, now)[j].wrapped_rotation_at;
                at is Some && at->0 >= target
            } {
            assert forall|i: int, j: int|
                #![trigger live_of(state, front[i].name, now)[j]]
                0 <= i < front.len() && 0 <= j < live_of(
                    state,
                    front[i].name,
                    now,
                ).len() implies ({
                let at = live_of(state, front[i].name, now)[j].wrapped_rotation_at;
                at is Some && at->0 >= target
            }) by {
                assert(front[i] == secrets[i]);
                let at = live_of(state, secrets[i].name, now)[j].wrapped_rotation_at;
            }
            lemma_none_behind(live, target);
        }
        if forall|i: int, j: int|
            #![trigger live_of(state, secrets[i].name, now)[j]]
            0 <= i < secrets.len() && 0 <= j < live_of(state, secrets[i].name, now).len() ==> {
                let at = live_of(state, secrets[i].name, now)[j].wrapped_rotation_at;
                at is None || at->0 < target
            } {
            assert forall|i: int, j: int|
                #![trigger live_of(state, front[i].name, now)[j]]
                0 <= i < front.len() && 0 <= j < live_of(
                    state,
                    front[i].name,
                    now,
                ).len() implies ({
                let at = live_of(state, front[i].name, now)[j].wrapped_rotation_at;
                at is None || at->0 < target
            }) by {
                assert(front[i] == secrets[i]);
                let at = live_of(state, secrets[i].name, now)[j].wrapped_rotation_at;
            }
            lemma_all_behind(live, target);
        }
    }
}

proof fn lemma_none_behind(versions: Seq<VersionView>, target: i64)
    requires
        forall|j: int|
            0 <= j < versions.len() ==> (#[trigger] versions[j]).wrapped_rotation_at is Some
                && versions[j].wrapped_rotation_at->0 >= target,
    ensures
        behind_of(versions, target).len() == 0,
    decreases versions.len(),
{
    if versions.len() > 0 {
        assert(versions[versions.len() - 1] == versions.last());
        lemma_none_behind(versions.drop_last(), target);
    }
}

proof fn lemma_all_behind(versions: Seq<VersionView>, target: i64)
    requires
        forall|j: int|
            0 <= j < versions.len() ==> (#[trigger] versions[j]).wrapped_rotation_at is None
                || versions[j].wrapped_rotation_at->0 < target,
    ensures
        behind_of(versions, target).len() == versions.len(),
    decreases versions.len(),
{
    if versions.len() > 0 {
        assert(versions[versions.len() - 1] == versions.last());
        lemma_all_behind(versions.drop_last(), target);
    }
}

/// The worker's first tick only notes the latest rotation. Later it sweeps exactly when a rotation
/// is newer than the last one swept, and then for that rotation; a tick after a completed sweep is
/// idle.
pub proof fn law_worker_sweeps_new_rotations(rewrap: KmsRewrapState, latest: Option<i64>, now: i64)
    ensures
        tick_step(None, latest) is Seed,
        latest is Some ==> tick_step(None, latest)->baseline == latest->0,
        latest is None ==> tick_step(None, latest)->baseline == 0,
        tick_step(Some(rewrap), latest) is Sweep <==> latest is Some && latest->0
            > rewrap.last_completed_rotation_at,
        tick_step(Some(rewrap), latest) is Sweep ==> tick_step(Some(rewrap), latest)->target
            == latest->0,
        !(tick_step(Some(rewrap), latest) is Seed),
        latest is Some ==> tick_step(
            Some(
                KmsRewrapState {
                    last_completed_rotation_at: latest->0,
                    last_swept_at: now,
                    updated_at: now,
                },
            ),
            latest,
        ) == TickStep::Idle,
{
}

/// Versions are held against the latest rotation known, or else the last one swept, or else none.
pub proof fn law_status_goes_by_the_latest(rewrap: Option<KmsRewrapState>, latest: Option<i64>)
    ensures
        latest is Some ==> status_target(rewrap, latest) == latest->0,
        latest is None && rewrap is Some ==> status_target(rewrap, latest)
            == rewrap->0.last_completed_rotation_at,
        latest is None && rewrap is None ==> status_target(rewrap, latest) == 0,
        status_target(rewrap, latest) <= 0 <==> positive_time(
            status_target(rewrap, latest),
        ) is None,
{
}

/// A secret that is not due now is due later exactly from its rotation time on; one without a
/// rotation time never is.
pub proof fn law_due_from_the_rotation_time_on(
    state: StoreView,
    name: Seq<char>,
    now: int,
)
    requires
        state.secrets.dom().finite(),
        state.secrets.contains_key(name),
        keyed_by_name(state),
    ensures
        due_of(state, now).contains(state.secrets[name]) <==> due_by(
            state.secrets[name],
            now,
        ),
{
    law_due_rotations(state, now, state.secrets[name]);
}

} // verus!

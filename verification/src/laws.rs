//! What holds across operations: a read gives back what was written.

use vstd::prelude::*;
use vstd::utf8::{decode_utf8, valid_utf8};
use crate::api_error::ApiErrorView;
use crate::audit::{after_operation, entry_of, law_operation_is_recorded, Operation};
use crate::auth::fingerprint_of;
use crate::change::{first_match, interval_of, offered_of, update_command};
use crate::dto::{CreateRoleRequest, CreateSecretRequest, UpdateSecretRequest};
use crate::guards::{rights_of, valid_token};
use crate::lockout::{failure_command, LockoutPolicy};
use crate::manage::{created_role, token_record};
use crate::payload::{law_opaque_round_trip, law_pair_round_trip, pair_of, payload_of};
use crate::rotation::active_at;
use crate::service::{created_secret, opened_version};
use crate::store::apply::{next_audit_key, outcome, role_in_use, row_of, window_at};
use crate::store::engine::{current_of, law_live_versions, live_of};
use crate::store::keys::{belongs_to, key_of, law_key_injective, nul_free};
use crate::store::model::{
    AuditView, CommandView, MetaChange, NextRotation, StoreErrorView, VersionView,
};
use crate::store::tables::StoreView;
use crate::types::SecretFormat;

pub mod access;
pub mod replication;
pub mod running;
pub mod secrets;
pub mod state;
pub mod texts;

verus! {

/// A secret that was created is read back: it is there, its current version is the one that was
/// sealed, and where that version opens to what was sealed, what is read is the value, or the user
/// name with the password, that the secret was created with.
pub proof fn law_read_gives_back_created(
    state: StoreView,
    node_id: u64,
    req: CreateSecretRequest,
    token: Seq<char>,
    version: VersionView,
    key: Seq<u8>,
    now: i64,
)
    requires
        !state.secrets.contains_key(req.name@),
        version.version == 1,
        opened_version(req.name@, 1, version, key) == Ok::<Seq<u8>, ApiErrorView>(
            payload_of(req, token).bytes,
        ),
    ensures
        ({
            let payload = payload_of(req, token);
            let secret = created_secret(req, payload.format, now);
            let after = outcome(state, node_id, CommandView::CreateSecret { secret, version });
            &&& after is Ok
            &&& current_of(after->Ok_0, req.name@) == Some((secret, version))
            &&& opened_version(
                req.name@,
                version.version as int,
                (current_of(after->Ok_0, req.name@)->0).1,
                key,
            ) == Ok::<Seq<u8>, ApiErrorView>(payload.bytes)
            &&& match payload.format {
                SecretFormat::Opaque => valid_utf8(payload.bytes) && payload.value == Some(
                    decode_utf8(payload.bytes),
                ),
                SecretFormat::Userpass => payload.username is Some && payload.password is Some
                    && pair_of(payload.bytes) == Some(
                    (payload.username->0, payload.password->0),
                ),
            }
        }),
{
    if payload_of(req, token).format == SecretFormat::Opaque {
        law_opaque_round_trip(payload_of(req, token).value->0);
    } else {
        law_pair_round_trip(
            payload_of(req, token).username->0,
            payload_of(req, token).password->0,
        );
    }
}

/// An update with a new version is read back at once, and the version before it stays valid for
/// the grace period of the secret and no longer.
pub proof fn law_read_gives_back_updated(
    state: StoreView,
    node_id: u64,
    name: Seq<char>,
    req: UpdateSecretRequest,
    version: VersionView,
    now: i64,
    later: i64,
)
    requires
        nul_free(name),
        state.secrets.contains_key(name),
        version.version == state.secrets[name].current_version + 1,
        version.expires_at is None,
        i64::MIN <= now + state.secrets[name].grace_secs <= i64::MAX,
        row_of(state.versions, key_of(name, state.secrets[name].current_version as int)) is Some,
        state.versions[key_of(
            name,
            state.secrets[name].current_version as int,
        )].expires_at is None,
    ensures
        ({
            let secret = state.secrets[name];
            let after = outcome(
                state,
                node_id,
                update_command(name, req, secret, Some(version), now),
            );
            let old_key = key_of(name, secret.current_version as int);
            &&& after is Ok
            &&& current_of(after->Ok_0, name) matches Some((s, v)) && v == version
                && s.current_version == version.version
            &&& row_of(after->Ok_0.versions, old_key) matches Some(old) && (active_at(
                later as int,
                old.expires_at,
            ) <==> later < now + secret.grace_secs)
        }),
{
    let secret = state.secrets[name];
    if key_of(name, version.version as int) == key_of(name, secret.current_version as int) {
        law_key_injective(
            name,
            version.version as int,
            name,
            secret.current_version as int,
        );
    }
}

/// An update of the metadata alone leaves the current version and its value as they are.
pub proof fn law_metadata_update_keeps_value(
    state: StoreView,
    node_id: u64,
    name: Seq<char>,
    req: UpdateSecretRequest,
    now: i64,
)
    requires
        state.secrets.contains_key(name),
    ensures
        ({
            let after = outcome(
                state,
                node_id,
                update_command(name, req, state.secrets[name], None, now),
            );
            &&& after is Ok
            &&& after->Ok_0.versions == state.versions
            &&& after->Ok_0.secrets[name].current_version == state.secrets[name].current_version
        }),
{
}

/// A rotated secret is due again one interval later, and not before.
pub proof fn law_rotation_restarts_interval(
    state: StoreView,
    node_id: u64,
    name: Seq<char>,
    version: VersionView,
    now: i64,
    later: i64,
)
    requires
        state.secrets.contains_key(name),
        i64::MIN <= now + interval_of(state.secrets[name]) <= i64::MAX,
    ensures
        ({
            let secret = state.secrets[name];
            let after = outcome(
                state,
                node_id,
                CommandView::PutVersion {
                    name,
                    expected_current: secret.current_version,
                    version,
                    supersede_expires_at: Some((now + secret.grace_secs) as i64),
                    meta: MetaChange {
                        description: None,
                        rotation_interval_secs: None,
                        grace_secs: None,
                        next_rotation_at: NextRotation::SetTo(
                            Some((now + interval_of(secret)) as i64),
                        ),
                        updated_at: now,
                    },
                },
            );
            &&& after is Ok
            &&& after->Ok_0.secrets[name].next_rotation_at matches Some(next) && (next <= later
                <==> later - now >= interval_of(secret))
        }),
{
}

proof fn lemma_first_match(versions: Seq<VersionView>, hit: spec_fn(VersionView) -> bool)
    ensures
        match first_match(versions, hit) {
            Some(number) => exists|i: int|
                #![trigger versions[i]]
                0 <= i < versions.len() && hit(versions[i]) && versions[i].version == number
                    && forall|j: int| 0 <= j < i ==> !hit(#[trigger] versions[j]),
            None => forall|i: int| 0 <= i < versions.len() ==> !hit(#[trigger] versions[i]),
        },
    decreases versions.len(),
{
    if versions.len() > 0 && !hit(versions[0]) {
        let rest = versions.skip(1);
        lemma_first_match(rest, hit);
        match first_match(versions, hit) {
            Some(number) => {
                let i = choose|i: int|
                    #![trigger rest[i]]
                    0 <= i < rest.len() && hit(rest[i]) && rest[i].version == number && forall|
                        j: int,
                    |
                        0 <= j < i ==> !hit(#[trigger] rest[j]);
                assert(versions[i + 1] == rest[i]);
                assert forall|j: int| 0 <= j < i + 1 implies !hit(#[trigger] versions[j]) by {
                    if j > 0 {
                        assert(versions[j] == rest[j - 1]);
                    }
                }
            },
            None => {
                assert forall|i: int| 0 <= i < versions.len() implies !hit(
                    #[trigger] versions[i],
                ) by {
                    if i > 0 {
                        assert(versions[i] == rest[i - 1]);
                    }
                }
            },
        }
    }
}

/// A presented value is found valid exactly where the secret exists and the value matches a version
/// of it that is valid at the time: the current one, or one within its grace period. Of several,
/// the newest is named.
pub proof fn law_verify_accepts_valid_versions_only(
    state: StoreView,
    name: Seq<char>,
    now: int,
    hit: spec_fn(VersionView) -> bool,
)
    requires
        state.versions.dom().finite(),
    ensures
        match first_match(offered_of(state, name, now), hit) {
            Some(number) => {
                &&& state.secrets.contains_key(name)
                &&& exists|key: Seq<char>| #[trigger]
                    state.versions.contains_key(key) && belongs_to(key, name) && active_at(
                        now,
                        state.versions[key].expires_at,
                    ) && hit(state.versions[key]) && state.versions[key].version == number
                &&& forall|key: Seq<char>| #[trigger]
                    state.versions.contains_key(key) && belongs_to(key, name) && active_at(
                        now,
                        state.versions[key].expires_at,
                    ) && hit(state.versions[key]) ==> state.versions[key].version <= number
            },
            None => state.secrets.contains_key(name) ==> forall|key: Seq<char>| #[trigger]
                state.versions.contains_key(key) && belongs_to(key, name) && active_at(
                    now,
                    state.versions[key].expires_at,
                ) ==> !hit(state.versions[key]),
        },
{
    let live = live_of(state, name, now);
    lemma_first_match(live, hit);
    assert forall|key: Seq<char>| #[trigger]
        state.versions.contains_key(key) && belongs_to(key, name) && active_at(
            now,
            state.versions[key].expires_at,
        ) implies live.contains(state.versions[key]) by {
        law_live_versions(state, name, now, state.versions[key]);
    }
    match first_match(live, hit) {
        Some(number) => {
            let i = choose|i: int|
                #![trigger live[i]]
                0 <= i < live.len() && hit(live[i]) && live[i].version == number && forall|j: int|
                    0 <= j < i ==> !hit(#[trigger] live[j]);
            law_live_versions(state, name, now, live[i]);
            assert(live.contains(live[i]));
            assert forall|key: Seq<char>| #[trigger]
                state.versions.contains_key(key) && belongs_to(key, name) && active_at(
                    now,
                    state.versions[key].expires_at,
                ) && hit(state.versions[key]) implies state.versions[key].version <= number by {
                let m = live.index_of(state.versions[key]);
                assert(live[m] == state.versions[key]);
            }
        },
        None => {
            assert forall|key: Seq<char>| #[trigger]
                state.versions.contains_key(key) && belongs_to(key, name) && active_at(
                    now,
                    state.versions[key].expires_at,
                ) implies !hit(state.versions[key]) by {
                let m = live.index_of(state.versions[key]);
                assert(live[m] == state.versions[key]);
            }
        },
    }
}

/// A token that was just added is accepted, with the rights of its role.
pub proof fn law_new_token_is_accepted(
    state: StoreView,
    node_id: u64,
    name: Seq<char>,
    role: Seq<char>,
    token: Seq<char>,
    now: i64,
)
    requires
        !state.tokens_by_name.contains_key(name),
    ensures
        ({
            let record = token_record(name, role, token, now);
            let after = outcome(state, node_id, CommandView::AddToken { token: record });
            &&& after is Ok
            &&& valid_token(after->Ok_0, Some(token)) == Some(record)
            &&& state.roles.contains_key(role) ==> rights_of(after->Ok_0, record) == (
                state.roles[role].is_admin,
                state.roles[role].permissions,
            )
        }),
{
}

/// A token that was revoked is refused from then on, and cannot be revoked again.
pub proof fn law_revoked_token_is_refused(
    state: StoreView,
    node_id: u64,
    name: Seq<char>,
    token: Seq<char>,
    at: i64,
    again: i64,
)
    requires
        state.tokens_by_name.contains_key(name),
        state.tokens_by_name[name] == fingerprint_of(token),
        valid_token(state, Some(token)) is Some,
    ensures
        ({
            let after = outcome(
                state,
                node_id,
                CommandView::RevokeToken { name, revoked_at: at },
            );
            &&& after is Ok
            &&& valid_token(after->Ok_0, Some(token)) is None
            &&& outcome(
                after->Ok_0,
                node_id,
                CommandView::RevokeToken { name, revoked_at: again },
            ) == Err::<StoreView, StoreErrorView>(StoreErrorView::NotFound)
        }),
{
}

/// A role with tokens cannot be deleted, so that no token is left with a role that is gone.
pub proof fn law_role_with_tokens_stays(
    state: StoreView,
    node_id: u64,
    name: Seq<char>,
    token: Seq<u8>,
)
    requires
        state.tokens.contains_key(token),
        state.tokens[token].role == Some(name),
    ensures
        outcome(state, node_id, CommandView::DeleteRole { name }) is Err,
{
    assert(role_in_use(state.tokens, name));
}

/// A value presented for a secret that does not exist is not valid, and one failure is counted
/// against the client.
pub proof fn law_verify_of_unknown_secret_fails(
    state: StoreView,
    node_id: u64,
    name: Seq<char>,
    hit: spec_fn(VersionView) -> bool,
    policy: LockoutPolicy,
    ip: Seq<char>,
    now: i64,
)
    requires
        !state.secrets.contains_key(name),
        policy.max_failures > 0,
        window_at(row_of(state.lockouts, ip), now, policy.window_secs).failures < u32::MAX,
    ensures
        first_match(offered_of(state, name, now as int), hit) is None,
        failure_command(policy, Some(ip), now) is Some,
        ({
            let after = outcome(state, node_id, failure_command(policy, Some(ip), now)->0);
            &&& after is Ok
            &&& after->Ok_0.lockouts[ip].failures == window_at(
                row_of(state.lockouts, ip),
                now,
                policy.window_secs,
            ).failures + 1
            &&& after->Ok_0 == (StoreView {
                lockouts: state.lockouts.insert(ip, after->Ok_0.lockouts[ip]),
                ..state
            })
        }),
{
}

/// A role that was created is stored as it was asked for, and its creation stands in the audit log
/// as one new entry, with who asked for it from where.
pub proof fn law_created_role_is_stored_and_recorded(
    state: StoreView,
    node_id: u64,
    req: CreateRoleRequest,
    actor: Option<Seq<char>>,
    client_ip: Option<Seq<char>>,
    now: i64,
)
    requires
        state.audit.dom().finite(),
        next_audit_key(state.audit) <= u64::MAX,
        !state.roles.contains_key(req.name@),
    ensures
        ({
            let role = created_role(req, now);
            let entry = entry_of(
                Operation::CreateRole { name: req.name },
                actor,
                client_ip,
                now,
            );
            let key = next_audit_key(state.audit) as u64;
            let after = after_operation(state, node_id, CommandView::CreateRole { role }, entry);
            &&& outcome(state, node_id, CommandView::CreateRole { role }) is Ok
            &&& row_of(after.roles, req.name@) == Some(role)
            &&& !state.audit.contains_key(key)
            &&& after.audit == state.audit.insert(key, AuditView { node_id, ..entry })
            &&& entry.action == "create_role"@
            &&& entry.secret_name == Some(req.name@)
            &&& entry.outcome == "ok"@
        }),
{
    law_operation_is_recorded(
        state,
        node_id,
        CommandView::CreateRole { role: created_role(req, now) },
        Operation::CreateRole { name: req.name },
        actor,
        client_ip,
        now,
    );
}

} // verus!

//! What the operations on secrets are for: what is stored is what was asked for, and nothing else
//! changes.

use vstd::prelude::*;
use vstd::utf8::{decode_utf8, encode_utf8, valid_utf8};
use crate::api_error::ApiErrorView;
use crate::auth::token_text;
use crate::change::{
    rotate_command, rotate_plan, update_command, update_fits, update_plan, UpdatePlanView,
};
use crate::clock::rfc3339_of;
use crate::crypto::{opened, DataKey};
use crate::dto::{CreateSecretRequest, SecretMetadata, SecretValue, UpdateSecretRequest, UserPass};
use crate::order::lemma_encoding_injective;
use crate::payload::{
    created_payload, law_opaque_round_trip, law_pair_round_trip, merge_refusal, merged,
    opaque_payload, pair_of, payload_of, payload_refusal, presented_matches, rotated_payload,
    userpass_json, userpass_payload, Fields, PayloadView,
};
use crate::service::{
    create_refusal, created_secret, opened_version, seals, tells, tells_metadata, tells_value,
};
use crate::store::apply::outcome;
use crate::store::keys::{key_of, law_key_injective, nul_free};
use crate::store::model::{CommandView, SecretRecord, SecretView, VersionRecord, VersionView};
use crate::store::tables::StoreView;
use crate::types::{aad_of, SecretFormat, SecretKind};

verus! {

/// Whether a version with the given expiry is still valid at a time.
pub open spec fn still_valid(expires_at: Option<i64>, at: int) -> bool {
    expires_at is None || at < expires_at->0
}

/// Whether a secret is due for rotation at a time.
pub open spec fn due_by(secret: SecretView, at: int) -> bool {
    secret.next_rotation_at is Some && secret.next_rotation_at->0 <= at
}

/// What a request gives is what a new secret holds: a given password is the password of its pair, a
/// given value is its value, whatever the kind of the secret. A token stands in only for what was
/// not given. The same is told to the client and sealed.
pub proof fn law_new_secret_holds_what_was_given(req: CreateSecretRequest, payload: PayloadView)
    requires
        payload_refusal(req) is None,
        created_payload(req, payload),
    ensures
        payload.format == SecretFormat::Userpass <==> req.username is Some,
        req.username is Some ==> {
            &&& payload.value is None
            &&& payload.username == Some(req.username->0@)
            &&& payload.password is Some
            &&& pair_of(payload.bytes) == Some((req.username->0@, payload.password->0))
        },
        req.password is Some ==> req.username is Some && payload.password == Some(
            req.password->0@,
        ),
        req.username is Some && req.password is None ==> token_text(payload.password->0),
        req.username is None ==> {
            &&& payload.username is None
            &&& payload.password is None
            &&& payload.value is Some
            &&& valid_utf8(payload.bytes)
            &&& decode_utf8(payload.bytes) == payload.value->0
        },
        req.value is Some ==> req.username is None && payload.value == Some(req.value->0@),
        req.username is None && req.value is None ==> token_text(payload.value->0),
{
    if req.username is Some {
        if req.password is Some {
            let any = ""@;
            assert(payload == payload_of(req, any));
            law_pair_round_trip(req.username->0@, req.password->0@);
        } else {
            let token = choose|token: Seq<char>|
                token_text(token) && payload == #[trigger] payload_of(req, token);
            law_pair_round_trip(req.username->0@, token);
        }
    } else if req.value is Some {
        let any = ""@;
        assert(payload == payload_of(req, any));
        law_opaque_round_trip(req.value->0@);
    } else {
        let token = choose|token: Seq<char>|
            token_text(token) && payload == #[trigger] payload_of(req, token);
        law_opaque_round_trip(token);
    }
}

/// Only a manual secret has to bring its value or password, a pair needs its user name, a value and
/// a pair exclude each other, and neither may be too long or, in a pair, empty. Nothing else is
/// asked of what a new secret is to hold.
pub proof fn law_which_payloads_are_accepted(req: CreateSecretRequest)
    ensures
        payload_refusal(req) is None <==> {
            let fits = |text: Seq<char>| encode_utf8(text).len() <= 65536;
            &&& req.value is Some ==> req.username is None && req.password is None && fits(
                req.value->0@,
            )
            &&& req.username is Some ==> req.username->0@.len() > 0 && fits(req.username->0@)
            &&& req.password is Some ==> req.username is Some && req.password->0@.len() > 0
                && fits(req.password->0@)
            &&& req.kind == SecretKind::Manual ==> req.value is Some || req.password is Some
        },
        payload_refusal(req) matches Some(error) ==> error is BadRequest,
{
}

/// A request to create a secret is accepted exactly where its name is one to 255 bytes of the
/// allowed characters, its grace period is not negative, an automatic secret has a positive
/// interval, and its payload is accepted.
pub proof fn law_which_secrets_are_accepted(req: CreateSecretRequest)
    ensures
        create_refusal(req) is None <==> {
            &&& 1 <= req.name@.len()
            &&& encode_utf8(req.name@).len() <= 255
            &&& forall|i: int|
                #![trigger req.name@[i]]
                0 <= i < req.name@.len() ==> {
                    let c = req.name@[i];
                    'A' <= c <= 'Z' || 'a' <= c <= 'z' || '0' <= c <= '9' || c == '-' || c == '_'
                        || c == '/' || c == '.'
                }
            &&& req.grace_period_secs is Some ==> req.grace_period_secs->0 >= 0
            &&& req.kind == SecretKind::Automatic ==> req.rotation_interval_secs is Some
                && req.rotation_interval_secs->0 > 0
            &&& payload_refusal(req) is None
        },
        create_refusal(req) matches Some(error) ==> error is BadRequest,
{
}

/// A secret that was created is stored as it was asked for, with its first version, and nothing
/// else changes. It keeps superseded versions for the grace period given, or not at all. An
/// automatic secret is due one interval later and not before, a manual one never.
pub proof fn law_created_secret_is_as_asked(
    state: StoreView,
    node_id: u64,
    req: CreateSecretRequest,
    format: SecretFormat,
    version: VersionView,
    now: i64,
    later: int,
)
    requires
        !state.secrets.contains_key(req.name@),
        version.version == 1,
        req.kind == SecretKind::Automatic && req.rotation_interval_secs is Some ==> i64::MIN <= now
            + req.rotation_interval_secs->0 <= i64::MAX,
    ensures
        ({
            let command = CommandView::CreateSecret {
                secret: created_secret(req, format, now),
                version,
            };
            let result = outcome(state, node_id, command);
            let after = result->Ok_0;
            let secret = after.secrets[req.name@];
            &&& result is Ok
            &&& after == (StoreView {
                secrets: state.secrets.insert(req.name@, secret),
                versions: state.versions.insert(key_of(req.name@, 1), version),
                ..state
            })
            &&& secret.name == req.name@
            &&& secret.kind == req.kind
            &&& secret.format == format
            &&& secret.description is Some <==> req.description is Some
            &&& req.description is Some ==> secret.description->0 == req.description->0@
            &&& secret.rotation_interval_secs == req.rotation_interval_secs
            &&& req.grace_period_secs is Some ==> secret.grace_secs == req.grace_period_secs->0
            &&& req.grace_period_secs is None ==> secret.grace_secs == 0
            &&& secret.current_version == 1
            &&& secret.created_at == now
            &&& secret.updated_at == now
            &&& secret.target is None
            &&& req.kind == SecretKind::Manual || req.rotation_interval_secs is None ==> !due_by(
                secret,
                later,
            )
            &&& req.kind == SecretKind::Automatic && req.rotation_interval_secs is Some ==> (due_by(
                secret,
                later,
            ) <==> later - now >= req.rotation_interval_secs->0)
        }),
{
}

/// The client is told what was stored of its new secret.
pub proof fn law_created_secret_is_told(
    answer: SecretValue,
    req: CreateSecretRequest,
    payload: PayloadView,
    now: i64,
)
    requires
        payload_refusal(req) is None,
        created_payload(req, payload),
        tells(answer, req.name@, req.kind, 1, payload, now),
    ensures
        answer.name@ == req.name@,
        answer.kind == req.kind,
        answer.format == payload.format,
        answer.version == 1,
        answer.created_at@ == rfc3339_of(now),
        req.value is Some ==> answer.value is Some && answer.value->0@ == req.value->0@,
        req.username is Some ==> answer.username is Some && answer.username->0@
            == req.username->0@,
        req.password is Some ==> answer.password is Some && answer.password->0@
            == req.password->0@,
        answer.value is Some <==> req.username is None,
        answer.username is Some <==> req.username is Some,
        answer.password is Some <==> req.username is Some,
        answer.format == SecretFormat::Userpass ==> pair_of(payload.bytes) == Some(
            (answer.username->0@, answer.password->0@),
        ),
        answer.format == SecretFormat::Opaque ==> decode_utf8(payload.bytes)
            == answer.value->0@,
{
    law_new_secret_holds_what_was_given(req, payload);
}

/// The client is told of a rotated secret the number of its new version and the token that it now
/// holds, with the user name that it keeps.
pub proof fn law_rotated_secret_is_told(
    answer: SecretValue,
    name: Seq<char>,
    kind: SecretKind,
    version: i32,
    format: SecretFormat,
    username: Seq<char>,
    token: Seq<char>,
    now: i64,
)
    requires
        tells(answer, name, kind, version, rotated_payload(format, username, token), now),
    ensures
        answer.name@ == name,
        answer.kind == kind,
        answer.format == format,
        answer.version == version,
        answer.created_at@ == rfc3339_of(now),
        format == SecretFormat::Opaque ==> answer.value is Some && answer.value->0@ == token
            && answer.username is None && answer.password is None,
        format == SecretFormat::Userpass ==> answer.value is None && answer.username is Some
            && answer.username->0@ == username && answer.password is Some && answer.password->0@
            == token,
{
}

/// What a read tells of a version is the version's own number, kind and format, and the value, user
/// name and password that it was opened to, each in its own place.
pub proof fn law_read_tells_the_version(
    answer: SecretValue,
    name: Seq<char>,
    secret: SecretRecord,
    version: VersionRecord,
    fields: Fields,
)
    requires
        tells_value(answer, name, secret, version, fields),
    ensures
        answer.name@ == name,
        answer.kind == secret.kind,
        answer.format == secret.format,
        answer.version == version.version,
        answer.created_at@ == rfc3339_of(version.created_at),
        answer.value is Some <==> fields.0 is Some,
        fields.0 is Some ==> answer.value->0@ == fields.0->0@,
        answer.username is Some <==> fields.1 is Some,
        fields.1 is Some ==> answer.username->0@ == fields.1->0@,
        answer.password is Some <==> fields.2 is Some,
        fields.2 is Some ==> answer.password->0@ == fields.2->0@,
{
}

/// Two secrets that differ in anything that is listed of them but their times are listed
/// differently.
pub proof fn law_metadata_tells_secrets_apart(
    answer: SecretMetadata,
    a: SecretView,
    b: SecretView,
)
    requires
        tells_metadata(answer, a),
        tells_metadata(answer, b),
    ensures
        a.name == b.name,
        a.kind == b.kind,
        a.format == b.format,
        a.description == b.description,
        a.current_version == b.current_version,
        a.rotation_interval_secs == b.rotation_interval_secs,
        a.grace_secs == b.grace_secs,
        a.next_rotation_at is Some <==> b.next_rotation_at is Some,
        answer.next_rotation_at is Some <==> a.next_rotation_at is Some,
        a.next_rotation_at is Some ==> answer.next_rotation_at->0@ == rfc3339_of(
            a.next_rotation_at->0,
        ),
        answer.created_at@ == rfc3339_of(a.created_at),
        answer.updated_at@ == rfc3339_of(a.updated_at),
        answer.name@ == a.name,
        answer.kind == a.kind,
        answer.format == a.format,
        answer.description is Some <==> a.description is Some,
        a.description is Some ==> answer.description->0@ == a.description->0,
        answer.version == a.current_version,
        answer.grace_period_secs == a.grace_secs,
        answer.rotation_interval_secs == a.rotation_interval_secs,
{
}

/// What changes in the versions when a new one takes over: the new one is stored as it is, the one
/// that was current stays valid until the given time and no longer, unless its end was set
/// before, and every other version is untouched.
pub open spec fn takes_over(
    before: StoreView,
    after: StoreView,
    name: Seq<char>,
    version: VersionView,
    until: int,
) -> bool {
    let old_key = key_of(name, before.secrets[name].current_version as int);
    let new_key = key_of(name, version.version as int);
    &&& after.versions.contains_key(new_key)
    &&& after.versions[new_key] == version
    &&& before.versions.contains_key(old_key) ==> {
        let old = before.versions[old_key];
        let kept = after.versions[old_key];
        &&& after.versions.contains_key(old_key)
        &&& kept == (VersionView { expires_at: kept.expires_at, ..old })
        &&& old.expires_at is Some ==> kept == old
        &&& old.expires_at is None ==> forall|at: int| #[trigger]
            still_valid(kept.expires_at, at) <==> at < until
    }
    &&& forall|key: Seq<char>|
        key != old_key && key != new_key ==> (after.versions.contains_key(key)
            == #[trigger] before.versions.contains_key(key)) && (before.versions.contains_key(key)
            ==> after.versions[key] == before.versions[key])
}

/// Rotating a secret makes the new version the current one. The version that was current stays
/// valid exactly as long as the grace period of the secret, counted from the rotation, whatever
/// time the rotation had been scheduled for. The secret is due again one interval after the
/// rotation, and nothing else about it changes, nor any other secret.
pub proof fn law_rotation_supersedes_for_the_grace_period(
    state: StoreView,
    node_id: u64,
    name: Seq<char>,
    version: VersionView,
    now: i64,
    later: int,
)
    requires
        nul_free(name),
        state.secrets.contains_key(name),
        version.version == state.secrets[name].current_version + 1,
        i64::MIN <= now + state.secrets[name].grace_secs <= i64::MAX,
        state.secrets[name].rotation_interval_secs matches Some(secs) ==> i64::MIN <= now + secs
            <= i64::MAX,
    ensures
        ({
            let before = state.secrets[name];
            let result = outcome(state, node_id, rotate_command(name, before, version, now));
            let after = result->Ok_0;
            let secret = after.secrets[name];
            &&& result is Ok
            &&& takes_over(state, after, name, version, now + before.grace_secs)
            &&& secret == (SecretView {
                current_version: version.version,
                next_rotation_at: secret.next_rotation_at,
                updated_at: now,
                ..before
            })
            &&& before.rotation_interval_secs is Some ==> (due_by(secret, later) <==> later - now
                >= before.rotation_interval_secs->0)
            &&& before.rotation_interval_secs is None ==> (due_by(secret, later) <==> later >= now)
            &&& after == (StoreView {
                secrets: state.secrets.insert(name, secret),
                versions: after.versions,
                ..state
            })
        }),
{
    let before = state.secrets[name];
    if key_of(name, version.version as int) == key_of(name, before.current_version as int) {
        law_key_injective(name, version.version as int, name, before.current_version as int);
    }
}

/// A secret can be rotated exactly where it exists and is automatic, and where a pair's current
/// version is there to take the user name from.
pub proof fn law_which_secrets_can_be_rotated(state: StoreView, name: Seq<char>)
    ensures
        rotate_plan(state, name) is Ok <==> {
            let secret = state.secrets[name];
            &&& state.secrets.contains_key(name)
            &&& secret.kind == SecretKind::Automatic
            &&& secret.format == SecretFormat::Userpass ==> state.versions.contains_key(
                key_of(name, secret.current_version as int),
            )
        },
        rotate_plan(state, name) matches Ok(plan) ==> {
            let secret = state.secrets[name];
            &&& plan.0 == secret
            &&& plan.1 is Some <==> secret.format == SecretFormat::Userpass
            &&& plan.1 is Some ==> plan.1->0 == state.versions[key_of(
                name,
                secret.current_version as int,
            )]
        },
        !state.secrets.contains_key(name) ==> rotate_plan(state, name) == Err::<
            (SecretView, Option<VersionView>),
            ApiErrorView,
        >(ApiErrorView::NotFound),
        state.secrets.contains_key(name) && state.secrets[name].kind == SecretKind::Manual
            ==> rotate_plan(state, name)->Err_0 is BadRequest,
{
}

/// A rotated secret holds a new token: as its value, or as its password, with the user name kept.
pub proof fn law_rotated_payload_holds_the_token(
    format: SecretFormat,
    username: Seq<char>,
    token: Seq<char>,
)
    ensures
        ({
            let payload = rotated_payload(format, username, token);
            &&& payload.format == format
            &&& format == SecretFormat::Opaque ==> valid_utf8(payload.bytes) && decode_utf8(
                payload.bytes,
            ) == token && payload.value == Some(token) && payload.username is None
                && payload.password is None
            &&& format == SecretFormat::Userpass ==> pair_of(payload.bytes) == Some(
                (username, token),
            ) && payload.value is None && payload.username == Some(username) && payload.password
                == Some(token)
        }),
{
    law_opaque_round_trip(token);
    law_pair_round_trip(username, token);
}

/// Updating a secret to a new version makes that version the current one. The version that was
/// current stays valid exactly as long as the grace period that the secret had. What the update
/// gives of the description, the interval and the grace period replaces what was there, what it
/// does not give stays. An automatic secret is due one interval after the update, a manual one is
/// due as before.
pub proof fn law_update_with_a_value(
    state: StoreView,
    node_id: u64,
    name: Seq<char>,
    req: UpdateSecretRequest,
    version: VersionView,
    now: i64,
    later: int,
)
    requires
        nul_free(name),
        state.secrets.contains_key(name),
        version.version == state.secrets[name].current_version + 1,
        update_fits(req, state.secrets[name], true, now),
    ensures
        ({
            let before = state.secrets[name];
            let command = update_command(name, req, before, Some(version), now);
            let result = outcome(state, node_id, command);
            let after = result->Ok_0;
            let secret = after.secrets[name];
            &&& result is Ok
            &&& takes_over(state, after, name, version, now + before.grace_secs)
            &&& secret.current_version == version.version
            &&& metadata_replaced(before, secret, req, now)
            &&& before.kind == SecretKind::Automatic && secret.rotation_interval_secs is Some
                ==> (due_by(secret, later) <==> later - now >= secret.rotation_interval_secs->0)
            &&& before.kind == SecretKind::Automatic && secret.rotation_interval_secs is None
                ==> (due_by(secret, later) <==> later >= now)
            &&& before.kind == SecretKind::Manual ==> secret.next_rotation_at
                == before.next_rotation_at
            &&& after == (StoreView {
                secrets: state.secrets.insert(name, secret),
                versions: after.versions,
                ..state
            })
        }),
{
    let before = state.secrets[name];
    if key_of(name, version.version as int) == key_of(name, before.current_version as int) {
        law_key_injective(name, version.version as int, name, before.current_version as int);
    }
}

/// Whether what an update gives has replaced what was there, and the rest is as it was.
pub open spec fn metadata_replaced(
    before: SecretView,
    after: SecretView,
    req: UpdateSecretRequest,
    now: i64,
) -> bool {
    &&& after.name == before.name
    &&& after.kind == before.kind
    &&& after.format == before.format
    &&& after.created_at == before.created_at
    &&& after.target == before.target
    &&& after.updated_at == now
    &&& req.description is Some ==> after.description == Some(req.description->0@)
    &&& req.description is None ==> after.description == before.description
    &&& req.rotation_interval_secs is Some ==> after.rotation_interval_secs
        == req.rotation_interval_secs
    &&& req.rotation_interval_secs is None ==> after.rotation_interval_secs
        == before.rotation_interval_secs
    &&& req.grace_period_secs is Some ==> after.grace_secs == req.grace_period_secs->0
    &&& req.grace_period_secs is None ==> after.grace_secs == before.grace_secs
}

/// Updating the metadata alone replaces what the update gives and touches no version. A new
/// interval starts the time to the next rotation of an automatic secret anew; otherwise that time
/// stays.
pub proof fn law_update_of_metadata(
    state: StoreView,
    node_id: u64,
    name: Seq<char>,
    req: UpdateSecretRequest,
    now: i64,
    later: int,
)
    requires
        state.secrets.contains_key(name),
        update_fits(req, state.secrets[name], false, now),
    ensures
        ({
            let before = state.secrets[name];
            let result = outcome(state, node_id, update_command(name, req, before, None, now));
            let after = result->Ok_0;
            let secret = after.secrets[name];
            &&& result is Ok
            &&& secret.current_version == before.current_version
            &&& metadata_replaced(before, secret, req, now)
            &&& if before.kind == SecretKind::Automatic && req.rotation_interval_secs is Some {
                due_by(secret, later) <==> later - now >= req.rotation_interval_secs->0
            } else {
                secret.next_rotation_at == before.next_rotation_at
            }
            &&& after == (StoreView { secrets: state.secrets.insert(name, secret), ..state })
        }),
{
}

/// Which updates are accepted, and what they take: of a bare value its new bytes, of a pair its
/// current version, and of the metadata alone nothing.
pub proof fn law_which_updates_are_accepted(
    state: StoreView,
    name: Seq<char>,
    req: UpdateSecretRequest,
)
    ensures
        ({
            let plan = update_plan(state, name, req);
            let secret = state.secrets[name];
            let key = key_of(name, secret.current_version as int);
            let pair_given = req.username is Some || req.password is Some;
            let sound = (req.rotation_interval_secs is Some ==> req.rotation_interval_secs->0 > 0)
                && (req.grace_period_secs is Some ==> req.grace_period_secs->0 >= 0);
            &&& plan is Ok <==> {
                &&& sound
                &&& state.secrets.contains_key(name)
                &&& secret.format == SecretFormat::Opaque ==> !pair_given && (req.value is Some
                    ==> encode_utf8(req.value->0@).len() <= 65536)
                &&& secret.format == SecretFormat::Userpass ==> req.value is None && (pair_given
                    ==> state.versions.contains_key(key))
            }
            &&& sound && !state.secrets.contains_key(name) ==> plan == Err::<
                UpdatePlanView,
                ApiErrorView,
            >(ApiErrorView::NotFound)
            &&& !sound ==> plan->Err_0 is BadRequest
            &&& sound && state.secrets.contains_key(name) && plan is Err ==> (
            plan->Err_0 is Internal <==> secret.format == SecretFormat::Userpass
                && req.value is None) && (plan->Err_0 is Internal || plan->Err_0 is BadRequest)
            &&& plan matches Ok(UpdatePlanView::Meta { secret: s }) ==> s == secret && !pair_given
                && req.value is None
            &&& plan matches Ok(UpdatePlanView::Value { secret: s, bytes }) ==> s == secret
                && req.value is Some && valid_utf8(bytes) && decode_utf8(bytes) == req.value->0@
            &&& plan matches Ok(UpdatePlanView::Userpass { secret: s, current }) ==> s == secret
                && pair_given && current == state.versions[key]
        }),
{
    if req.value is Some {
        law_opaque_round_trip(req.value->0@);
    }
}

/// After an update of a pair the sealed bytes hold the user name that the update gives, whether or
/// not it gives a password too, and the password that it gives; what it does not give is what the
/// current version holds.
pub proof fn law_updated_pair_holds_what_was_given(req: UpdateSecretRequest, current: UserPass)
    ensures
        ({
            let pair = pair_of(userpass_json(merged(req, current).0, merged(req, current).1));
            &&& pair is Some
            &&& req.username is Some ==> (pair->0).0 == req.username->0@
            &&& req.username is None ==> (pair->0).0 == current.username@
            &&& req.password is Some ==> (pair->0).1 == req.password->0@
            &&& req.password is None ==> (pair->0).1 == current.password@
            &&& merge_refusal(req, current) is None <==> 0 < (pair->0).0.len() && encode_utf8(
                (pair->0).0,
            ).len() <= 65536 && 0 < (pair->0).1.len() && encode_utf8((pair->0).1).len() <= 65536
        }),
{
    law_pair_round_trip(merged(req, current).0, merged(req, current).1);
}

/// A presented value matches a bare value exactly if it is that value, and a pair exactly if it is
/// the pair's password, character for character: no more, no less, and not the user name.
pub proof fn law_only_the_sealed_value_matches(
    presented: Seq<char>,
    value: Seq<char>,
    username: Seq<char>,
    password: Seq<char>,
    parsed: Option<Seq<char>>,
)
    ensures
        presented_matches(SecretFormat::Opaque, presented, opaque_payload(value).bytes, parsed)
            <==> presented == value,
        ({
            let bytes = userpass_payload(username, password).bytes;
            presented_matches(
                SecretFormat::Userpass,
                presented,
                bytes,
                Some((pair_of(bytes)->0).1),
            ) <==> presented == password
        }),
{
    law_pair_round_trip(username, password);
    if presented_matches(SecretFormat::Opaque, presented, opaque_payload(value).bytes, parsed) {
        lemma_encoding_injective(presented, value);
    }
}

/// Two different presented values never both match one opened version, and a pair that cannot be
/// read matches nothing.
pub proof fn law_one_value_matches(
    format: SecretFormat,
    a: Seq<char>,
    b: Seq<char>,
    plaintext: Seq<u8>,
    password: Option<Seq<char>>,
)
    ensures
        presented_matches(format, a, plaintext, password) && presented_matches(
            format,
            b,
            plaintext,
            password,
        ) ==> a == b,
        !presented_matches(SecretFormat::Userpass, a, plaintext, None),
        password is Some ==> (presented_matches(SecretFormat::Userpass, a, plaintext, password)
            <==> a.len() == password->0.len() && forall|i: int|
            0 <= i < a.len() ==> #[trigger] a[i] == password->0[i]),
{
    if encode_utf8(a) == plaintext && encode_utf8(b) == plaintext {
        lemma_encoding_injective(a, b);
    }
    if password is Some {
        if a.len() == password->0.len() && forall|i: int|
            0 <= i < a.len() ==> #[trigger] a[i] == password->0[i] {
            assert(a =~= password->0);
        }
    }
}

/// A sealed version carries the number it was sealed as, the data key it was sealed under in its
/// wrapped form, the time, and no end to its validity; it opens, as that version of that secret and
/// under that data key, to what was sealed.
pub proof fn law_sealed_version_is_whole(
    record: VersionView,
    name: Seq<char>,
    version: i32,
    data_key: DataKey,
    plaintext: Seq<u8>,
    now: i64,
    generation: i64,
)
    requires
        seals(record, name, version as int, data_key, plaintext, now, generation),
    ensures
        record.version == version,
        record.wrapped_dek == data_key.wrapped@,
        record.kms_key_id == data_key.key_id@,
        record.created_at == now,
        record.expires_at is None,
        record.wrapped_rotation_at == Some(generation),
        record.nonce.len() == 24,
        opened_version(name, version as int, record, data_key.plaintext@) == Ok::<
            Seq<u8>,
            ApiErrorView,
        >(plaintext),
{
}

/// A stored version opens, as a version of a secret, exactly where it was sealed as that version of
/// that secret, its nonce has the right length, and the data key opens it; it then opens to what
/// the data key gives.
pub proof fn law_which_versions_open(
    name: Seq<char>,
    version: i32,
    record: VersionView,
    key: Seq<u8>,
)
    ensures
        ({
            let inside = opened(key, record.nonce, record.aad, record.ciphertext);
            let result = opened_version(name, version as int, record, key);
            &&& result is Ok <==> record.aad == aad_of(name, version as int) && record.nonce.len()
                == 24 && inside is Some
            &&& result is Ok ==> result->Ok_0 == inside->0
            &&& result is Err ==> result->Err_0 is Internal
        }),
{
}

/// An update stays in range exactly where the times that it sets do: the end of the version that it
/// supersedes, and the next rotation of an automatic secret whose timer it restarts.
pub proof fn law_which_updates_fit(
    req: UpdateSecretRequest,
    secret: SecretView,
    sealed: bool,
    now: i64,
)
    ensures
        update_fits(req, secret, sealed, now) <==> {
            let in_range = |t: int| i64::MIN <= t <= i64::MAX;
            let restarts = secret.kind == SecretKind::Automatic && (sealed
                || req.rotation_interval_secs is Some);
            &&& sealed ==> in_range(now + secret.grace_secs)
            &&& restarts && req.rotation_interval_secs is Some ==> in_range(
                now + req.rotation_interval_secs->0,
            )
            &&& restarts && req.rotation_interval_secs is None
                && secret.rotation_interval_secs is Some ==> in_range(
                now + secret.rotation_interval_secs->0,
            )
        },
{
}

} // verus!

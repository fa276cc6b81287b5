//! Changing and rotating secrets, and holding a presented value against their valid versions.

use vstd::prelude::*;
use crate::api_error::{bad_request, internal, ApiError, ApiErrorView, ApiResult};
use crate::clock::rfc3339;
use crate::crypto::{DataKey, SecretBytes};
use crate::cursor::Cursor;
use crate::dto::{SecretValue, UpdateSecretRequest, UserPass, VerifyResponse};
use crate::lockout::{command_view, failure_command, record, LockoutPolicy};
use crate::payload::{matches_presented, presented_matches, Payload};
use crate::service::{seal_version, sealing_refusal, seals, tells};
use crate::store::apply::row_of;
use crate::store::engine::{live_of, read_live_versions};
use crate::store::keys::{key_of, version_key};
use crate::store::model::{
    Command, CommandView, MetaChange, NextRotation, SecretRecord, SecretView, VersionRecord,
    VersionView,
};
use crate::store::sorting::list_view;
use crate::store::tables::{StoreView, Tables};
use crate::text::{bytes_of, clone_text};
use crate::types::{SecretFormat, SecretKind};
use crate::validate::{grace_refusal, validate_value, value_refusal};
use vstd::utf8::encode_utf8;

verus! {

/// How a secret is to be updated: its metadata only, with the given new value, or with a user name
/// and password made of the current ones, which have to be opened first.
pub enum UpdatePlan {
    Meta { secret: SecretRecord },
    Value { secret: SecretRecord, bytes: Vec<u8> },
    Userpass { secret: SecretRecord, current: VersionRecord },
}

pub enum UpdatePlanView {
    Meta { secret: SecretView },
    Value { secret: SecretView, bytes: Seq<u8> },
    Userpass { secret: SecretView, current: VersionView },
}

impl View for UpdatePlan {
    type V = UpdatePlanView;

    open spec fn view(&self) -> UpdatePlanView {
        match self {
            UpdatePlan::Meta { secret } => UpdatePlanView::Meta { secret: secret@ },
            UpdatePlan::Value { secret, bytes } => UpdatePlanView::Value {
                secret: secret@,
                bytes: bytes@,
            },
            UpdatePlan::Userpass { secret, current } => UpdatePlanView::Userpass {
                secret: secret@,
                current: current@,
            },
        }
    }
}

/// How a request updates a secret, or why it is refused.
pub open spec fn update_plan(
    state: StoreView,
    name: Seq<char>,
    req: UpdateSecretRequest,
) -> Result<UpdatePlanView, ApiErrorView> {
    if req.rotation_interval_secs is Some && req.rotation_interval_secs->0 <= 0 {
        Err(ApiErrorView::BadRequest("rotation_interval_secs must be positive"@))
    } else if grace_refusal(req.grace_period_secs) is Some {
        Err(grace_refusal(req.grace_period_secs)->0)
    } else {
        match row_of(state.secrets, name) {
            None => Err(ApiErrorView::NotFound),
            Some(secret) => match secret.format {
                SecretFormat::Opaque => if req.username is Some || req.password is Some {
                    Err(
                        ApiErrorView::BadRequest(
                            "secret is opaque; use 'value', not 'username'/'password'"@,
                        ),
                    )
                } else {
                    match req.value {
                        None => Ok(UpdatePlanView::Meta { secret }),
                        Some(value) => match value_refusal(value@) {
                            Some(error) => Err(error),
                            None => Ok(
                                UpdatePlanView::Value { secret, bytes: encode_utf8(value@) },
                            ),
                        },
                    }
                },
                SecretFormat::Userpass => if req.value is Some {
                    Err(
                        ApiErrorView::BadRequest(
                            "secret is userpass; use 'username'/'password', not 'value'"@,
                        ),
                    )
                } else if req.username is None && req.password is None {
                    Ok(UpdatePlanView::Meta { secret })
                } else {
                    match row_of(state.versions, key_of(name, secret.current_version as int)) {
                        Some(current) => Ok(UpdatePlanView::Userpass { secret, current }),
                        None => Err(ApiErrorView::Internal("current version row missing"@)),
                    }
                },
            },
        }
    }
}

/// Checks a request to update a secret and says what it takes.
pub fn begin_update(tables: &Tables, name: &String, req: &UpdateSecretRequest) -> (r: ApiResult<
    UpdatePlan,
>)
    ensures
        match update_plan(tables@, name@, *req) {
            Ok(plan) => r matches Ok(p) && p@ == plan,
            Err(error) => r matches Err(e) && e@ == error,
        },
{
    if let Some(secs) = req.rotation_interval_secs {
        if secs <= 0 {
            return Err(bad_request("rotation_interval_secs must be positive"));
        }
    }
    if let Some(secs) = req.grace_period_secs {
        if secs < 0 {
            return Err(bad_request("grace_period_secs must not be negative"));
        }
    }
    let secret = match tables.secrets.get(name) {
        Some(secret) => secret.clone(),
        None => return Err(ApiError::NotFound),
    };
    match secret.format {
        SecretFormat::Opaque => {
            if req.username.is_some() || req.password.is_some() {
                return Err(
                    bad_request("secret is opaque; use 'value', not 'username'/'password'"),
                );
            }
            match &req.value {
                None => Ok(UpdatePlan::Meta { secret }),
                Some(value) => match validate_value(value.as_str()) {
                    Ok(_) => Ok(UpdatePlan::Value { secret, bytes: bytes_of(value.as_str()) }),
                    Err(error) => Err(error),
                },
            }
        },
        SecretFormat::Userpass => {
            if req.value.is_some() {
                return Err(
                    bad_request("secret is userpass; use 'username'/'password', not 'value'"),
                );
            }
            if req.username.is_none() && req.password.is_none() {
                return Ok(UpdatePlan::Meta { secret });
            }
            let key = version_key(name.as_str(), secret.current_version);
            match tables.versions.get(&key) {
                Some(current) => Ok(UpdatePlan::Userpass { secret, current: current.clone() }),
                None => Err(internal("current version row missing")),
            }
        },
    }
}

/// The number of the version after the current one.
pub fn next_version(secret: &SecretRecord) -> (r: i32)
    requires
        secret.current_version < i32::MAX,
    ensures
        r == secret.current_version + 1,
{
    secret.current_version + 1
}

/// The rotation interval after an update: the one given, else the current one, else none.
pub open spec fn effective_interval(req: UpdateSecretRequest, secret: SecretView) -> i64 {
    match req.rotation_interval_secs {
        Some(secs) => secs,
        None => match secret.rotation_interval_secs {
            Some(secs) => secs,
            None => 0,
        },
    }
}

/// Whether an update starts the time to the next rotation anew: on an automatic secret, when its
/// value or its interval changes.
pub open spec fn restarts_timer(req: UpdateSecretRequest, secret: SecretView, sealed: bool) -> bool {
    secret.kind == SecretKind::Automatic && (sealed || req.rotation_interval_secs is Some)
}

/// What an update changes about a secret besides its versions.
pub open spec fn update_meta(
    req: UpdateSecretRequest,
    secret: SecretView,
    sealed: bool,
    now: i64,
) -> MetaChange {
    MetaChange {
        description: req.description.deep_view(),
        rotation_interval_secs: req.rotation_interval_secs,
        grace_secs: req.grace_period_secs,
        next_rotation_at: if restarts_timer(req, secret, sealed) {
            NextRotation::SetTo(Some((now + effective_interval(req, secret)) as i64))
        } else {
            NextRotation::Keep
        },
        updated_at: now,
    }
}

/// The command that carries out an update: with a new version where one was sealed, of the
/// metadata alone otherwise. A superseded version stays valid for the grace period in force.
pub open spec fn update_command(
    name: Seq<char>,
    req: UpdateSecretRequest,
    secret: SecretView,
    sealed: Option<VersionView>,
    now: i64,
) -> CommandView {
    match sealed {
        Some(version) => CommandView::PutVersion {
            name,
            expected_current: secret.current_version,
            version,
            supersede_expires_at: Some((now + secret.grace_secs) as i64),
            meta: update_meta(req, secret, true, now),
        },
        None => CommandView::UpdateMeta {
            name,
            expected_current: secret.current_version,
            meta: update_meta(req, secret, false, now),
        },
    }
}

/// Whether the times that an update sets stay within their range.
pub open spec fn update_fits(
    req: UpdateSecretRequest,
    secret: SecretView,
    sealed: bool,
    now: i64,
) -> bool {
    &&& sealed ==> i64::MIN <= now + secret.grace_secs <= i64::MAX
    &&& restarts_timer(req, secret, sealed) ==> i64::MIN <= now + effective_interval(req, secret)
        <= i64::MAX
}

pub fn update_secret(
    name: &str,
    req: &UpdateSecretRequest,
    secret: &SecretRecord,
    sealed: Option<VersionRecord>,
    now: i64,
) -> (r: Command)
    requires
        update_fits(*req, secret@, sealed is Some, now),
    ensures
        r@ == update_command(
            name@,
            *req,
            secret@,
            match sealed {
                Some(version) => Some(version@),
                None => None,
            },
            now,
        ),
{
    let interval: i64 = match req.rotation_interval_secs {
        Some(secs) => secs,
        None => match secret.rotation_interval_secs {
            Some(secs) => secs,
            None => 0,
        },
    };
    let restart = secret.kind == SecretKind::Automatic && (sealed.is_some()
        || req.rotation_interval_secs.is_some());
    let next_rotation_at = if restart {
        NextRotation::SetTo(Some(now + interval))
    } else {
        NextRotation::Keep
    };
    match sealed {
        Some(version) => Command::PutVersion {
            name: name.to_owned(),
            expected_current: secret.current_version,
            version,
            supersede_expires_at: Some(now + secret.grace_secs),
            set_description: clone_text(&req.description),
            set_rotation_interval_secs: req.rotation_interval_secs,
            set_grace_secs: req.grace_period_secs,
            next_rotation_at,
            updated_at: now,
        },
        None => Command::UpdateMeta {
            name: name.to_owned(),
            expected_current: secret.current_version,
            set_description: clone_text(&req.description),
            set_rotation_interval_secs: req.rotation_interval_secs,
            set_grace_secs: req.grace_period_secs,
            next_rotation_at,
            updated_at: now,
        },
    }
}

/// Seals the next version of a secret under the data key that the key service gave; gives the
/// command that stores it along with what else the update changes.
pub fn finish_update(
    name: &str,
    req: &UpdateSecretRequest,
    secret: &SecretRecord,
    plaintext: &[u8],
    data_key: DataKey,
    now: i64,
    generation: i64,
) -> (r: ApiResult<Command>)
    requires
        secret.current_version < i32::MAX,
        update_fits(*req, secret@, true, now),
    ensures
        match sealing_refusal(plaintext@) {
            None => {
                &&& r matches Ok(command)
                &&& command@ matches CommandView::PutVersion { version, .. }
                &&& command@ == update_command(name@, *req, secret@, Some(version), now)
                &&& seals(
                    version,
                    name@,
                    secret.current_version + 1,
                    data_key,
                    plaintext@,
                    now,
                    generation,
                )
            },
            Some(error) => r matches Err(e) && e@ == error,
        },
{
    match seal_version(name, next_version(secret), data_key, plaintext, now, generation) {
        Ok(version) => Ok(update_secret(name, req, secret, Some(version), now)),
        Err(error) => Err(error),
    }
}

/// A secret to be rotated and, where it has a user name, its current version, which has to be
/// opened for it.
pub struct RotatePlan {
    pub secret: SecretRecord,
    pub current: Option<VersionRecord>,
}

/// What rotating a secret takes, or why it is refused.
pub open spec fn rotate_plan(state: StoreView, name: Seq<char>) -> Result<
    (SecretView, Option<VersionView>),
    ApiErrorView,
> {
    match row_of(state.secrets, name) {
        None => Err(ApiErrorView::NotFound),
        Some(secret) => if secret.kind != SecretKind::Automatic {
            Err(
                ApiErrorView::BadRequest(
                    "only automatic secrets can be rotated; use update for manual secrets"@,
                ),
            )
        } else {
            match secret.format {
                SecretFormat::Opaque => Ok((secret, None)),
                SecretFormat::Userpass => match row_of(
                    state.versions,
                    key_of(name, secret.current_version as int),
                ) {
                    Some(current) => Ok((secret, Some(current))),
                    None => Err(ApiErrorView::Internal("current version row missing"@)),
                },
            }
        },
    }
}

pub fn begin_rotate(tables: &Tables, name: &String) -> (r: ApiResult<RotatePlan>)
    ensures
        match rotate_plan(tables@, name@) {
            Ok(plan) => r matches Ok(p) && (p.secret@, crate::store::ports::found(p.current))
                == plan,
            Err(error) => r matches Err(e) && e@ == error,
        },
{
    let secret = match tables.secrets.get(name) {
        Some(secret) => secret.clone(),
        None => return Err(ApiError::NotFound),
    };
    if secret.kind != SecretKind::Automatic {
        return Err(
            bad_request("only automatic secrets can be rotated; use update for manual secrets"),
        );
    }
    match secret.format {
        SecretFormat::Opaque => Ok(RotatePlan { secret, current: None }),
        SecretFormat::Userpass => {
            let key = version_key(name.as_str(), secret.current_version);
            match tables.versions.get(&key) {
                Some(current) => Ok(RotatePlan { secret, current: Some(current.clone()) }),
                None => Err(internal("current version row missing")),
            }
        },
    }
}

/// The rotation interval of a secret, none meaning zero.
pub open spec fn interval_of(secret: SecretView) -> i64 {
    match secret.rotation_interval_secs {
        Some(secs) => secs,
        None => 0,
    }
}

/// The command that rotates a secret to a new version: the superseded one stays valid for the
/// grace period, and the time to the next rotation starts anew.
pub open spec fn rotate_command(
    name: Seq<char>,
    secret: SecretView,
    version: VersionView,
    now: i64,
) -> CommandView {
    CommandView::PutVersion {
        name,
        expected_current: secret.current_version,
        version,
        supersede_expires_at: Some((now + secret.grace_secs) as i64),
        meta: MetaChange {
            description: None,
            rotation_interval_secs: None,
            grace_secs: None,
            next_rotation_at: NextRotation::SetTo(Some((now + interval_of(secret)) as i64)),
            updated_at: now,
        },
    }
}

/// The command that stores the new version of a rotated secret, and the answer.
pub fn rotate(
    name: &str,
    secret: &SecretRecord,
    payload: Payload,
    version: VersionRecord,
    now: i64,
) -> (r: (Command, SecretValue))
    requires
        secret.current_version < i32::MAX,
        payload.format == secret.format,
        i64::MIN <= now + secret.grace_secs <= i64::MAX,
        i64::MIN <= now + interval_of(secret@) <= i64::MAX,
    ensures
        r.0@ == rotate_command(name@, secret@, version@, now),
        tells(
            r.1,
            name@,
            secret.kind,
            (secret.current_version + 1) as i32,
            payload@,
            now,
        ),
{
    let interval: i64 = match secret.rotation_interval_secs {
        Some(secs) => secs,
        None => 0,
    };
    let command = Command::PutVersion {
        name: name.to_owned(),
        expected_current: secret.current_version,
        version,
        supersede_expires_at: Some(now + secret.grace_secs),
        set_description: None,
        set_rotation_interval_secs: None,
        set_grace_secs: None,
        next_rotation_at: NextRotation::SetTo(Some(now + interval)),
        updated_at: now,
    };
    let answer = SecretValue {
        name: name.to_owned(),
        kind: secret.kind,
        format: secret.format,
        version: secret.current_version + 1,
        value: payload.value,
        username: payload.username,
        password: payload.password,
        created_at: rfc3339(now),
    };
    (command, answer)
}

/// Seals the next version of a rotated secret under the data key that the key service gave; gives
/// the command that stores it, and the answer.
pub fn finish_rotate(
    name: &str,
    secret: &SecretRecord,
    payload: Payload,
    data_key: DataKey,
    now: i64,
    generation: i64,
) -> (r: ApiResult<(Command, SecretValue)>)
    requires
        secret.current_version < i32::MAX,
        payload.format == secret.format,
        i64::MIN <= now + secret.grace_secs <= i64::MAX,
        i64::MIN <= now + interval_of(secret@) <= i64::MAX,
    ensures
        match sealing_refusal(payload.bytes@) {
            None => {
                &&& r matches Ok(made)
                &&& made.0@ matches CommandView::PutVersion { version, .. }
                &&& made.0@ == rotate_command(name@, secret@, version, now)
                &&& seals(
                    version,
                    name@,
                    secret.current_version + 1,
                    data_key,
                    payload.bytes@,
                    now,
                    generation,
                )
                &&& tells(
                    made.1,
                    name@,
                    secret.kind,
                    (secret.current_version + 1) as i32,
                    payload@,
                    now,
                )
            },
            Some(error) => r matches Err(e) && e@ == error,
        },
{
    match seal_version(
        name,
        next_version(secret),
        data_key,
        payload.bytes.as_slice(),
        now,
        generation,
    ) {
        Ok(version) => Ok(rotate(name, secret, payload, version, now)),
        Err(error) => Err(error),
    }
}

/// A presented value that is held against the valid versions of a secret, one after the other.
pub struct VerifyScan {
    format: SecretFormat,
    presented: String,
    versions: Cursor<VersionRecord>,
}

/// The versions that a presented value is held against: the valid ones of the secret, the newest
/// first, and none where there is no such secret.
pub open spec fn offered_of(state: StoreView, name: Seq<char>, now: int) -> Seq<VersionView> {
    match row_of(state.secrets, name) {
        Some(_) => live_of(state, name, now),
        None => Seq::empty(),
    }
}

/// Starts to hold a presented value against the valid versions of a secret, the newest first; a
/// secret that does not exist has none.
pub fn begin_verify(tables: &Tables, name: &String, presented: &str, now: i64) -> (r: VerifyScan)
    ensures
        r.presented() == presented@,
        r.left() == offered_of(tables@, name@, now as int),
        row_of(tables@.secrets, name@) matches Some(secret) ==> r.format() == secret.format,
{
    match tables.secrets.get(name) {
        Some(secret) => {
            let versions = read_live_versions(tables, name, now);
            assert(list_view(versions@).skip(0) =~= list_view(versions@));
            VerifyScan {
                format: secret.format,
                presented: presented.to_owned(),
                versions: Cursor::new(versions),
            }
        },
        None => VerifyScan {
            format: SecretFormat::Opaque,
            presented: presented.to_owned(),
            versions: Cursor::new(Vec::new()),
        },
    }
}

/// The number of the first version that a presented value matches.
pub open spec fn first_match(
    versions: Seq<VersionView>,
    hit: spec_fn(VersionView) -> bool,
) -> Option<i32>
    decreases versions.len(),
{
    if versions.len() == 0 {
        None
    } else if hit(versions[0]) {
        Some(versions[0].version)
    } else {
        first_match(versions.skip(1), hit)
    }
}

/// The answer for a version that matched, or for none.
pub fn verify(matched: Option<i32>) -> (r: VerifyResponse)
    ensures
        r.valid == matched is Some,
        r.version == matched,
{
    VerifyResponse { valid: matched.is_some(), version: matched }
}

/// The answer for a version that matched, or for none, with the command that counts a failure
/// against the client where none did. A secret that does not exist has no version that matches, so
/// it counts as a failure too.
pub fn verify_outcome(
    policy: &LockoutPolicy,
    matched: Option<i32>,
    ip: &Option<String>,
    now: i64,
) -> (r: (VerifyResponse, Option<Command>))
    ensures
        r.0.valid == matched is Some,
        r.0.version == matched,
        command_view(r.1) == (if matched is Some {
            None
        } else {
            failure_command(*policy, ip.deep_view(), now)
        }),
{
    let answer = verify(matched);
    if answer.valid {
        (answer, None)
    } else {
        (answer, record(policy, ip, now))
    }
}

impl VerifyScan {
    /// The format of the secret.
    pub closed spec fn format(self) -> SecretFormat {
        self.format
    }

    /// The value that was presented.
    pub closed spec fn presented(self) -> Seq<char> {
        self.presented@
    }

    /// The versions still to be held against.
    pub closed spec fn left(self) -> Seq<VersionView> {
        list_view(self.versions.items()).skip(self.versions.done())
    }

    /// The next version to open, if there is one.
    pub fn current(&self) -> (r: Option<&VersionRecord>)
        ensures
            match r {
                Some(version) => self.left().len() > 0 && version@ == self.left()[0],
                None => self.left().len() == 0,
            },
    {
        self.versions.current()
    }

    /// Holds the value against the opened version; gives the version's number on a match and goes
    /// on to the next version otherwise. Where no version is left, nothing matches. So offering one
    /// version after the other until one matches finds the first match.
    pub fn offer(&mut self, plaintext: &SecretBytes, parsed: &Option<UserPass>) -> (r: Option<i32>)
        ensures
            ({
                let matched = old(self).left().len() > 0 && presented_matches(
                    old(self).format(),
                    old(self).presented(),
                    plaintext@,
                    match *parsed {
                        Some(up) => Some(up.password@),
                        None => None,
                    },
                );
                &&& if matched {
                    r == Some(old(self).left()[0].version) && *final(self) == *old(self)
                } else {
                    &&& r is None
                    &&& final(self).left() == if old(self).left().len() > 0 {
                        old(self).left().skip(1)
                    } else {
                        old(self).left()
                    }
                    &&& final(self).format() == old(self).format()
                    &&& final(self).presented() == old(self).presented()
                }
                &&& forall|hit: spec_fn(VersionView) -> bool|
                    (old(self).left().len() > 0 ==> hit(old(self).left()[0]) == matched)
                        ==> #[trigger] first_match(old(self).left(), hit) == if matched {
                        r
                    } else {
                        first_match(final(self).left(), hit)
                    }
            }),
    {
        let ghost before = self.left();
        let number = match self.versions.current() {
            Some(version) => version.version,
            None => return None,
        };
        if matches_presented(self.format, self.presented.as_str(), plaintext, parsed) {
            return Some(number);
        }
        self.versions.advance();
        assert(self.left() =~= before.skip(1));
        None
    }
}

} // verus!

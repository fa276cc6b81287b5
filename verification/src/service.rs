//! The operations on secrets: what each of them checks, stores and answers. Between the steps of
//! an operation the caller obtains what only the key management service can give.

use vstd::prelude::*;
use crate::api_error::{bad_request, internal, ApiError, ApiErrorView, ApiResult};
use crate::clock::{rfc3339, rfc3339_of, rfc3339_opt, rfc3339_opt_of};
use crate::crypto::{
    aead_seal, generate_nonce, open, opened, seal, sealable, DataKey, Dek, SecretBytes, NONCE_LEN,
};
use crate::dto::{CreateSecretRequest, SecretMetadata, SecretValue};
use crate::error::{error_text, Error};
use crate::payload::{
    build_create_payload, created_payload, fields_view, payload_refusal, Fields, Payload,
    PayloadView,
};
use crate::rbac::{can_see, visible, Rules};
use crate::store::apply::row_of;
use crate::store::engine::{list_values, listed};
use crate::store::model::{
    AuditEntry, AuditView, Command, CommandView, SecretRecord, SecretView, VersionRecord,
    VersionView,
};
use crate::store::sorting::list_view;
use crate::store::tables::{StoreView, Tables, KMS_REWRAP_STATE_KEY};
use crate::text::{clone_bytes, clone_text, concat3, decimal, format_i64, format_u64};
use crate::types::{aad_for, aad_of, law_aad_injective, SecretFormat, SecretKind};
use crate::validate::{
    checked, grace_refusal, name_refusal, normalize_grace, validate_name, MAX_BATCH,
};

verus! {

/// The encryption context of a data key: the secret and version that it is for.
pub open spec fn context_of(name: Seq<char>, version: int) -> Seq<(Seq<char>, Seq<char>)> {
    seq![("secret"@, name), ("version"@, decimal(version))]
}

pub fn kms_context(name: &str, version: i32) -> (r: Vec<(String, String)>)
    ensures
        r.deep_view() == context_of(name@, version as int),
{
    let mut out: Vec<(String, String)> = Vec::new();
    out.push(("secret".to_owned(), name.to_owned()));
    out.push(("version".to_owned(), format_i64(version as i64)));
    assert(out.deep_view() =~= context_of(name@, version as int));
    out
}

/// The rotation of the wrapping key that new data keys count as wrapped under: the last one that
/// was swept, if any was.
pub open spec fn generation_of(state: StoreView) -> i64 {
    match row_of(state.kms_rewrap, KMS_REWRAP_STATE_KEY@) {
        Some(rewrap) => rewrap.last_completed_rotation_at,
        None => 0,
    }
}

pub fn wrap_generation(tables: &Tables) -> (r: i64)
    ensures
        r == generation_of(tables@),
{
    match tables.kms_rewrap.get(&KMS_REWRAP_STATE_KEY.to_owned()) {
        Some(rewrap) => rewrap.last_completed_rotation_at,
        None => 0,
    }
}

/// A sealed version.
pub open spec fn sealed_version(
    name: Seq<char>,
    version: i32,
    key: Seq<u8>,
    wrapped: Seq<u8>,
    key_id: Seq<char>,
    nonce: Seq<u8>,
    plaintext: Seq<u8>,
    now: i64,
    generation: i64,
) -> VersionView {
    VersionView {
        version,
        kms_key_id: key_id,
        wrapped_dek: wrapped,
        nonce,
        ciphertext: aead_seal(key, nonce, aad_of(name, version as int), plaintext),
        aad: aad_of(name, version as int),
        created_at: now,
        expires_at: None,
        wrapped_rotation_at: Some(generation),
    }
}

/// Seals a version of a secret under the given data key and nonce, bound to the secret's name and
/// the version.
pub fn seal_version_with(
    name: &str,
    version: i32,
    data_key: DataKey,
    nonce: [u8; NONCE_LEN],
    plaintext: &[u8],
    now: i64,
    generation: i64,
) -> (r: ApiResult<VersionRecord>)
    ensures
        match r {
            Ok(record) => {
                &&& sealable(plaintext@)
                &&& record@ == sealed_version(
                    name@,
                    version,
                    data_key.plaintext@,
                    data_key.wrapped@,
                    data_key.key_id@,
                    nonce@,
                    plaintext@,
                    now,
                    generation,
                )
                &&& opened(data_key.plaintext@, nonce@, record@.aad, record@.ciphertext) == Some(
                    plaintext@,
                )
            },
            Err(error) => !sealable(plaintext@) && error@ == ApiErrorView::Internal(
                error_text(Error::Encryption),
            ),
        },
{
    let aad = aad_for(name, version);
    match seal(&data_key.plaintext, &nonce, aad.as_slice(), plaintext) {
        Ok(ciphertext) => Ok(
            VersionRecord {
                version,
                kms_key_id: data_key.key_id,
                wrapped_dek: data_key.wrapped,
                nonce: clone_bytes(&nonce),
                ciphertext,
                aad,
                created_at: now,
                expires_at: None,
                wrapped_rotation_at: Some(generation),
            },
        ),
        Err(error) => Err(ApiError::from_core(&error)),
    }
}

/// Whether a record is the given message, sealed under a data key as a version of a secret.
pub open spec fn seals(
    record: VersionView,
    name: Seq<char>,
    version: int,
    data_key: DataKey,
    plaintext: Seq<u8>,
    now: i64,
    generation: i64,
) -> bool {
    &&& record.nonce.len() == NONCE_LEN
    &&& record == sealed_version(
        name,
        version as i32,
        data_key.plaintext@,
        data_key.wrapped@,
        data_key.key_id@,
        record.nonce,
        plaintext,
        now,
        generation,
    )
    &&& opened_version(name, version, record, data_key.plaintext@) == Ok::<
        Seq<u8>,
        ApiErrorView,
    >(plaintext)
}

/// Why a message cannot be sealed, if so.
pub open spec fn sealing_refusal(plaintext: Seq<u8>) -> Option<ApiErrorView> {
    if sealable(plaintext) {
        None
    } else {
        Some(ApiErrorView::Internal(error_text(Error::Encryption)))
    }
}

/// Seals a version of a secret under the given data key and a new nonce.
pub fn seal_version(
    name: &str,
    version: i32,
    data_key: DataKey,
    plaintext: &[u8],
    now: i64,
    generation: i64,
) -> (r: ApiResult<VersionRecord>)
    ensures
        match sealing_refusal(plaintext@) {
            None => r matches Ok(record) && seals(
                record@,
                name@,
                version as int,
                data_key,
                plaintext@,
                now,
                generation,
            ),
            Some(error) => r matches Err(e) && e@ == error,
        },
{
    let nonce = generate_nonce();
    seal_version_with(name, version, data_key, nonce, plaintext, now, generation)
}

/// Why a stored version is not even tried to be opened, if so: its associated data must be that of
/// the secret and version it is read as, and its nonce must have the right length.
pub open spec fn record_refusal(
    name: Seq<char>,
    version: int,
    record: VersionView,
) -> Option<ApiErrorView> {
    if record.aad != aad_of(name, version) {
        Some(
            ApiErrorView::Internal(
                "stored aad does not match secret identity (possible tampering)"@,
            ),
        )
    } else if record.nonce.len() != NONCE_LEN {
        Some(ApiErrorView::Internal("stored nonce has invalid length"@))
    } else {
        None
    }
}

/// What a stored version opens to under the given data key.
pub open spec fn opened_version(
    name: Seq<char>,
    version: int,
    record: VersionView,
    key: Seq<u8>,
) -> Result<Seq<u8>, ApiErrorView> {
    match record_refusal(name, version, record) {
        Some(error) => Err(error),
        None => match opened(key, record.nonce, record.aad, record.ciphertext) {
            Some(plaintext) => Ok(plaintext),
            None => Err(ApiErrorView::Internal(error_text(Error::Decryption))),
        },
    }
}

fn bytes_equal(a: &Vec<u8>, b: &Vec<u8>) -> (r: bool)
    ensures
        r == (a@ == b@),
{
    if a.len() != b.len() {
        return false;
    }
    let mut i: usize = 0;
    while i < a.len()
        invariant
            i <= a@.len() == b@.len(),
            forall|j: int| 0 <= j < i ==> a@[j] == b@[j],
        decreases a@.len() - i,
    {
        if a[i] != b[i] {
            return false;
        }
        i = i + 1;
    }
    assert(a@ =~= b@);
    true
}

/// Checks a stored version before its data key is asked for; gives its nonce.
pub fn check_record(name: &str, version: i32, record: &VersionRecord) -> (r: ApiResult<
    [u8; NONCE_LEN],
>)
    ensures
        match record_refusal(name@, version as int, record@) {
            None => r matches Ok(nonce) && nonce@ == record@.nonce,
            Some(error) => r matches Err(e) && e@ == error,
        },
{
    let aad = aad_for(name, version);
    if !bytes_equal(&record.aad, &aad) {
        return Err(
            internal("stored aad does not match secret identity (possible tampering)"),
        );
    }
    if record.nonce.len() != NONCE_LEN {
        return Err(internal("stored nonce has invalid length"));
    }
    let mut nonce: [u8; NONCE_LEN] = [0u8; NONCE_LEN];
    let mut i: usize = 0;
    while i < NONCE_LEN
        invariant
            i <= NONCE_LEN,
            record.nonce@.len() == NONCE_LEN,
            forall|j: int| 0 <= j < i ==> nonce@[j] == record.nonce@[j],
        decreases NONCE_LEN - i,
    {
        nonce[i] = record.nonce[i];
        i = i + 1;
    }
    assert(nonce@ =~= record@.nonce);
    Ok(nonce)
}

/// Opens a stored version under its data key.
pub fn open_version(name: &str, version: i32, record: &VersionRecord, dek: &Dek) -> (r: ApiResult<
    SecretBytes,
>)
    ensures
        match opened_version(name@, version as int, record@, dek@) {
            Ok(plaintext) => r matches Ok(bytes) && bytes@ == plaintext,
            Err(error) => r matches Err(e) && e@ == error,
        },
{
    match check_record(name, version, record) {
        Ok(nonce) => match open(dek, &nonce, record.aad.as_slice(), record.ciphertext.as_slice()) {
            Ok(plaintext) => Ok(plaintext),
            Err(error) => Err(ApiError::from_core(&error)),
        },
        Err(error) => Err(error),
    }
}

/// A version sealed for one secret and version is refused as any other.
pub proof fn law_version_bound_to_identity(
    name: Seq<char>,
    version: i32,
    other_name: Seq<char>,
    other_version: int,
    record: VersionView,
    key: Seq<u8>,
)
    requires
        record.aad == aad_of(name, version as int),
        name != other_name || version != other_version,
    ensures
        opened_version(other_name, other_version, record, key) is Err,
{
    if aad_of(name, version as int) == aad_of(other_name, other_version) {
        law_aad_injective(name, version as int, other_name, other_version);
    }
}

/// Why a new secret is refused, if it is.
pub open spec fn create_refusal(req: CreateSecretRequest) -> Option<ApiErrorView> {
    if name_refusal(req.name@) is Some {
        name_refusal(req.name@)
    } else if grace_refusal(req.grace_period_secs) is Some {
        grace_refusal(req.grace_period_secs)
    } else if req.kind == SecretKind::Automatic && !(req.rotation_interval_secs is Some
        && req.rotation_interval_secs->0 > 0) {
        Some(
            ApiErrorView::BadRequest(
                "automatic secret requires positive 'rotation_interval_secs'"@,
            ),
        )
    } else {
        payload_refusal(req)
    }
}

/// Checks a request to create a secret and makes the payload of its first version.
pub fn begin_create(req: &CreateSecretRequest) -> (r: ApiResult<Payload>)
    ensures
        match create_refusal(*req) {
            None => r matches Ok(payload) && created_payload(*req, payload@),
            Some(error) => r matches Err(e) && e@ == error,
        },
{
    match validate_name(req.name.as_str()) {
        Ok(_) => {},
        Err(error) => return Err(error),
    }
    match normalize_grace(req.grace_period_secs) {
        Ok(_) => {},
        Err(error) => return Err(error),
    }
    if req.kind == SecretKind::Automatic {
        let positive = match req.rotation_interval_secs {
            Some(secs) => secs > 0,
            None => false,
        };
        if !positive {
            return Err(
                bad_request("automatic secret requires positive 'rotation_interval_secs'"),
            );
        }
    }
    build_create_payload(req)
}

/// The record of a new secret.
pub open spec fn created_secret(
    req: CreateSecretRequest,
    format: SecretFormat,
    now: i64,
) -> SecretView {
    SecretView {
        name: req.name@,
        kind: req.kind,
        format,
        description: req.description.deep_view(),
        rotation_interval_secs: req.rotation_interval_secs,
        grace_secs: match req.grace_period_secs {
            Some(secs) => secs,
            None => 0,
        },
        current_version: 1,
        next_rotation_at: if req.kind == SecretKind::Automatic
            && req.rotation_interval_secs is Some {
            Some((now + req.rotation_interval_secs->0) as i64)
        } else {
            None
        },
        created_at: now,
        updated_at: now,
        target: None,
    }
}

/// Whether an answer tells a secret with the given payload.
pub open spec fn tells(
    answer: SecretValue,
    name: Seq<char>,
    kind: SecretKind,
    version: i32,
    payload: PayloadView,
    created_at: i64,
) -> bool {
    &&& answer.name@ == name
    &&& answer.kind == kind
    &&& answer.format == payload.format
    &&& answer.version == version
    &&& answer.value.deep_view() == payload.value
    &&& answer.username.deep_view() == payload.username
    &&& answer.password.deep_view() == payload.password
    &&& answer.created_at@ == rfc3339_of(created_at)
}

/// The command that stores a new secret with its sealed first version, and the answer to the
/// client.
pub fn create_secret(
    req: CreateSecretRequest,
    payload: Payload,
    version: VersionRecord,
    now: i64,
) -> (r: (Command, SecretValue))
    requires
        req.kind == SecretKind::Automatic && req.rotation_interval_secs is Some ==> i64::MIN <= now
            + req.rotation_interval_secs->0 <= i64::MAX,
    ensures
        r.0@ == (CommandView::CreateSecret {
            secret: created_secret(req, payload.format, now),
            version: version@,
        }),
        tells(r.1, req.name@, req.kind, 1, payload@, now),
{
    let next_rotation_at: Option<i64> = if req.kind == SecretKind::Automatic {
        match req.rotation_interval_secs {
            Some(secs) => Some(now + secs),
            None => None,
        }
    } else {
        None
    };
    let grace_secs: i64 = match req.grace_period_secs {
        Some(secs) => secs,
        None => 0,
    };
    let secret = SecretRecord {
        name: req.name.clone(),
        kind: req.kind,
        format: payload.format,
        description: req.description,
        rotation_interval_secs: req.rotation_interval_secs,
        grace_secs,
        current_version: 1,
        next_rotation_at,
        created_at: now,
        updated_at: now,
        target: None,
    };
    let answer = SecretValue {
        name: req.name,
        kind: req.kind,
        format: payload.format,
        version: 1,
        value: payload.value,
        username: payload.username,
        password: payload.password,
        created_at: rfc3339(now),
    };
    (Command::CreateSecret { secret, version }, answer)
}

/// Seals the first version of a new secret under the data key that the key service gave; gives the
/// command that stores the secret with it, and the answer to the client.
pub fn finish_create(
    req: CreateSecretRequest,
    payload: Payload,
    data_key: DataKey,
    now: i64,
    generation: i64,
) -> (r: ApiResult<(Command, SecretValue)>)
    requires
        req.kind == SecretKind::Automatic && req.rotation_interval_secs is Some ==> i64::MIN <= now
            + req.rotation_interval_secs->0 <= i64::MAX,
    ensures
        match sealing_refusal(payload.bytes@) {
            None => {
                &&& r matches Ok(made)
                &&& made.0@ matches CommandView::CreateSecret { secret, version }
                &&& secret == created_secret(req, payload.format, now)
                &&& seals(version, req.name@, 1, data_key, payload.bytes@, now, generation)
                &&& tells(made.1, req.name@, req.kind, 1, payload@, now)
            },
            Some(error) => r matches Err(e) && e@ == error,
        },
{
    match seal_version(
        req.name.as_str(),
        1,
        data_key,
        payload.bytes.as_slice(),
        now,
        generation,
    ) {
        Ok(version) => Ok(create_secret(req, payload, version, now)),
        Err(error) => Err(error),
    }
}

/// Whether an answer tells the opened fields of a version.
pub open spec fn tells_value(
    answer: SecretValue,
    name: Seq<char>,
    secret: SecretRecord,
    version: VersionRecord,
    fields: Fields,
) -> bool {
    &&& answer.name@ == name
    &&& answer.kind == secret.kind
    &&& answer.format == secret.format
    &&& answer.version == version.version
    &&& (answer.value.deep_view(), answer.username.deep_view(), answer.password.deep_view())
        == fields_view(fields)
    &&& answer.created_at@ == rfc3339_of(version.created_at)
}

/// The answer to a read: the opened fields of the current version.
pub fn get_secret(
    name: &str,
    secret: &SecretRecord,
    version: &VersionRecord,
    fields: Fields,
) -> (r: SecretValue)
    ensures
        tells_value(r, name@, *secret, *version, fields),
{
    let (value, username, password) = fields;
    SecretValue {
        name: name.to_owned(),
        kind: secret.kind,
        format: secret.format,
        version: version.version,
        value,
        username,
        password,
        created_at: rfc3339(version.created_at),
    }
}

/// Why a read of many secrets at once is refused, if it is.
pub open spec fn batch_refusal(count: nat) -> Option<ApiErrorView> {
    if count > MAX_BATCH {
        Some(
            ApiErrorView::BadRequest(
                "batch too large: "@ + decimal(count as int) + " names (max 256)"@,
            ),
        )
    } else {
        None
    }
}

pub fn check_batch(names: &Vec<String>) -> (r: ApiResult<()>)
    ensures
        checked(r, batch_refusal(names@.len())),
{
    if names.len() > MAX_BATCH {
        let number = format_u64(names.len() as u64);
        return Err(
            ApiError::BadRequest(
                concat3("batch too large: ", number.as_str(), " names (max 256)"),
            ),
        );
    }
    Ok(())
}

/// Whether an answer tells the metadata of a secret.
pub open spec fn tells_metadata(answer: SecretMetadata, secret: SecretView) -> bool {
    &&& answer.name@ == secret.name
    &&& answer.kind == secret.kind
    &&& answer.format == secret.format
    &&& answer.description.deep_view() == secret.description
    &&& answer.version == secret.current_version
    &&& answer.rotation_interval_secs == secret.rotation_interval_secs
    &&& answer.grace_period_secs == secret.grace_secs
    &&& answer.next_rotation_at.deep_view() == rfc3339_opt_of(secret.next_rotation_at)
    &&& answer.created_at@ == rfc3339_of(secret.created_at)
    &&& answer.updated_at@ == rfc3339_of(secret.updated_at)
}

pub fn to_metadata(secret: &SecretRecord) -> (r: SecretMetadata)
    ensures
        tells_metadata(r, secret@),
{
    SecretMetadata {
        name: secret.name.clone(),
        kind: secret.kind,
        format: secret.format,
        description: clone_text(&secret.description),
        version: secret.current_version,
        rotation_interval_secs: secret.rotation_interval_secs,
        grace_period_secs: secret.grace_secs,
        next_rotation_at: rfc3339_opt(secret.next_rotation_at),
        created_at: rfc3339(secret.created_at),
        updated_at: rfc3339(secret.updated_at),
    }
}

/// The metadata of a stored secret.
pub fn load_metadata(tables: &Tables, name: &String) -> (r: ApiResult<SecretMetadata>)
    ensures
        match row_of(tables@.secrets, name@) {
            Some(secret) => r matches Ok(answer) && tells_metadata(answer, secret),
            None => r matches Err(e) && e@ == ApiErrorView::NotFound,
        },
{
    match tables.secrets.get(name) {
        Some(secret) => Ok(to_metadata(secret)),
        None => Err(ApiError::NotFound),
    }
}

/// The command that deletes a secret.
pub fn delete_secret(name: &str) -> (r: Command)
    ensures
        r@ == (CommandView::DeleteSecret { name: name@ }),
{
    Command::DeleteSecret { name: name.to_owned() }
}

/// The command that records an operation in the audit log.
pub fn audit(
    actor: Option<String>,
    client_ip: Option<String>,
    action: &str,
    secret_name: Option<String>,
    outcome: &str,
    now: i64,
) -> (r: Command)
    ensures
        r@ == (CommandView::AppendAudit {
            entry: AuditView {
                at: now,
                actor: actor.deep_view(),
                client_ip: client_ip.deep_view(),
                action: action@,
                secret_name: secret_name.deep_view(),
                outcome: outcome@,
                node_id: 0,
            },
        }),
{
    Command::AppendAudit {
        entry: AuditEntry {
            at: now,
            actor,
            client_ip,
            action: action.to_owned(),
            secret_name,
            outcome: outcome.to_owned(),
            node_id: 0,
        },
    }
}

/// The secrets that an actor may see, in their order.
pub open spec fn visible_of(
    secrets: Seq<SecretView>,
    is_admin: bool,
    rules: Rules,
) -> Seq<SecretView>
    decreases secrets.len(),
{
    if secrets.len() == 0 {
        secrets
    } else {
        let front = visible_of(secrets.drop_last(), is_admin, rules);
        if can_see(is_admin, rules, secrets.last().name) {
            front.push(secrets.last())
        } else {
            front
        }
    }
}

/// The metadata of the secrets that an actor may see, in the order of their names.
pub fn list_secrets(tables: &Tables, is_admin: bool, rules: &[(String, String)]) -> (r: Vec<
    SecretMetadata,
>)
    ensures
        ({
            let shown = visible_of(
                listed::<String, SecretRecord>(tables@.secrets),
                is_admin,
                rules.deep_view(),
            );
            &&& r@.len() == shown.len()
            &&& forall|i: int| 0 <= i < r@.len() ==> tells_metadata(#[trigger] r@[i], shown[i])
        }),
{
    let secrets = list_values(&tables.secrets);
    let ghost all = list_view(secrets@);
    let ghost held = rules.deep_view();
    let mut out: Vec<SecretMetadata> = Vec::new();
    let mut i: usize = 0;
    assert(all.take(0) =~= Seq::empty());
    while i < secrets.len()
        invariant
            i <= secrets@.len() == all.len(),
            all == list_view(secrets@),
            held == rules.deep_view(),
            out@.len() == visible_of(all.take(i as int), is_admin, held).len(),
            forall|j: int|
                0 <= j < out@.len() ==> tells_metadata(
                    #[trigger] out@[j],
                    visible_of(all.take(i as int), is_admin, held)[j],
                ),
        decreases secrets@.len() - i,
    {
        assert(all.take(i as int + 1).drop_last() =~= all.take(i as int));
        if visible(is_admin, rules, secrets[i].name.as_str()) {
            out.push(to_metadata(&secrets[i]));
        }
        i = i + 1;
    }
    assert(all.take(i as int) =~= all);
    out
}

} // verus!

//! The records that the vault stores, the commands that change them, and their mathematical
//! counterparts.

use vstd::prelude::*;
use crate::text::{clone_bytes, clone_text};
use crate::types::{SecretFormat, SecretKind};
use super::table::Duplicate;

verus! {

/// A copy of a list of texts.
pub fn clone_texts(texts: &Vec<String>) -> (r: Vec<String>)
    ensures
        r.deep_view() == texts.deep_view(),
{
    let mut out: Vec<String> = Vec::new();
    let mut i: usize = 0;
    while i < texts.len()
        invariant
            i <= texts@.len(),
            out@ == texts@.take(i as int),
        decreases texts@.len() - i,
    {
        out.push(texts[i].clone());
        assert(texts@.take(i as int + 1) =~= texts@.take(i as int).push(texts@[i as int]));
        i = i + 1;
    }
    assert(out@ =~= texts@);
    assert(out.deep_view() =~= texts.deep_view());
    out
}

/// A copy of a list of pairs of texts.
pub fn clone_pairs(pairs: &Vec<(String, String)>) -> (r: Vec<(String, String)>)
    ensures
        r.deep_view() == pairs.deep_view(),
{
    let mut out: Vec<(String, String)> = Vec::new();
    let mut i: usize = 0;
    while i < pairs.len()
        invariant
            i <= pairs@.len(),
            out@ == pairs@.take(i as int),
        decreases pairs@.len() - i,
    {
        out.push((pairs[i].0.clone(), pairs[i].1.clone()));
        assert(pairs@.take(i as int + 1) =~= pairs@.take(i as int).push(pairs@[i as int]));
        i = i + 1;
    }
    assert(out@ =~= pairs@);
    assert(out.deep_view() =~= pairs.deep_view());
    out
}

/// The Postgres role whose password a secret holds, and the servers to change it on.
#[derive(Debug, PartialEq, Eq)]
pub struct PgRoleTarget {
    pub hosts: Vec<String>,
    pub database: String,
    pub role: Option<String>,
    pub login_secret: Option<String>,
}

pub struct PgRoleTargetView {
    pub hosts: Seq<Seq<char>>,
    pub database: Seq<char>,
    pub role: Option<Seq<char>>,
    pub login_secret: Option<Seq<char>>,
}

impl View for PgRoleTarget {
    type V = PgRoleTargetView;

    open spec fn view(&self) -> PgRoleTargetView {
        PgRoleTargetView {
            hosts: self.hosts.deep_view(),
            database: self.database@,
            role: self.role.deep_view(),
            login_secret: self.login_secret.deep_view(),
        }
    }
}

impl Clone for PgRoleTarget {
    fn clone(&self) -> (r: Self)
        ensures
            r@ == self@,
    {
        PgRoleTarget {
            hosts: clone_texts(&self.hosts),
            database: self.database.clone(),
            role: clone_text(&self.role),
            login_secret: clone_text(&self.login_secret),
        }
    }
}

/// The database that a Postgres target uses unless it names another.
pub fn default_pg_database() -> (r: String)
    ensures
        r@ == "postgres"@,
{
    "postgres".to_owned()
}

/// What else changes when a secret is rotated.
#[derive(Debug, PartialEq, Eq)]
pub enum RotationTarget {
    PgReplica(PgRoleTarget),
}

pub enum RotationTargetView {
    PgReplica(PgRoleTargetView),
}

impl View for RotationTarget {
    type V = RotationTargetView;

    open spec fn view(&self) -> RotationTargetView {
        match self {
            RotationTarget::PgReplica(target) => RotationTargetView::PgReplica(target@),
        }
    }
}

impl Clone for RotationTarget {
    fn clone(&self) -> (r: Self)
        ensures
            r@ == self@,
    {
        match self {
            RotationTarget::PgReplica(target) => RotationTarget::PgReplica(target.clone()),
        }
    }
}

pub open spec fn target_view(target: Option<RotationTarget>) -> Option<RotationTargetView> {
    match target {
        Some(t) => Some(t@),
        None => None,
    }
}

/// A secret: everything about it but its sealed values.
#[derive(Debug)]
pub struct SecretRecord {
    pub name: String,
    pub kind: SecretKind,
    pub format: SecretFormat,
    pub description: Option<String>,
    pub rotation_interval_secs: Option<i64>,
    pub grace_secs: i64,
    pub current_version: i32,
    pub next_rotation_at: Option<i64>,
    pub created_at: i64,
    pub updated_at: i64,
    pub target: Option<RotationTarget>,
}

pub struct SecretView {
    pub name: Seq<char>,
    pub kind: SecretKind,
    pub format: SecretFormat,
    pub description: Option<Seq<char>>,
    pub rotation_interval_secs: Option<i64>,
    pub grace_secs: i64,
    pub current_version: i32,
    pub next_rotation_at: Option<i64>,
    pub created_at: i64,
    pub updated_at: i64,
    pub target: Option<RotationTargetView>,
}

impl View for SecretRecord {
    type V = SecretView;

    open spec fn view(&self) -> SecretView {
        SecretView {
            name: self.name@,
            kind: self.kind,
            format: self.format,
            description: self.description.deep_view(),
            rotation_interval_secs: self.rotation_interval_secs,
            grace_secs: self.grace_secs,
            current_version: self.current_version,
            next_rotation_at: self.next_rotation_at,
            created_at: self.created_at,
            updated_at: self.updated_at,
            target: target_view(self.target),
        }
    }
}

impl Clone for SecretRecord {
    fn clone(&self) -> (r: Self)
        ensures
            r@ == self@,
    {
        let target = match &self.target {
            Some(t) => Some(t.clone()),
            None => None,
        };
        SecretRecord {
            name: self.name.clone(),
            kind: self.kind,
            format: self.format,
            description: clone_text(&self.description),
            rotation_interval_secs: self.rotation_interval_secs,
            grace_secs: self.grace_secs,
            current_version: self.current_version,
            next_rotation_at: self.next_rotation_at,
            created_at: self.created_at,
            updated_at: self.updated_at,
            target,
        }
    }
}

/// One sealed version of a secret.
#[derive(Debug)]
pub struct VersionRecord {
    pub version: i32,
    pub kms_key_id: String,
    pub wrapped_dek: Vec<u8>,
    pub nonce: Vec<u8>,
    pub ciphertext: Vec<u8>,
    pub aad: Vec<u8>,
    pub created_at: i64,
    pub expires_at: Option<i64>,
    pub wrapped_rotation_at: Option<i64>,
}

pub struct VersionView {
    pub version: i32,
    pub kms_key_id: Seq<char>,
    pub wrapped_dek: Seq<u8>,
    pub nonce: Seq<u8>,
    pub ciphertext: Seq<u8>,
    pub aad: Seq<u8>,
    pub created_at: i64,
    pub expires_at: Option<i64>,
    pub wrapped_rotation_at: Option<i64>,
}

impl View for VersionRecord {
    type V = VersionView;

    open spec fn view(&self) -> VersionView {
        VersionView {
            version: self.version,
            kms_key_id: self.kms_key_id@,
            wrapped_dek: self.wrapped_dek@,
            nonce: self.nonce@,
            ciphertext: self.ciphertext@,
            aad: self.aad@,
            created_at: self.created_at,
            expires_at: self.expires_at,
            wrapped_rotation_at: self.wrapped_rotation_at,
        }
    }
}

impl Clone for VersionRecord {
    fn clone(&self) -> (r: Self)
        ensures
            r@ == self@,
    {
        VersionRecord {
            version: self.version,
            kms_key_id: self.kms_key_id.clone(),
            wrapped_dek: clone_bytes(self.wrapped_dek.as_slice()),
            nonce: clone_bytes(self.nonce.as_slice()),
            ciphertext: clone_bytes(self.ciphertext.as_slice()),
            aad: clone_bytes(self.aad.as_slice()),
            created_at: self.created_at,
            expires_at: self.expires_at,
            wrapped_rotation_at: self.wrapped_rotation_at,
        }
    }
}

/// A role: what the tokens mapped to it may do.
#[derive(Debug)]
pub struct RoleRecord {
    pub name: String,
    pub description: Option<String>,
    pub is_admin: bool,
    pub permissions: Vec<(String, String)>,
    pub created_at: i64,
}

pub struct RoleView {
    pub name: Seq<char>,
    pub description: Option<Seq<char>>,
    pub is_admin: bool,
    pub permissions: Seq<(Seq<char>, Seq<char>)>,
    pub created_at: i64,
}

impl View for RoleRecord {
    type V = RoleView;

    open spec fn view(&self) -> RoleView {
        RoleView {
            name: self.name@,
            description: self.description.deep_view(),
            is_admin: self.is_admin,
            permissions: self.permissions.deep_view(),
            created_at: self.created_at,
        }
    }
}

impl Clone for RoleRecord {
    fn clone(&self) -> (r: Self)
        ensures
            r@ == self@,
    {
        RoleRecord {
            name: self.name.clone(),
            description: clone_text(&self.description),
            is_admin: self.is_admin,
            permissions: clone_pairs(&self.permissions),
            created_at: self.created_at,
        }
    }
}

/// A bearer token, kept as its fingerprint only.
#[derive(Debug)]
pub struct TokenRecord {
    pub name: String,
    pub role: Option<String>,
    pub fingerprint: Vec<u8>,
    pub created_at: i64,
    pub last_used_at: Option<i64>,
    pub revoked_at: Option<i64>,
}

pub struct TokenView {
    pub name: Seq<char>,
    pub role: Option<Seq<char>>,
    pub fingerprint: Seq<u8>,
    pub created_at: i64,
    pub last_used_at: Option<i64>,
    pub revoked_at: Option<i64>,
}

impl View for TokenRecord {
    type V = TokenView;

    open spec fn view(&self) -> TokenView {
        TokenView {
            name: self.name@,
            role: self.role.deep_view(),
            fingerprint: self.fingerprint@,
            created_at: self.created_at,
            last_used_at: self.last_used_at,
            revoked_at: self.revoked_at,
        }
    }
}

impl Clone for TokenRecord {
    fn clone(&self) -> (r: Self)
        ensures
            r@ == self@,
    {
        TokenRecord {
            name: self.name.clone(),
            role: clone_text(&self.role),
            fingerprint: clone_bytes(self.fingerprint.as_slice()),
            created_at: self.created_at,
            last_used_at: self.last_used_at,
            revoked_at: self.revoked_at,
        }
    }
}

/// The failed attempts of one client address.
#[derive(Debug, Clone, Copy)]
pub struct LockoutRecord {
    pub failures: u32,
    pub window_start: i64,
    pub locked_until: Option<i64>,
}

impl View for LockoutRecord {
    type V = LockoutRecord;

    open spec fn view(&self) -> LockoutRecord {
        *self
    }
}

/// One entry of the audit log.
#[derive(Debug)]
pub struct AuditEntry {
    pub at: i64,
    pub actor: Option<String>,
    pub client_ip: Option<String>,
    pub action: String,
    pub secret_name: Option<String>,
    pub outcome: String,
    pub node_id: u64,
}

pub struct AuditView {
    pub at: i64,
    pub actor: Option<Seq<char>>,
    pub client_ip: Option<Seq<char>>,
    pub action: Seq<char>,
    pub secret_name: Option<Seq<char>>,
    pub outcome: Seq<char>,
    pub node_id: u64,
}

impl View for AuditEntry {
    type V = AuditView;

    open spec fn view(&self) -> AuditView {
        AuditView {
            at: self.at,
            actor: self.actor.deep_view(),
            client_ip: self.client_ip.deep_view(),
            action: self.action@,
            secret_name: self.secret_name.deep_view(),
            outcome: self.outcome@,
            node_id: self.node_id,
        }
    }
}

impl Clone for AuditEntry {
    fn clone(&self) -> (r: Self)
        ensures
            r@ == self@,
    {
        AuditEntry {
            at: self.at,
            actor: clone_text(&self.actor),
            client_ip: clone_text(&self.client_ip),
            action: self.action.clone(),
            secret_name: clone_text(&self.secret_name),
            outcome: self.outcome.clone(),
            node_id: self.node_id,
        }
    }
}

/// How far the re-wrapping of data keys has come.
#[derive(Debug, Clone, Copy)]
pub struct KmsRewrapState {
    pub last_completed_rotation_at: i64,
    pub last_swept_at: i64,
    pub updated_at: i64,
}

impl View for KmsRewrapState {
    type V = KmsRewrapState;

    open spec fn view(&self) -> KmsRewrapState {
        *self
    }
}

impl Default for KmsRewrapState {
    fn default() -> (r: Self)
        ensures
            r == (KmsRewrapState { last_completed_rotation_at: 0, last_swept_at: 0, updated_at: 0 }),
    {
        KmsRewrapState { last_completed_rotation_at: 0, last_swept_at: 0, updated_at: 0 }
    }
}

/// Whether a command leaves the time of the next rotation alone or sets it.
#[derive(Debug, Clone, Copy)]
pub enum NextRotation {
    Keep,
    SetTo(Option<i64>),
}

/// A change of the stored state.
#[derive(Debug)]
#[allow(inconsistent_fields)]
pub enum Command {
    CreateSecret { secret: SecretRecord, version: VersionRecord },
    PutVersion {
        name: String,
        expected_current: i32,
        version: VersionRecord,
        supersede_expires_at: Option<i64>,
        set_description: Option<String>,
        set_rotation_interval_secs: Option<i64>,
        set_grace_secs: Option<i64>,
        next_rotation_at: NextRotation,
        updated_at: i64,
    },
    UpdateMeta {
        name: String,
        expected_current: i32,
        set_description: Option<String>,
        set_rotation_interval_secs: Option<i64>,
        set_grace_secs: Option<i64>,
        next_rotation_at: NextRotation,
        updated_at: i64,
    },
    DeleteSecret { name: String },
    CreateRole { role: RoleRecord },
    SetPermissions { name: String, permissions: Vec<(String, String)> },
    DeleteRole { name: String },
    AddToken { token: TokenRecord },
    RevokeToken { name: String, revoked_at: i64 },
    TouchToken { fingerprint: Vec<u8>, at: i64 },
    ExpireGraceVersions { now: i64 },
    RewrapVersion {
        name: String,
        version: i32,
        kms_key_id: String,
        wrapped_dek: Vec<u8>,
        wrapped_rotation_at: i64,
    },
    SetKmsRewrapState { state: KmsRewrapState },
    AppendAudit { entry: AuditEntry },
    RecordAuthFailure { ip: String, now: i64, max: u32, window_secs: i64, lockout_secs: i64 },
}

/// What a command changes about a secret besides its versions.
pub struct MetaChange {
    pub description: Option<Seq<char>>,
    pub rotation_interval_secs: Option<i64>,
    pub grace_secs: Option<i64>,
    pub next_rotation_at: NextRotation,
    pub updated_at: i64,
}

#[allow(inconsistent_fields)]
pub enum CommandView {
    CreateSecret { secret: SecretView, version: VersionView },
    PutVersion {
        name: Seq<char>,
        expected_current: i32,
        version: VersionView,
        supersede_expires_at: Option<i64>,
        meta: MetaChange,
    },
    UpdateMeta { name: Seq<char>, expected_current: i32, meta: MetaChange },
    DeleteSecret { name: Seq<char> },
    CreateRole { role: RoleView },
    SetPermissions { name: Seq<char>, permissions: Seq<(Seq<char>, Seq<char>)> },
    DeleteRole { name: Seq<char> },
    AddToken { token: TokenView },
    RevokeToken { name: Seq<char>, revoked_at: i64 },
    TouchToken { fingerprint: Seq<u8>, at: i64 },
    ExpireGraceVersions { now: i64 },
    RewrapVersion {
        name: Seq<char>,
        version: i32,
        kms_key_id: Seq<char>,
        wrapped_dek: Seq<u8>,
        wrapped_rotation_at: i64,
    },
    SetKmsRewrapState { state: KmsRewrapState },
    AppendAudit { entry: AuditView },
    RecordAuthFailure { ip: Seq<char>, now: i64, max: u32, window_secs: i64, lockout_secs: i64 },
}

impl View for Command {
    type V = CommandView;

    open spec fn view(&self) -> CommandView {
        match self {
            Command::CreateSecret { secret, version } => CommandView::CreateSecret {
                secret: secret@,
                version: version@,
            },
            Command::PutVersion {
                name,
                expected_current,
                version,
                supersede_expires_at,
                set_description,
                set_rotation_interval_secs,
                set_grace_secs,
                next_rotation_at,
                updated_at,
            } => CommandView::PutVersion {
                name: name@,
                expected_current: *expected_current,
                version: version@,
                supersede_expires_at: *supersede_expires_at,
                meta: MetaChange {
                    description: set_description.deep_view(),
                    rotation_interval_secs: *set_rotation_interval_secs,
                    grace_secs: *set_grace_secs,
                    next_rotation_at: *next_rotation_at,
                    updated_at: *updated_at,
                },
            },
            Command::UpdateMeta {
                name,
                expected_current,
                set_description,
                set_rotation_interval_secs,
                set_grace_secs,
                next_rotation_at,
                updated_at,
            } => CommandView::UpdateMeta {
                name: name@,
                expected_current: *expected_current,
                meta: MetaChange {
                    description: set_description.deep_view(),
                    rotation_interval_secs: *set_rotation_interval_secs,
                    grace_secs: *set_grace_secs,
                    next_rotation_at: *next_rotation_at,
                    updated_at: *updated_at,
                },
            },
            Command::DeleteSecret { name } => CommandView::DeleteSecret { name: name@ },
            Command::CreateRole { role } => CommandView::CreateRole { role: role@ },
            Command::SetPermissions { name, permissions } => CommandView::SetPermissions {
                name: name@,
                permissions: permissions.deep_view(),
            },
            Command::DeleteRole { name } => CommandView::DeleteRole { name: name@ },
            Command::AddToken { token } => CommandView::AddToken { token: token@ },
            Command::RevokeToken { name, revoked_at } => CommandView::RevokeToken {
                name: name@,
                revoked_at: *revoked_at,
            },
            Command::TouchToken { fingerprint, at } => CommandView::TouchToken {
                fingerprint: fingerprint@,
                at: *at,
            },
            Command::ExpireGraceVersions { now } => CommandView::ExpireGraceVersions { now: *now },
            Command::RewrapVersion {
                name,
                version,
                kms_key_id,
                wrapped_dek,
                wrapped_rotation_at,
            } => CommandView::RewrapVersion {
                name: name@,
                version: *version,
                kms_key_id: kms_key_id@,
                wrapped_dek: wrapped_dek@,
                wrapped_rotation_at: *wrapped_rotation_at,
            },
            Command::SetKmsRewrapState { state } => CommandView::SetKmsRewrapState {
                state: *state,
            },
            Command::AppendAudit { entry } => CommandView::AppendAudit { entry: entry@ },
            Command::RecordAuthFailure { ip, now, max, window_secs, lockout_secs } =>
                CommandView::RecordAuthFailure {
                ip: ip@,
                now: *now,
                max: *max,
                window_secs: *window_secs,
                lockout_secs: *lockout_secs,
            },
        }
    }
}

impl Clone for Command {
    fn clone(&self) -> (r: Self)
        ensures
            r@ == self@,
    {
        match self {
            Command::CreateSecret { secret, version } => Command::CreateSecret {
                secret: secret.clone(),
                version: version.clone(),
            },
            Command::PutVersion {
                name,
                expected_current,
                version,
                supersede_expires_at,
                set_description,
                set_rotation_interval_secs,
                set_grace_secs,
                next_rotation_at,
                updated_at,
            } => Command::PutVersion {
                name: name.clone(),
                expected_current: *expected_current,
                version: version.clone(),
                supersede_expires_at: *supersede_expires_at,
                set_description: clone_text(set_description),
                set_rotation_interval_secs: *set_rotation_interval_secs,
                set_grace_secs: *set_grace_secs,
                next_rotation_at: *next_rotation_at,
                updated_at: *updated_at,
            },
            Command::UpdateMeta {
                name,
                expected_current,
                set_description,
                set_rotation_interval_secs,
                set_grace_secs,
                next_rotation_at,
                updated_at,
            } => Command::UpdateMeta {
                name: name.clone(),
                expected_current: *expected_current,
                set_description: clone_text(set_description),
                set_rotation_interval_secs: *set_rotation_interval_secs,
                set_grace_secs: *set_grace_secs,
                next_rotation_at: *next_rotation_at,
                updated_at: *updated_at,
            },
            Command::DeleteSecret { name } => Command::DeleteSecret { name: name.clone() },
            Command::CreateRole { role } => Command::CreateRole { role: role.clone() },
            Command::SetPermissions { name, permissions } => Command::SetPermissions {
                name: name.clone(),
                permissions: clone_pairs(permissions),
            },
            Command::DeleteRole { name } => Command::DeleteRole { name: name.clone() },
            Command::AddToken { token } => Command::AddToken { token: token.clone() },
            Command::RevokeToken { name, revoked_at } => Command::RevokeToken {
                name: name.clone(),
                revoked_at: *revoked_at,
            },
            Command::TouchToken { fingerprint, at } => Command::TouchToken {
                fingerprint: clone_bytes(fingerprint.as_slice()),
                at: *at,
            },
            Command::ExpireGraceVersions { now } => Command::ExpireGraceVersions { now: *now },
            Command::RewrapVersion {
                name,
                version,
                kms_key_id,
                wrapped_dek,
                wrapped_rotation_at,
            } => Command::RewrapVersion {
                name: name.clone(),
                version: *version,
                kms_key_id: kms_key_id.clone(),
                wrapped_dek: clone_bytes(wrapped_dek.as_slice()),
                wrapped_rotation_at: *wrapped_rotation_at,
            },
            Command::SetKmsRewrapState { state } => Command::SetKmsRewrapState { state: *state },
            Command::AppendAudit { entry } => Command::AppendAudit { entry: entry.clone() },
            Command::RecordAuthFailure { ip, now, max, window_secs, lockout_secs } =>
                Command::RecordAuthFailure {
                ip: ip.clone(),
                now: *now,
                max: *max,
                window_secs: *window_secs,
                lockout_secs: *lockout_secs,
            },
        }
    }
}

impl Command {
    /// Whether a command concerns this node alone and is not replicated: the audit log and the
    /// count of failed attempts are kept per node.
    pub fn is_local(&self) -> (r: bool)
        ensures
            r == (self is AppendAudit || self is RecordAuthFailure),
    {
        match self {
            Command::AppendAudit { .. } => true,
            Command::RecordAuthFailure { .. } => true,
            _ => false,
        }
    }
}

impl Duplicate for SecretRecord {
    fn duplicate(&self) -> (r: SecretRecord) {
        self.clone()
    }
}

impl Duplicate for VersionRecord {
    fn duplicate(&self) -> (r: VersionRecord) {
        self.clone()
    }
}

impl Duplicate for RoleRecord {
    fn duplicate(&self) -> (r: RoleRecord) {
        self.clone()
    }
}

impl Duplicate for TokenRecord {
    fn duplicate(&self) -> (r: TokenRecord) {
        self.clone()
    }
}

impl Duplicate for AuditEntry {
    fn duplicate(&self) -> (r: AuditEntry) {
        self.clone()
    }
}

impl Duplicate for KmsRewrapState {
    fn duplicate(&self) -> (r: KmsRewrapState) {
        *self
    }
}

/// Why the store refuses a command or cannot answer.
#[derive(Debug)]
pub enum StoreError {
    NotFound,
    Conflict(String),
    VersionConflict,
    Internal(String),
}

pub enum StoreErrorView {
    NotFound,
    Conflict(Seq<char>),
    VersionConflict,
    Internal(Seq<char>),
}

impl View for StoreError {
    type V = StoreErrorView;

    open spec fn view(&self) -> StoreErrorView {
        match self {
            StoreError::NotFound => StoreErrorView::NotFound,
            StoreError::Conflict(message) => StoreErrorView::Conflict(message@),
            StoreError::VersionConflict => StoreErrorView::VersionConflict,
            StoreError::Internal(message) => StoreErrorView::Internal(message@),
        }
    }
}

pub open spec fn store_error_message(error: StoreErrorView) -> Seq<char> {
    match error {
        StoreErrorView::NotFound => "not found"@,
        StoreErrorView::Conflict(message) => message,
        StoreErrorView::VersionConflict => "write conflict; retry"@,
        StoreErrorView::Internal(message) => message,
    }
}

impl StoreError {
    /// The error in words.
    pub fn message(&self) -> (r: String)
        ensures
            r@ == store_error_message(self@),
    {
        match self {
            StoreError::NotFound => "not found".to_owned(),
            StoreError::Conflict(message) => message.clone(),
            StoreError::VersionConflict => "write conflict; retry".to_owned(),
            StoreError::Internal(message) => message.clone(),
        }
    }
}

pub type StoreResult<T> = std::result::Result<T, StoreError>;

} // verus!

//! What clients send and get.

use vstd::prelude::*;
use crate::types::{SecretFormat, SecretKind};

verus! {

/// A request to create a secret.
pub struct CreateSecretRequest {
    pub name: String,
    pub kind: SecretKind,
    pub value: Option<String>,
    pub username: Option<String>,
    pub password: Option<String>,
    pub description: Option<String>,
    pub rotation_interval_secs: Option<i64>,
    pub grace_period_secs: Option<i64>,
}

/// A request to change a secret; what is absent stays.
pub struct UpdateSecretRequest {
    pub value: Option<String>,
    pub username: Option<String>,
    pub password: Option<String>,
    pub description: Option<String>,
    pub rotation_interval_secs: Option<i64>,
    pub grace_period_secs: Option<i64>,
}

/// A value to hold against the valid versions of a secret.
pub struct VerifyRequest {
    pub value: String,
}

/// The names of secrets to read at once.
pub struct BatchGetRequest {
    pub names: Vec<String>,
}

/// A user name with its password.
pub struct UserPass {
    pub username: String,
    pub password: String,
}

/// A secret without its value.
pub struct SecretMetadata {
    pub name: String,
    pub kind: SecretKind,
    pub format: SecretFormat,
    pub description: Option<String>,
    pub version: i32,
    pub rotation_interval_secs: Option<i64>,
    pub grace_period_secs: i64,
    pub next_rotation_at: Option<String>,
    pub created_at: String,
    pub updated_at: String,
}

/// A secret with its value.
pub struct SecretValue {
    pub name: String,
    pub kind: SecretKind,
    pub format: SecretFormat,
    pub version: i32,
    pub value: Option<String>,
    pub username: Option<String>,
    pub password: Option<String>,
    pub created_at: String,
}

/// Whether a presented value is valid, and which version it is.
pub struct VerifyResponse {
    pub valid: bool,
    pub version: Option<i32>,
}

/// A rule of a role.
pub struct PermissionRule {
    pub action: String,
    pub path: String,
}

/// A request to create a role.
pub struct CreateRoleRequest {
    pub name: String,
    pub description: Option<String>,
    pub is_admin: bool,
    pub permissions: Vec<PermissionRule>,
}

/// The rules that a role is to have.
pub struct SetPermissionsRequest {
    pub permissions: Vec<PermissionRule>,
}

/// A role as clients see it.
pub struct RoleInfo {
    pub name: String,
    pub description: Option<String>,
    pub is_admin: bool,
    pub permissions: Vec<PermissionRule>,
    pub created_at: String,
}

/// A request to create a token.
pub struct CreateTokenRequest {
    pub name: String,
    pub role: String,
}

/// A new token, told this once.
pub struct TokenCreated {
    pub name: String,
    pub role: String,
    pub token: String,
}

/// A token as clients see it later.
pub struct TokenInfo {
    pub name: String,
    pub role: Option<String>,
    pub created_at: String,
    pub last_used_at: Option<String>,
    pub revoked_at: Option<String>,
}

/// What a pass over the wrapped data keys did.
pub struct RewrapRunResponse {
    pub scanned: usize,
    pub rewrapped: usize,
    pub failed: usize,
    pub target_rotation_at: Option<String>,
}

/// How far the wrapped data keys are behind the rotation of the wrapping key.
pub struct RewrapStatusResponse {
    pub enabled: bool,
    pub busy: bool,
    pub last_completed_rotation_at: Option<String>,
    pub latest_rotation_at: Option<String>,
    pub total_versions: usize,
    pub pending_versions: usize,
}

/// The rules of a role, each as a pair of action and path.
pub open spec fn rule_pairs(rules: Seq<PermissionRule>) -> Seq<(Seq<char>, Seq<char>)> {
    Seq::new(rules.len(), |i: int| (rules[i].action@, rules[i].path@))
}

} // verus!

//! Applying commands: every change of the stored state goes through `apply_command`.

use vstd::prelude::*;
use crate::text::{clone_bytes, concat3, str_eq};
use super::keys::{
    belongs_to, key_of, law_range_is_prefix, version_key, version_lower, version_upper,
};
use super::model::{
    clone_pairs, AuditView, Command, CommandView, LockoutRecord, MetaChange, NextRotation, RoleView,
    SecretRecord, SecretView, StoreError, StoreErrorView, StoreResult, TokenRecord, TokenView,
    VersionRecord, VersionView,
};
use super::table::{ascending, lemma_ordered_has, ordered, rows_map, Table};
use super::tables::{
    differ_only_in, names_row, same_row, RowRef, RowRefView, StoreView, Tables,
    KMS_REWRAP_STATE_KEY,
};

verus! {

/// A secret after a change of its metadata: what the change names is replaced, the rest stays.
pub open spec fn with_meta(secret: SecretView, meta: MetaChange) -> SecretView {
    SecretView {
        description: match meta.description {
            Some(description) => Some(description),
            None => secret.description,
        },
        rotation_interval_secs: match meta.rotation_interval_secs {
            Some(secs) => Some(secs),
            None => secret.rotation_interval_secs,
        },
        grace_secs: match meta.grace_secs {
            Some(secs) => secs,
            None => secret.grace_secs,
        },
        next_rotation_at: match meta.next_rotation_at {
            NextRotation::SetTo(at) => at,
            NextRotation::Keep => secret.next_rotation_at,
        },
        updated_at: meta.updated_at,
        ..secret
    }
}

/// The version table after a new version: the new row is stored, and the row of the version it
/// supersedes gets an expiry unless it has one.
pub open spec fn with_version(
    versions: Map<Seq<char>, VersionView>,
    name: Seq<char>,
    superseded: int,
    version: VersionView,
    expires_at: Option<i64>,
) -> Map<Seq<char>, VersionView> {
    let put = versions.insert(key_of(name, version.version as int), version);
    let old_key = key_of(name, superseded);
    if expires_at is Some && put.contains_key(old_key) && put[old_key].expires_at is None {
        put.insert(old_key, VersionView { expires_at, ..put[old_key] })
    } else {
        put
    }
}

/// Whether a version has expired by `now`.
pub open spec fn expired(version: VersionView, now: int) -> bool {
    version.expires_at is Some && version.expires_at->0 <= now
}

/// Whether some token is mapped to the role `name`.
pub open spec fn role_in_use(tokens: Map<Seq<u8>, TokenView>, name: Seq<char>) -> bool {
    exists|key: Seq<u8>| #[trigger] tokens.contains_key(key) && tokens[key].role == Some(name)
}

/// The key of the next audit entry: one past the last.
pub open spec fn next_audit_key(audit: Map<u64, AuditView>) -> int {
    let rows = ordered::<u64, AuditView>(audit);
    if rows.len() == 0 {
        0
    } else {
        rows.last().0 + 1
    }
}

/// The failures of a client in the window that `now` falls into, before another one.
pub open spec fn window_at(prior: Option<LockoutRecord>, now: i64, window_secs: i64) -> LockoutRecord {
    match prior {
        None => LockoutRecord { failures: 0, window_start: now, locked_until: None },
        Some(record) => if now - record.window_start >= window_secs {
            LockoutRecord { failures: 0, window_start: now, ..record }
        } else {
            record
        },
    }
}

/// The record of a client after another failure at `now`: the count goes up by one, and from the
/// `max`th failure of a window on the client is locked out for `lockout_secs`.
pub open spec fn after_failure(
    prior: Option<LockoutRecord>,
    now: i64,
    max: u32,
    window_secs: i64,
    lockout_secs: i64,
) -> LockoutRecord {
    let current = window_at(prior, now, window_secs);
    let failures = (current.failures + 1) as u32;
    LockoutRecord {
        failures,
        window_start: current.window_start,
        locked_until: if failures >= max {
            Some((now + lockout_secs) as i64)
        } else {
            current.locked_until
        },
    }
}

/// The row of a table, if there is one.
pub open spec fn row_of<A, B>(table: Map<A, B>, key: A) -> Option<B> {
    if table.contains_key(key) {
        Some(table[key])
    } else {
        None
    }
}

/// Whether applying a command stays within the range of its counters and times.
pub open spec fn command_fits(state: StoreView, command: CommandView) -> bool {
    match command {
        CommandView::AppendAudit { entry } => next_audit_key(state.audit) <= u64::MAX,
        CommandView::RecordAuthFailure { ip, now, max, window_secs, lockout_secs } => {
            let prior = row_of(state.lockouts, ip);
            let current = window_at(prior, now, window_secs);
            &&& prior is Some ==> i64::MIN <= now - prior->0.window_start <= i64::MAX
            &&& current.failures < u32::MAX
            &&& current.failures + 1 >= max ==> i64::MIN <= now + lockout_secs <= i64::MAX
        },
        _ => true,
    }
}

/// What a command does to a state: the state it leads to, or why it is refused.
pub open spec fn outcome(
    state: StoreView,
    node_id: u64,
    command: CommandView,
) -> Result<StoreView, StoreErrorView> {
    match command {
        CommandView::CreateSecret { secret, version } => if state.secrets.contains_key(
            secret.name,
        ) {
            Err(
                StoreErrorView::Conflict("secret '"@ + secret.name + "' already exists"@),
            )
        } else {
            Ok(
                StoreView {
                    secrets: state.secrets.insert(secret.name, secret),
                    versions: state.versions.insert(
                        key_of(secret.name, version.version as int),
                        version,
                    ),
                    ..state
                },
            )
        },
        CommandView::PutVersion { name, expected_current, version, supersede_expires_at, meta } =>
            if !state.secrets.contains_key(name) {
            Err(StoreErrorView::NotFound)
        } else if state.secrets[name].current_version != expected_current {
            Err(StoreErrorView::VersionConflict)
        } else {
            Ok(
                StoreView {
                    secrets: state.secrets.insert(
                        name,
                        with_meta(
                            SecretView { current_version: version.version, ..state.secrets[name] },
                            meta,
                        ),
                    ),
                    versions: with_version(
                        state.versions,
                        name,
                        expected_current as int,
                        version,
                        supersede_expires_at,
                    ),
                    ..state
                },
            )
        },
        CommandView::UpdateMeta { name, expected_current, meta } => if !state.secrets.contains_key(
            name,
        ) {
            Err(StoreErrorView::NotFound)
        } else if state.secrets[name].current_version != expected_current {
            Err(StoreErrorView::VersionConflict)
        } else {
            Ok(
                StoreView {
                    secrets: state.secrets.insert(name, with_meta(state.secrets[name], meta)),
                    ..state
                },
            )
        },
        CommandView::DeleteSecret { name } => if !state.secrets.contains_key(name) {
            Err(StoreErrorView::NotFound)
        } else {
            Ok(
                StoreView {
                    secrets: state.secrets.remove(name),
                    versions: state.versions.remove_keys(
                        Set::new(|key: Seq<char>| belongs_to(key, name)),
                    ),
                    ..state
                },
            )
        },
        CommandView::CreateRole { role } => if state.roles.contains_key(role.name) {
            Err(
                StoreErrorView::Conflict("role '"@ + role.name + "' already exists"@),
            )
        } else {
            Ok(StoreView { roles: state.roles.insert(role.name, role), ..state })
        },
        CommandView::SetPermissions { name, permissions } => if !state.roles.contains_key(name) {
            Err(StoreErrorView::NotFound)
        } else {
            Ok(
                StoreView {
                    roles: state.roles.insert(
                        name,
                        RoleView { permissions, ..state.roles[name] },
                    ),
                    ..state
                },
            )
        },
        CommandView::DeleteRole { name } => if role_in_use(state.tokens, name) {
            Err(
                StoreErrorView::Conflict(
                    "role '"@ + name + "' still has tokens; revoke/remove them first"@,
                ),
            )
        } else if !state.roles.contains_key(name) {
            Err(StoreErrorView::NotFound)
        } else {
            Ok(StoreView { roles: state.roles.remove(name), ..state })
        },
        CommandView::AddToken { token } => if state.tokens_by_name.contains_key(token.name) {
            Err(
                StoreErrorView::Conflict("token '"@ + token.name + "' already exists"@),
            )
        } else {
            Ok(
                StoreView {
                    tokens_by_name: state.tokens_by_name.insert(token.name, token.fingerprint),
                    tokens: state.tokens.insert(token.fingerprint, token),
                    ..state
                },
            )
        },
        CommandView::RevokeToken { name, revoked_at } => if !state.tokens_by_name.contains_key(
            name,
        ) {
            Err(StoreErrorView::NotFound)
        } else {
            let fingerprint = state.tokens_by_name[name];
            if !state.tokens.contains_key(fingerprint) {
                Err(StoreErrorView::NotFound)
            } else if state.tokens[fingerprint].revoked_at is Some {
                Err(StoreErrorView::NotFound)
            } else {
                Ok(
                    StoreView {
                        tokens: state.tokens.insert(
                            fingerprint,
                            TokenView { revoked_at: Some(revoked_at), ..state.tokens[fingerprint] },
                        ),
                        ..state
                    },
                )
            }
        },
        CommandView::TouchToken { fingerprint, at } => if !state.tokens.contains_key(fingerprint) {
            Ok(state)
        } else {
            Ok(
                StoreView {
                    tokens: state.tokens.insert(
                        fingerprint,
                        TokenView { last_used_at: Some(at), ..state.tokens[fingerprint] },
                    ),
                    ..state
                },
            )
        },
        CommandView::ExpireGraceVersions { now } => Ok(
            StoreView {
                versions: state.versions.remove_keys(
                    Set::new(
                        |key: Seq<char>|
                            state.versions.contains_key(key) && expired(
                                state.versions[key],
                                now as int,
                            ),
                    ),
                ),
                ..state
            },
        ),
        CommandView::RewrapVersion {
            name,
            version,
            kms_key_id,
            wrapped_dek,
            wrapped_rotation_at,
        } => {
            let key = key_of(name, version as int);
            if !state.versions.contains_key(key) {
                Err(StoreErrorView::NotFound)
            } else {
                Ok(
                    StoreView {
                        versions: state.versions.insert(
                            key,
                            VersionView {
                                kms_key_id,
                                wrapped_dek,
                                wrapped_rotation_at: Some(wrapped_rotation_at),
                                ..state.versions[key]
                            },
                        ),
                        ..state
                    },
                )
            }
        },
        CommandView::SetKmsRewrapState { state: rewrap } => Ok(
            StoreView {
                kms_rewrap: state.kms_rewrap.insert(KMS_REWRAP_STATE_KEY@, rewrap),
                ..state
            },
        ),
        CommandView::AppendAudit { entry } => Ok(
            StoreView {
                audit: state.audit.insert(
                    next_audit_key(state.audit) as u64,
                    AuditView { node_id, ..entry },
                ),
                ..state
            },
        ),
        CommandView::RecordAuthFailure { ip, now, max, window_secs, lockout_secs } => Ok(
            StoreView {
                lockouts: state.lockouts.insert(
                    ip,
                    after_failure(
                        row_of(state.lockouts, ip),
                        now,
                        max,
                        window_secs,
                        lockout_secs,
                    ),
                ),
                ..state
            },
        ),
    }
}

/// Whether a command was carried out as `expected` says: on success the new state is the expected
/// one and the rows returned name everything that changed, on refusal nothing has changed.
pub open spec fn carried_out(
    before: StoreView,
    expected: Result<StoreView, StoreErrorView>,
    answer: StoreResult<Vec<RowRef>>,
    after: StoreView,
) -> bool {
    match answer {
        Ok(rows) => expected == Ok::<StoreView, StoreErrorView>(after) && differ_only_in(
            before,
            after,
            rows@,
        ),
        Err(error) => expected == Err::<StoreView, StoreErrorView>(error@) && after == before,
    }
}

/// Applies a command to the tables. On success the rows returned are those that a copy of the
/// tables has to take over; a refused command changes nothing.
pub fn apply_command(tables: &mut Tables, node_id: u64, command: &Command) -> (r: StoreResult<
    Vec<RowRef>,
>)
    requires
        command_fits(old(tables)@, command@),
    ensures
        carried_out(old(tables)@, outcome(old(tables)@, node_id, command@), r, final(tables)@),
{
    match command {
        Command::CreateSecret { secret, version } => create_secret(tables, node_id, secret, version),
        Command::PutVersion {
            name,
            expected_current,
            version,
            supersede_expires_at,
            set_description,
            set_rotation_interval_secs,
            set_grace_secs,
            next_rotation_at,
            updated_at,
        } => {
            let ghost meta = MetaChange {
                description: set_description.deep_view(),
                rotation_interval_secs: *set_rotation_interval_secs,
                grace_secs: *set_grace_secs,
                next_rotation_at: *next_rotation_at,
                updated_at: *updated_at,
            };
            let mut secret = match tables.secrets.get(name) {
                Some(secret) => secret.clone(),
                None => return Err(StoreError::NotFound),
            };
            if secret.current_version != *expected_current {
                return Err(StoreError::VersionConflict);
            }
            put_version_rows(tables, name, *expected_current, version, *supersede_expires_at);
            let ghost s = secret@;
            secret.current_version = version.version;
            assert(secret@ == (SecretView { current_version: version.version, ..s }));
            apply_meta(
                &mut secret,
                set_description,
                set_rotation_interval_secs,
                set_grace_secs,
                next_rotation_at,
                *updated_at,
            );
            tables.secrets.insert(name.clone(), secret);
            let mut rows: Vec<RowRef> = Vec::new();
            rows.push(RowRef::Secret(name.clone()));
            rows.push(RowRef::Version(version_key(name.as_str(), version.version)));
            rows.push(RowRef::Version(version_key(name.as_str(), *expected_current)));
            assert(rows@[0]@ == RowRefView::Secret(name@));
            assert(rows@[1]@ == RowRefView::Version(key_of(name@, version.version as int)));
            assert(rows@[2]@ == RowRefView::Version(key_of(name@, *expected_current as int)));
            Ok(rows)
        },
        Command::UpdateMeta {
            name,
            expected_current,
            set_description,
            set_rotation_interval_secs,
            set_grace_secs,
            next_rotation_at,
            updated_at,
        } => {
            let mut secret = match tables.secrets.get(name) {
                Some(secret) => secret.clone(),
                None => return Err(StoreError::NotFound),
            };
            if secret.current_version != *expected_current {
                return Err(StoreError::VersionConflict);
            }
            apply_meta(
                &mut secret,
                set_description,
                set_rotation_interval_secs,
                set_grace_secs,
                next_rotation_at,
                *updated_at,
            );
            tables.secrets.insert(name.clone(), secret);
            let mut rows: Vec<RowRef> = Vec::new();
            rows.push(RowRef::Secret(name.clone()));
            assert(rows@[0]@ == RowRefView::Secret(name@));
            Ok(rows)
        },
        Command::DeleteSecret { name } => delete_secret(tables, node_id, name),
        Command::CreateRole { role } => {
            if tables.roles.contains(&role.name) {
                return Err(
                    StoreError::Conflict(
                        concat3("role '", role.name.as_str(), "' already exists"),
                    ),
                );
            }
            tables.roles.insert(role.name.clone(), role.clone());
            let mut rows: Vec<RowRef> = Vec::new();
            rows.push(RowRef::Role(role.name.clone()));
            assert(rows@[0]@ == RowRefView::Role(role.name@));
            Ok(rows)
        },
        Command::SetPermissions { name, permissions } => {
            let mut role = match tables.roles.get(name) {
                Some(role) => role.clone(),
                None => return Err(StoreError::NotFound),
            };
            role.permissions = clone_pairs(permissions);
            tables.roles.insert(name.clone(), role);
            let mut rows: Vec<RowRef> = Vec::new();
            rows.push(RowRef::Role(name.clone()));
            assert(rows@[0]@ == RowRefView::Role(name@));
            Ok(rows)
        },
        Command::DeleteRole { name } => {
            if has_tokens(&tables.tokens, name) {
                return Err(
                    StoreError::Conflict(
                        concat3(
                            "role '",
                            name.as_str(),
                            "' still has tokens; revoke/remove them first",
                        ),
                    ),
                );
            }
            if !tables.roles.remove(name) {
                assert(tables@.roles =~= old(tables)@.roles);
                return Err(StoreError::NotFound);
            }
            let mut rows: Vec<RowRef> = Vec::new();
            rows.push(RowRef::Role(name.clone()));
            assert(rows@[0]@ == RowRefView::Role(name@));
            Ok(rows)
        },
        Command::AddToken { token } => {
            if tables.tokens_by_name.contains(&token.name) {
                return Err(
                    StoreError::Conflict(
                        concat3("token '", token.name.as_str(), "' already exists"),
                    ),
                );
            }
            tables.tokens_by_name.insert(
                token.name.clone(),
                clone_bytes(token.fingerprint.as_slice()),
            );
            tables.tokens.insert(clone_bytes(token.fingerprint.as_slice()), token.clone());
            let mut rows: Vec<RowRef> = Vec::new();
            rows.push(RowRef::TokenName(token.name.clone()));
            rows.push(RowRef::Token(clone_bytes(token.fingerprint.as_slice())));
            assert(rows@[0]@ == RowRefView::TokenName(token.name@));
            assert(rows@[1]@ == RowRefView::Token(token.fingerprint@));
            Ok(rows)
        },
        Command::RevokeToken { name, revoked_at } => {
            let fingerprint = match tables.tokens_by_name.get(name) {
                Some(fingerprint) => clone_bytes(fingerprint.as_slice()),
                None => return Err(StoreError::NotFound),
            };
            let mut token = match tables.tokens.get(&fingerprint) {
                Some(token) => token.clone(),
                None => return Err(StoreError::NotFound),
            };
            if token.revoked_at.is_some() {
                return Err(StoreError::NotFound);
            }
            token.revoked_at = Some(*revoked_at);
            let mut rows: Vec<RowRef> = Vec::new();
            rows.push(RowRef::Token(clone_bytes(fingerprint.as_slice())));
            assert(rows@[0]@ == RowRefView::Token(fingerprint@));
            tables.tokens.insert(fingerprint, token);
            Ok(rows)
        },
        Command::TouchToken { fingerprint, at } => {
            let mut rows: Vec<RowRef> = Vec::new();
            let found = match tables.tokens.get(fingerprint) {
                Some(token) => Some(token.clone()),
                None => None,
            };
            if let Some(mut token) = found {
                token.last_used_at = Some(*at);
                tables.tokens.insert(clone_bytes(fingerprint.as_slice()), token);
                rows.push(RowRef::Token(clone_bytes(fingerprint.as_slice())));
                assert(rows@[0]@ == RowRefView::Token(fingerprint@));
            }
            Ok(rows)
        },
        Command::ExpireGraceVersions { now } => expire_versions(tables, node_id, *now),
        Command::RewrapVersion {
            name,
            version,
            kms_key_id,
            wrapped_dek,
            wrapped_rotation_at,
        } => {
            let key = version_key(name.as_str(), *version);
            let mut record = match tables.versions.get(&key) {
                Some(record) => record.clone(),
                None => return Err(StoreError::NotFound),
            };
            record.kms_key_id = kms_key_id.clone();
            record.wrapped_dek = clone_bytes(wrapped_dek.as_slice());
            record.wrapped_rotation_at = Some(*wrapped_rotation_at);
            let mut rows: Vec<RowRef> = Vec::new();
            rows.push(RowRef::Version(key.clone()));
            assert(rows@[0]@ == RowRefView::Version(key@));
            tables.versions.insert(key, record);
            Ok(rows)
        },
        Command::SetKmsRewrapState { state } => {
            tables.kms_rewrap.insert(KMS_REWRAP_STATE_KEY.to_owned(), *state);
            let mut rows: Vec<RowRef> = Vec::new();
            rows.push(RowRef::KmsRewrap(KMS_REWRAP_STATE_KEY.to_owned()));
            assert(rows@[0]@ == RowRefView::KmsRewrap(KMS_REWRAP_STATE_KEY@));
            Ok(rows)
        },
        Command::AppendAudit { entry } => {
            let count = tables.audit.len();
            let next: u64 = if count == 0 {
                0
            } else {
                tables.audit.row(count - 1).key + 1
            };
            let mut entry = entry.clone();
            entry.node_id = node_id;
            tables.audit.insert(next, entry);
            let mut rows: Vec<RowRef> = Vec::new();
            rows.push(RowRef::Audit(next));
            assert(rows@[0]@ == RowRefView::Audit(next));
            Ok(rows)
        },
        Command::RecordAuthFailure { ip, now, max, window_secs, lockout_secs } => {
            let mut record = match tables.lockouts.get(ip) {
                Some(record) => *record,
                None => LockoutRecord { failures: 0, window_start: *now, locked_until: None },
            };
            if *now - record.window_start >= *window_secs {
                record.failures = 0;
                record.window_start = *now;
            }
            record.failures = record.failures + 1;
            if record.failures >= *max {
                record.locked_until = Some(*now + *lockout_secs);
            }
            tables.lockouts.insert(ip.clone(), record);
            let mut rows: Vec<RowRef> = Vec::new();
            rows.push(RowRef::Lockout(ip.clone()));
            assert(rows@[0]@ == RowRefView::Lockout(ip@));
            Ok(rows)
        },
    }
}

/// Whether applying a command stays within the range of its counters and times.
pub fn fits(tables: &Tables, command: &Command) -> (r: bool)
    ensures
        r == command_fits(tables@, command@),
{
    match command {
        Command::AppendAudit { .. } => {
            let count = tables.audit.len();
            count == 0 || tables.audit.row(count - 1).key < u64::MAX
        },
        Command::RecordAuthFailure { ip, now, max, window_secs, lockout_secs } => {
            let mut failures: u32 = 0;
            if let Some(record) = tables.lockouts.get(ip) {
                match now.checked_sub(record.window_start) {
                    Some(elapsed) => if elapsed < *window_secs {
                        failures = record.failures;
                    },
                    None => return false,
                }
            }
            if failures == u32::MAX {
                return false;
            }
            failures + 1 < *max || now.checked_add(*lockout_secs).is_some()
        },
        _ => true,
    }
}

fn create_secret(
    tables: &mut Tables,
    node_id: u64,
    secret: &SecretRecord,
    version: &VersionRecord,
) -> (r: StoreResult<Vec<RowRef>>)
    ensures
        carried_out(
            old(tables)@,
            outcome(
                old(tables)@,
                node_id,
                CommandView::CreateSecret { secret: secret@, version: version@ },
            ),
            r,
            final(tables)@,
        ),
{
    if tables.secrets.contains(&secret.name) {
        return Err(
            StoreError::Conflict(concat3("secret '", secret.name.as_str(), "' already exists")),
        );
    }
    let key = version_key(secret.name.as_str(), version.version);
    let mut rows: Vec<RowRef> = Vec::new();
    rows.push(RowRef::Secret(secret.name.clone()));
    rows.push(RowRef::Version(key.clone()));
    assert(rows@[0]@ == RowRefView::Secret(secret.name@));
    assert(rows@[1]@ == RowRefView::Version(key@));
    tables.secrets.insert(secret.name.clone(), secret.clone());
    tables.versions.insert(key, version.clone());
    Ok(rows)
}

/// Stores a new version and dates the version that it supersedes.
fn put_version_rows(
    tables: &mut Tables,
    name: &String,
    superseded: i32,
    version: &VersionRecord,
    expires_at: Option<i64>,
)
    ensures
        final(tables)@ == (StoreView {
            versions: with_version(
                old(tables)@.versions,
                name@,
                superseded as int,
                version@,
                expires_at,
            ),
            ..old(tables)@
        }),
{
    tables.versions.insert(version_key(name.as_str(), version.version), version.clone());
    if let Some(expiry) = expires_at {
        let old_key = version_key(name.as_str(), superseded);
        let found = match tables.versions.get(&old_key) {
            Some(record) => Some(record.clone()),
            None => None,
        };
        if let Some(mut record) = found {
            if record.expires_at.is_none() {
                record.expires_at = Some(expiry);
                tables.versions.insert(old_key, record);
            }
        }
    }
}

fn apply_meta(
    secret: &mut SecretRecord,
    set_description: &Option<String>,
    set_rotation_interval_secs: &Option<i64>,
    set_grace_secs: &Option<i64>,
    next_rotation_at: &NextRotation,
    updated_at: i64,
)
    ensures
        final(secret)@ == with_meta(
            old(secret)@,
            MetaChange {
                description: set_description.deep_view(),
                rotation_interval_secs: *set_rotation_interval_secs,
                grace_secs: *set_grace_secs,
                next_rotation_at: *next_rotation_at,
                updated_at,
            },
        ),
{
    if let Some(description) = set_description {
        secret.description = Some(description.clone());
    }
    if let Some(interval) = set_rotation_interval_secs {
        secret.rotation_interval_secs = Some(*interval);
    }
    if let Some(grace) = set_grace_secs {
        secret.grace_secs = *grace;
    }
    if let NextRotation::SetTo(value) = next_rotation_at {
        secret.next_rotation_at = *value;
    }
    secret.updated_at = updated_at;
}

/// Whether some token is mapped to the role.
fn has_tokens(tokens: &Table<Vec<u8>, TokenRecord>, role: &String) -> (r: bool)
    ensures
        r == role_in_use(tokens@, role@),
{
    let count = tokens.len();
    let ghost rows = ordered::<Vec<u8>, TokenView>(tokens@);
    let mut i: usize = 0;
    while i < count
        invariant
            i <= count,
            count == rows.len(),
            rows == ordered::<Vec<u8>, TokenView>(tokens@),
            ascending::<Vec<u8>, TokenView>(rows),
            rows_map(rows) == tokens@,
            forall|j: int| 0 <= j < i ==> (#[trigger] rows[j]).1.role != Some(role@),
        decreases count - i,
    {
        let row = tokens.row(i);
        if let Some(name) = &row.value.role {
            if str_eq(name.as_str(), role.as_str()) {
                assert(tokens@.contains_key(row.key@));
                return true;
            }
        }
        i = i + 1;
    }
    proof {
        assert forall|key: Seq<u8>| #[trigger]
            tokens@.contains_key(key) implies tokens@[key].role != Some(role@) by {
            lemma_ordered_has::<Vec<u8>, TokenView>(tokens@, key);
            let j = choose|j: int| 0 <= j < rows.len() && (#[trigger] rows[j]).0 == key;
            assert(rows[j].1 == tokens@[key]);
        }
    }
    false
}

/// Removes the given keys from the version table.
fn remove_versions(tables: &mut Tables, keys: &Vec<String>)
    ensures
        final(tables)@ == (StoreView {
            versions: old(tables)@.versions.remove_keys(
                Set::new(
                    |key: Seq<char>|
                        exists|i: int| 0 <= i < keys@.len() && (#[trigger] keys@[i])@ == key,
                ),
            ),
            ..old(tables)@
        }),
{
    let ghost before = tables@;
    let mut i: usize = 0;
    assert(before.versions =~= before.versions.remove_keys(
        Set::new(|key: Seq<char>| exists|j: int| 0 <= j < 0 && (#[trigger] keys@[j])@ == key),
    ));
    while i < keys.len()
        invariant
            i <= keys@.len(),
            tables@ == (StoreView {
                versions: before.versions.remove_keys(
                    Set::new(
                        |key: Seq<char>|
                            exists|j: int| 0 <= j < i && (#[trigger] keys@[j])@ == key,
                    ),
                ),
                ..before
            }),
        decreases keys@.len() - i,
    {
        let ghost partial = tables@.versions;
        tables.versions.remove(&keys[i]);
        proof {
            let goal = before.versions.remove_keys(
                Set::new(
                    |key: Seq<char>|
                        exists|j: int| 0 <= j < i + 1 && (#[trigger] keys@[j])@ == key,
                ),
            );
            assert forall|key: Seq<char>| partial.remove(keys@[i as int]@).contains_key(key)
                == goal.contains_key(key) by {
                if exists|j: int| 0 <= j < i + 1 && (#[trigger] keys@[j])@ == key {
                    let j = choose|j: int| 0 <= j < i + 1 && (#[trigger] keys@[j])@ == key;
                    if j < i {
                        assert(0 <= j < i && keys@[j]@ == key);
                    }
                }
            }
            assert(tables@.versions =~= goal);
        }
        i = i + 1;
    }
}

fn delete_secret(tables: &mut Tables, node_id: u64, name: &String) -> (r: StoreResult<Vec<RowRef>>)
    ensures
        carried_out(
            old(tables)@,
            outcome(old(tables)@, node_id, CommandView::DeleteSecret { name: name@ }),
            r,
            final(tables)@,
        ),
{
    let ghost before = tables@;
    if !tables.secrets.remove(name) {
        assert(tables@.secrets =~= before.secrets);
        return Err(StoreError::NotFound);
    }
    let lower = version_lower(name.as_str());
    let upper = version_upper(name.as_str());
    tables.versions.len();
    let (from, to) = tables.versions.range(&lower, &upper);
    let ghost table = ordered::<String, VersionView>(before.versions);
    let mut keys: Vec<String> = Vec::new();
    let mut rows: Vec<RowRef> = Vec::new();
    rows.push(RowRef::Secret(name.clone()));
    assert(rows@[0]@ == RowRefView::Secret(name@));
    let mut i: usize = from;
    while i < to
        invariant
            from <= i <= to <= table.len(),
            table == ordered::<String, VersionView>(tables@.versions),
            keys@.len() == i - from,
            rows@.len() == i - from + 1,
            rows@[0]@ == RowRefView::Secret(name@),
            forall|j: int| 0 <= j < keys@.len() ==> (#[trigger] keys@[j])@ == table[from + j].0,
            forall|j: int|
                0 <= j < keys@.len() ==> (#[trigger] rows@[j + 1])@ == RowRefView::Version(
                    table[from + j].0,
                ),
        decreases to - i,
    {
        let key = &tables.versions.row(i).key;
        keys.push(key.clone());
        rows.push(RowRef::Version(key.clone()));
        i = i + 1;
    }
    remove_versions(tables, &keys);
    proof {
        let after = tables@;
        let goal = before.versions.remove_keys(
            Set::new(|key: Seq<char>| belongs_to(key, name@)),
        );
        assert forall|k: Seq<char>| after.versions.contains_key(k) == goal.contains_key(k) by {
            lemma_ordered_has::<String, VersionView>(before.versions, k);
            law_range_is_prefix(k, name@);
            if before.versions.contains_key(k) && belongs_to(k, name@) {
                let i = choose|i: int| 0 <= i < table.len() && (#[trigger] table[i]).0 == k;
                assert(keys@[i - from]@ == k);
            }
            if exists|j: int| 0 <= j < keys@.len() && (#[trigger] keys@[j])@ == k {
                let j = choose|j: int| 0 <= j < keys@.len() && (#[trigger] keys@[j])@ == k;
                assert(table[from + j].0 == k);
            }
        }
        assert(after.versions =~= goal);
        assert forall|k: Seq<char>| #[trigger]
            names_row(rows@, RowRefView::Version(k)) || same_row(
                before.versions,
                after.versions,
                k,
            ) by {
            if exists|j: int| 0 <= j < keys@.len() && (#[trigger] keys@[j])@ == k {
                let j = choose|j: int| 0 <= j < keys@.len() && (#[trigger] keys@[j])@ == k;
                assert(rows@[j + 1]@ == RowRefView::Version(k));
            }
        }
    }
    Ok(rows)
}

fn expire_versions(tables: &mut Tables, node_id: u64, now: i64) -> (r: StoreResult<Vec<RowRef>>)
    ensures
        carried_out(
            old(tables)@,
            outcome(old(tables)@, node_id, CommandView::ExpireGraceVersions { now }),
            r,
            final(tables)@,
        ),
{
    let ghost before = tables@;
    let ghost table = ordered::<String, VersionView>(before.versions);
    let count = tables.versions.len();
    let mut keys: Vec<String> = Vec::new();
    let mut rows: Vec<RowRef> = Vec::new();
    let mut i: usize = 0;
    while i < count
        invariant
            tables@ == before,
            i <= count == table.len(),
            table == ordered::<String, VersionView>(before.versions),
            keys@.len() == rows@.len(),
            forall|j: int|
                0 <= j < keys@.len() ==> before.versions.contains_key((#[trigger] keys@[j])@)
                    && expired(before.versions[keys@[j]@], now as int) && rows@[j]@
                    == RowRefView::Version(keys@[j]@),
            forall|m: int|
                0 <= m < i && expired((#[trigger] table[m]).1, now as int) ==> exists|j: int|
                    0 <= j < keys@.len() && (#[trigger] keys@[j])@ == table[m].0,
        decreases count - i,
    {
        let row = tables.versions.row(i);
        let ghost held = keys@;
        if let Some(expiry) = row.value.expires_at {
            if expiry <= now {
                keys.push(row.key.clone());
                rows.push(RowRef::Version(row.key.clone()));
                assert(keys@[held.len() as int]@ == table[i as int].0);
            }
        }
        assert forall|m: int|
            0 <= m < i + 1 && expired(
                (#[trigger] table[m]).1,
                now as int,
            ) implies exists|j: int| 0 <= j < keys@.len() && (#[trigger] keys@[j])@ == table[m].0 by {
            if m < i {
                let j = choose|j: int| 0 <= j < held.len() && (#[trigger] held[j])@ == table[m].0;
                assert(keys@[j]@ == table[m].0);
            }
        }
        i = i + 1;
    }
    remove_versions(tables, &keys);
    proof {
        let after = tables@;
        let goal = before.versions.remove_keys(
            Set::new(
                |key: Seq<char>|
                    before.versions.contains_key(key) && expired(
                        before.versions[key],
                        now as int,
                    ),
            ),
        );
        assert forall|k: Seq<char>| #[trigger]
            after.versions.dom().contains(k) == goal.dom().contains(k) by {
            lemma_ordered_has::<String, VersionView>(before.versions, k);
            if before.versions.contains_key(k) && expired(before.versions[k], now as int) {
                let m = choose|m: int| 0 <= m < table.len() && (#[trigger] table[m]).0 == k;
                assert(expired(table[m].1, now as int));
            }
        }
        assert(after.versions =~= goal);
        assert forall|k: Seq<char>| #[trigger]
            names_row(rows@, RowRefView::Version(k)) || same_row(
                before.versions,
                after.versions,
                k,
            ) by {
            if exists|j: int| 0 <= j < keys@.len() && (#[trigger] keys@[j])@ == k {
                let j = choose|j: int| 0 <= j < keys@.len() && (#[trigger] keys@[j])@ == k;
                assert(rows@[j]@ == RowRefView::Version(k));
            }
        }
    }
    Ok(rows)
}

} // verus!

//! Taking a copy of the stored state and putting one back.

use vstd::prelude::*;
use crate::text::{concat3, decimal, format_u64};
use super::model::{
    AuditEntry, AuditView, KmsRewrapState, RoleRecord, RoleView, SecretRecord, SecretView,
    StoreError, StoreErrorView, StoreResult, TokenRecord, TokenView, VersionRecord, VersionView,
};
use super::table::{
    dump_table, lemma_ordered_exists, load_table, ordered, pair_views, rows_map,
};
use super::tables::{StoreView, Tables};

verus! {

/// The version of the backup format.
pub const BACKUP_VERSION: u32 = 1;

/// A copy of the stored state, but for the counts of failed attempts.
#[derive(Debug)]
pub struct BackupData {
    pub version: u32,
    pub secrets: Vec<(String, SecretRecord)>,
    pub versions: Vec<(String, VersionRecord)>,
    pub roles: Vec<(String, RoleRecord)>,
    pub tokens: Vec<(Vec<u8>, TokenRecord)>,
    pub tokens_by_name: Vec<(String, Vec<u8>)>,
    pub audit: Vec<(u64, AuditEntry)>,
    pub kms_rewrap: Vec<(String, KmsRewrapState)>,
}

pub struct BackupView {
    pub version: u32,
    pub secrets: Seq<(Seq<char>, SecretView)>,
    pub versions: Seq<(Seq<char>, VersionView)>,
    pub roles: Seq<(Seq<char>, RoleView)>,
    pub tokens: Seq<(Seq<u8>, TokenView)>,
    pub tokens_by_name: Seq<(Seq<char>, Seq<u8>)>,
    pub audit: Seq<(u64, AuditView)>,
    pub kms_rewrap: Seq<(Seq<char>, KmsRewrapState)>,
}

impl View for BackupData {
    type V = BackupView;

    open spec fn view(&self) -> BackupView {
        BackupView {
            version: self.version,
            secrets: pair_views(self.secrets@),
            versions: pair_views(self.versions@),
            roles: pair_views(self.roles@),
            tokens: pair_views(self.tokens@),
            tokens_by_name: pair_views(self.tokens_by_name@),
            audit: pair_views(self.audit@),
            kms_rewrap: pair_views(self.kms_rewrap@),
        }
    }
}

impl Default for BackupData {
    /// A backup without rows and without a version.
    fn default() -> (r: Self)
        ensures
            r.version == 0,
            r.secrets@.len() == 0,
            r.versions@.len() == 0,
            r.roles@.len() == 0,
            r.tokens@.len() == 0,
            r.tokens_by_name@.len() == 0,
            r.audit@.len() == 0,
            r.kms_rewrap@.len() == 0,
    {
        BackupData {
            version: 0,
            secrets: Vec::new(),
            versions: Vec::new(),
            roles: Vec::new(),
            tokens: Vec::new(),
            tokens_by_name: Vec::new(),
            audit: Vec::new(),
            kms_rewrap: Vec::new(),
        }
    }
}

/// The backup of a state: the rows of each table in ascending order.
pub open spec fn backup_of(state: StoreView) -> BackupView {
    BackupView {
        version: BACKUP_VERSION,
        secrets: ordered::<String, SecretView>(state.secrets),
        versions: ordered::<String, VersionView>(state.versions),
        roles: ordered::<String, RoleView>(state.roles),
        tokens: ordered::<Vec<u8>, TokenView>(state.tokens),
        tokens_by_name: ordered::<String, Seq<u8>>(state.tokens_by_name),
        audit: ordered::<u64, AuditView>(state.audit),
        kms_rewrap: ordered::<String, KmsRewrapState>(state.kms_rewrap),
    }
}

/// A state after restoring a backup: the tables hold the rows of the backup and nothing else; the
/// counts of failed attempts stay.
pub open spec fn restored(state: StoreView, backup: BackupView) -> StoreView {
    StoreView {
        secrets: rows_map(backup.secrets),
        versions: rows_map(backup.versions),
        roles: rows_map(backup.roles),
        tokens: rows_map(backup.tokens),
        tokens_by_name: rows_map(backup.tokens_by_name),
        lockouts: state.lockouts,
        audit: rows_map(backup.audit),
        kms_rewrap: rows_map(backup.kms_rewrap),
    }
}

pub fn dump_database(tables: &Tables) -> (r: BackupData)
    ensures
        r@ == backup_of(tables@),
{
    BackupData {
        version: BACKUP_VERSION,
        secrets: dump_table(&tables.secrets),
        versions: dump_table(&tables.versions),
        roles: dump_table(&tables.roles),
        tokens: dump_table(&tables.tokens),
        tokens_by_name: dump_table(&tables.tokens_by_name),
        audit: dump_table(&tables.audit),
        kms_rewrap: dump_table(&tables.kms_rewrap),
    }
}

/// What is said of a backup of another version.
pub open spec fn unsupported_version(version: u32) -> Seq<char> {
    "unsupported backup version "@ + decimal(version as int) + " (this build restores version 1)"@
}

pub fn unsupported_version_message(version: u32) -> (r: String)
    ensures
        r@ == unsupported_version(version),
{
    let number = format_u64(version as u64);
    concat3("unsupported backup version ", number.as_str(), " (this build restores version 1)")
}

/// Replaces the state by a backup; a backup of another version is refused and changes nothing.
pub fn restore_database(tables: &mut Tables, data: &BackupData) -> (r: StoreResult<()>)
    ensures
        match r {
            Ok(_) => data.version == BACKUP_VERSION && final(tables)@ == restored(
                old(tables)@,
                data@,
            ),
            Err(error) => data.version != BACKUP_VERSION && final(tables)@ == old(tables)@
                && error@ == StoreErrorView::Internal(unsupported_version(data.version)),
        },
{
    if data.version != BACKUP_VERSION {
        return Err(StoreError::Internal(unsupported_version_message(data.version)));
    }
    tables.secrets = load_table(&data.secrets);
    tables.versions = load_table(&data.versions);
    tables.roles = load_table(&data.roles);
    tables.tokens_by_name = load_table(&data.tokens_by_name);
    tables.tokens = load_table(&data.tokens);
    tables.audit = load_table(&data.audit);
    tables.kms_rewrap = load_table(&data.kms_rewrap);
    Ok(())
}

/// Whether all tables of a state are finite, as stored tables are.
pub open spec fn finite_store(state: StoreView) -> bool {
    &&& state.secrets.dom().finite()
    &&& state.versions.dom().finite()
    &&& state.roles.dom().finite()
    &&& state.tokens.dom().finite()
    &&& state.tokens_by_name.dom().finite()
    &&& state.audit.dom().finite()
    &&& state.kms_rewrap.dom().finite()
}

/// Restoring a backup gives back the state that it was taken of and replaces whatever was there,
/// but for the counts of failed attempts.
pub proof fn law_restore_inverts_dump(source: StoreView, target: StoreView)
    requires
        finite_store(source),
    ensures
        restored(target, backup_of(source)) == (StoreView { lockouts: target.lockouts, ..source }),
{
    lemma_ordered_exists::<String, SecretView>(source.secrets);
    lemma_ordered_exists::<String, VersionView>(source.versions);
    lemma_ordered_exists::<String, RoleView>(source.roles);
    lemma_ordered_exists::<Vec<u8>, TokenView>(source.tokens);
    lemma_ordered_exists::<String, Seq<u8>>(source.tokens_by_name);
    lemma_ordered_exists::<u64, AuditView>(source.audit);
    lemma_ordered_exists::<String, KmsRewrapState>(source.kms_rewrap);
}

} // verus!

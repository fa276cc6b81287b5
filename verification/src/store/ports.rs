//! The reading and the writing side of a store.

use vstd::prelude::*;
use super::apply::{command_fits, outcome, row_of};
use super::backup::{backup_of, restored, BackupData, BACKUP_VERSION};
use super::engine::{current_of, due_of, listed, live_of};
use super::keys::key_of;
use super::model::{
    Command, KmsRewrapState, LockoutRecord, RoleRecord, SecretRecord, StoreErrorView, StoreResult,
    TokenRecord, VersionRecord,
};
use super::sorting::list_view;
use super::tables::{StoreView, KMS_REWRAP_STATE_KEY};

verus! {

/// The view of an optional record.
pub open spec fn found<T: View>(record: Option<T>) -> Option<T::V> {
    match record {
        Some(r) => Some(r@),
        None => None,
    }
}

/// Answers questions about a stored state. An answer that is given is the state's; a store that
/// cannot answer says so with an internal error.
pub trait VaultReader {
    spec fn state(&self) -> StoreView;

    fn secret(&self, name: String) -> (r: StoreResult<Option<SecretRecord>>)
        ensures
            match r {
                Ok(answer) => found(answer) == row_of(self.state().secrets, name@),
                Err(error) => error is Internal,
            },
    ;

    fn current_version(&self, name: String) -> (r: StoreResult<
        Option<(SecretRecord, VersionRecord)>,
    >)
        ensures
            match r {
                Ok(answer) => found(answer) == current_of(self.state(), name@),
                Err(error) => error is Internal,
            },
    ;

    fn version(&self, name: String, version: i32) -> (r: StoreResult<Option<VersionRecord>>)
        ensures
            match r {
                Ok(answer) => found(answer) == row_of(
                    self.state().versions,
                    key_of(name@, version as int),
                ),
                Err(error) => error is Internal,
            },
    ;

    fn live_versions(&self, name: String, now: i64) -> (r: StoreResult<Vec<VersionRecord>>)
        ensures
            match r {
                Ok(answer) => list_view(answer@) == live_of(self.state(), name@, now as int),
                Err(error) => error is Internal,
            },
    ;

    fn list_secrets(&self) -> (r: StoreResult<Vec<SecretRecord>>)
        ensures
            match r {
                Ok(answer) => list_view(answer@) == listed::<String, SecretRecord>(
                    self.state().secrets,
                ),
                Err(error) => error is Internal,
            },
    ;

    fn due_rotations(&self, now: i64) -> (r: StoreResult<Vec<SecretRecord>>)
        ensures
            match r {
                Ok(answer) => list_view(answer@) == due_of(self.state(), now as int),
                Err(error) => error is Internal,
            },
    ;

    fn role(&self, name: String) -> (r: StoreResult<Option<RoleRecord>>)
        ensures
            match r {
                Ok(answer) => found(answer) == row_of(self.state().roles, name@),
                Err(error) => error is Internal,
            },
    ;

    fn list_roles(&self) -> (r: StoreResult<Vec<RoleRecord>>)
        ensures
            match r {
                Ok(answer) => list_view(answer@) == listed::<String, RoleRecord>(
                    self.state().roles,
                ),
                Err(error) => error is Internal,
            },
    ;

    fn token_by_fingerprint(&self, fingerprint: Vec<u8>) -> (r: StoreResult<Option<TokenRecord>>)
        ensures
            match r {
                Ok(answer) => found(answer) == row_of(self.state().tokens, fingerprint@),
                Err(error) => error is Internal,
            },
    ;

    fn list_tokens(&self) -> (r: StoreResult<Vec<TokenRecord>>)
        ensures
            match r {
                Ok(answer) => list_view(answer@) == listed::<Vec<u8>, TokenRecord>(
                    self.state().tokens,
                ),
                Err(error) => error is Internal,
            },
    ;

    fn lockout(&self, ip: String) -> (r: StoreResult<Option<LockoutRecord>>)
        ensures
            match r {
                Ok(answer) => answer == row_of(self.state().lockouts, ip@),
                Err(error) => error is Internal,
            },
    ;

    fn kms_rewrap_state(&self) -> (r: StoreResult<Option<KmsRewrapState>>)
        ensures
            match r {
                Ok(answer) => answer == row_of(self.state().kms_rewrap, KMS_REWRAP_STATE_KEY@),
                Err(error) => error is Internal,
            },
    ;

    fn dump(&self) -> (r: StoreResult<BackupData>)
        ensures
            match r {
                Ok(answer) => answer@ == backup_of(self.state()),
                Err(error) => error is Internal,
            },
    ;
}

/// Changes a stored state. A change that fails leaves the state as it was.
pub trait VaultWriter: VaultReader {
    /// The node whose id is written into audit entries.
    spec fn node(&self) -> u64;

    fn apply(&mut self, command: Command) -> (r: StoreResult<()>)
        requires
            command_fits(old(self).state(), command@),
        ensures
            final(self).node() == old(self).node(),
            match r {
                Ok(_) => outcome(old(self).state(), old(self).node(), command@) == Ok::<
                    StoreView,
                    StoreErrorView,
                >(final(self).state()),
                Err(error) => final(self).state() == old(self).state() && (error is Internal
                    || outcome(old(self).state(), old(self).node(), command@) == Err::<
                    StoreView,
                    StoreErrorView,
                >(error@)),
            },
    ;

    fn restore(&mut self, data: BackupData) -> (r: StoreResult<()>)
        ensures
            final(self).node() == old(self).node(),
            match r {
                Ok(_) => data.version == BACKUP_VERSION && final(self).state() == restored(
                    old(self).state(),
                    data@,
                ),
                Err(error) => final(self).state() == old(self).state() && error is Internal,
            },
    ;
}

/// A store that can be read and written.
pub trait VaultStore: VaultReader + VaultWriter {

}

} // verus!

//! The store of one node.

use vstd::prelude::*;
use super::apply::{apply_command, carried_out, command_fits, outcome};
use super::backup::{
    dump_database, restore_database, unsupported_version, BackupData, BACKUP_VERSION,
};
use super::engine::{list_values, read_current_version, read_due_rotations, read_live_versions};
use super::keys::version_key;
use super::model::{
    Command, KmsRewrapState, LockoutRecord, RoleRecord, RoleView, SecretRecord, StoreErrorView,
    StoreResult, TokenRecord, VersionRecord,
};
use super::ports::{VaultReader, VaultStore, VaultWriter};
use super::tables::{RowRef, StoreView, Tables, KMS_REWRAP_STATE_KEY};

verus! {

/// The built-in role that may do everything.
pub open spec fn admin_role() -> RoleView {
    RoleView {
        name: "admin"@,
        description: Some("Full superuser access to all secrets and administration"@),
        is_admin: true,
        permissions: Seq::empty(),
        created_at: 0,
    }
}

/// A state with the built-in role, unless it holds a role of that name.
pub open spec fn seeded(state: StoreView) -> StoreView {
    if state.roles.contains_key("admin"@) {
        state
    } else {
        StoreView { roles: state.roles.insert("admin"@, admin_role()), ..state }
    }
}

/// Adds the built-in role unless there is a role of that name; tells whether it did.
pub fn seed_admin_role(tables: &mut Tables) -> (r: bool)
    ensures
        final(tables)@ == seeded(old(tables)@),
        r == !old(tables)@.roles.contains_key("admin"@),
{
    let name = "admin".to_owned();
    if tables.roles.contains(&name) {
        return false;
    }
    let role = RoleRecord {
        name: name.clone(),
        description: Some("Full superuser access to all secrets and administration".to_owned()),
        is_admin: true,
        permissions: Vec::new(),
        created_at: 0,
    };
    assert(role@.permissions =~= Seq::empty());
    tables.roles.insert(name, role);
    true
}

/// The stored state of one node, and the node's id.
pub struct LocalStore {
    pub tables: Tables,
    pub id: u64,
}

impl View for LocalStore {
    type V = StoreView;

    open spec fn view(&self) -> StoreView {
        self.tables@
    }
}

impl LocalStore {
    /// A store that starts from the given tables; the built-in role is there from the start.
    pub fn open(tables: Tables, node_id: u64) -> (r: LocalStore)
        ensures
            r@ == seeded(tables@),
            r.id == node_id,
    {
        let mut tables = tables;
        seed_admin_role(&mut tables);
        LocalStore { tables, id: node_id }
    }

    pub fn node_id(&self) -> (r: u64)
        ensures
            r == self.id,
    {
        self.id
    }

    /// Applies a command and names the rows that it changed.
    pub fn apply_rows(&mut self, command: &Command) -> (r: StoreResult<Vec<RowRef>>)
        requires
            command_fits(old(self)@, command@),
        ensures
            final(self).id == old(self).id,
            carried_out(old(self)@, outcome(old(self)@, old(self).id, command@), r, final(self)@),
    {
        apply_command(&mut self.tables, self.id, command)
    }
}

impl VaultReader for LocalStore {
    open spec fn state(&self) -> StoreView {
        self@
    }

    fn secret(&self, name: String) -> (r: StoreResult<Option<SecretRecord>>)
        ensures
            r is Ok,
    {
        match self.tables.secrets.get(&name) {
            Some(secret) => Ok(Some(secret.clone())),
            None => Ok(None),
        }
    }

    fn current_version(&self, name: String) -> (r: StoreResult<
        Option<(SecretRecord, VersionRecord)>,
    >)
        ensures
            r is Ok,
    {
        Ok(read_current_version(&self.tables, &name))
    }

    fn version(&self, name: String, version: i32) -> (r: StoreResult<Option<VersionRecord>>)
        ensures
            r is Ok,
    {
        match self.tables.versions.get(&version_key(name.as_str(), version)) {
            Some(record) => Ok(Some(record.clone())),
            None => Ok(None),
        }
    }

    fn live_versions(&self, name: String, now: i64) -> (r: StoreResult<Vec<VersionRecord>>)
        ensures
            r is Ok,
    {
        Ok(read_live_versions(&self.tables, &name, now))
    }

    fn list_secrets(&self) -> (r: StoreResult<Vec<SecretRecord>>)
        ensures
            r is Ok,
    {
        Ok(list_values(&self.tables.secrets))
    }

    fn due_rotations(&self, now: i64) -> (r: StoreResult<Vec<SecretRecord>>)
        ensures
            r is Ok,
    {
        Ok(read_due_rotations(&self.tables, now))
    }

    fn role(&self, name: String) -> (r: StoreResult<Option<RoleRecord>>)
        ensures
            r is Ok,
    {
        match self.tables.roles.get(&name) {
            Some(role) => Ok(Some(role.clone())),
            None => Ok(None),
        }
    }

    fn list_roles(&self) -> (r: StoreResult<Vec<RoleRecord>>)
        ensures
            r is Ok,
    {
        Ok(list_values(&self.tables.roles))
    }

    fn token_by_fingerprint(&self, fingerprint: Vec<u8>) -> (r: StoreResult<Option<TokenRecord>>)
        ensures
            r is Ok,
    {
        match self.tables.tokens.get(&fingerprint) {
            Some(token) => Ok(Some(token.clone())),
            None => Ok(None),
        }
    }

    fn list_tokens(&self) -> (r: StoreResult<Vec<TokenRecord>>)
        ensures
            r is Ok,
    {
        Ok(list_values(&self.tables.tokens))
    }

    fn lockout(&self, ip: String) -> (r: StoreResult<Option<LockoutRecord>>)
        ensures
            r is Ok,
    {
        match self.tables.lockouts.get(&ip) {
            Some(record) => Ok(Some(*record)),
            None => Ok(None),
        }
    }

    fn kms_rewrap_state(&self) -> (r: StoreResult<Option<KmsRewrapState>>)
        ensures
            r is Ok,
    {
        match self.tables.kms_rewrap.get(&KMS_REWRAP_STATE_KEY.to_owned()) {
            Some(record) => Ok(Some(*record)),
            None => Ok(None),
        }
    }

    fn dump(&self) -> (r: StoreResult<BackupData>)
        ensures
            r is Ok,
    {
        Ok(dump_database(&self.tables))
    }
}

impl VaultWriter for LocalStore {
    open spec fn node(&self) -> u64 {
        self.id
    }

    fn apply(&mut self, command: Command) -> (r: StoreResult<()>)
        ensures
            r is Ok <==> outcome(old(self)@, old(self).id, command@) is Ok,
            r matches Err(error) ==> outcome(old(self)@, old(self).id, command@) == Err::<
                StoreView,
                StoreErrorView,
            >(error@),
    {
        match self.apply_rows(&command) {
            Ok(_) => Ok(()),
            Err(error) => Err(error),
        }
    }

    fn restore(&mut self, data: BackupData) -> (r: StoreResult<()>)
        ensures
            r is Ok <==> data.version == BACKUP_VERSION,
            r matches Err(error) ==> error@ == StoreErrorView::Internal(
                unsupported_version(data.version),
            ),
    {
        restore_database(&mut self.tables, &data)
    }
}

impl VaultStore for LocalStore {

}

} // verus!

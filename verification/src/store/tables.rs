//! The stored state: one ordered table per kind of record.

use vstd::prelude::*;
use super::model::{
    AuditEntry, AuditView, KmsRewrapState, LockoutRecord, RoleRecord, RoleView, SecretRecord,
    SecretView, TokenRecord, TokenView, VersionRecord, VersionView,
};
use super::table::Table;

verus! {

/// The key of the only row of the re-wrap table.
pub const KMS_REWRAP_STATE_KEY: &'static str = "state";

/// The stored state.
pub struct Tables {
    pub secrets: Table<String, SecretRecord>,
    pub versions: Table<String, VersionRecord>,
    pub roles: Table<String, RoleRecord>,
    pub tokens: Table<Vec<u8>, TokenRecord>,
    pub tokens_by_name: Table<String, Vec<u8>>,
    pub lockouts: Table<String, LockoutRecord>,
    pub audit: Table<u64, AuditEntry>,
    pub kms_rewrap: Table<String, KmsRewrapState>,
}

#[verifier::ext_equal]
pub struct StoreView {
    pub secrets: Map<Seq<char>, SecretView>,
    pub versions: Map<Seq<char>, VersionView>,
    pub roles: Map<Seq<char>, RoleView>,
    pub tokens: Map<Seq<u8>, TokenView>,
    pub tokens_by_name: Map<Seq<char>, Seq<u8>>,
    pub lockouts: Map<Seq<char>, LockoutRecord>,
    pub audit: Map<u64, AuditView>,
    pub kms_rewrap: Map<Seq<char>, KmsRewrapState>,
}

impl View for Tables {
    type V = StoreView;

    open spec fn view(&self) -> StoreView {
        StoreView {
            secrets: self.secrets@,
            versions: self.versions@,
            roles: self.roles@,
            tokens: self.tokens@,
            tokens_by_name: self.tokens_by_name@,
            lockouts: self.lockouts@,
            audit: self.audit@,
            kms_rewrap: self.kms_rewrap@,
        }
    }
}

/// The state with no rows at all.
pub open spec fn empty_store() -> StoreView {
    StoreView {
        secrets: Map::empty(),
        versions: Map::empty(),
        roles: Map::empty(),
        tokens: Map::empty(),
        tokens_by_name: Map::empty(),
        lockouts: Map::empty(),
        audit: Map::empty(),
        kms_rewrap: Map::empty(),
    }
}

impl Tables {
    /// Tables without rows.
    pub fn new() -> (r: Tables)
        ensures
            r@ == empty_store(),
    {
        Tables {
            secrets: Table::new(),
            versions: Table::new(),
            roles: Table::new(),
            tokens: Table::new(),
            tokens_by_name: Table::new(),
            lockouts: Table::new(),
            audit: Table::new(),
            kms_rewrap: Table::new(),
        }
    }
}

/// A row of one of the tables, named by its key.
#[derive(Debug)]
pub enum RowRef {
    Secret(String),
    Version(String),
    Role(String),
    Token(Vec<u8>),
    TokenName(String),
    Lockout(String),
    Audit(u64),
    KmsRewrap(String),
}

pub enum RowRefView {
    Secret(Seq<char>),
    Version(Seq<char>),
    Role(Seq<char>),
    Token(Seq<u8>),
    TokenName(Seq<char>),
    Lockout(Seq<char>),
    Audit(u64),
    KmsRewrap(Seq<char>),
}

impl View for RowRef {
    type V = RowRefView;

    open spec fn view(&self) -> RowRefView {
        match self {
            RowRef::Secret(key) => RowRefView::Secret(key@),
            RowRef::Version(key) => RowRefView::Version(key@),
            RowRef::Role(key) => RowRefView::Role(key@),
            RowRef::Token(key) => RowRefView::Token(key@),
            RowRef::TokenName(key) => RowRefView::TokenName(key@),
            RowRef::Lockout(key) => RowRefView::Lockout(key@),
            RowRef::Audit(key) => RowRefView::Audit(*key),
            RowRef::KmsRewrap(key) => RowRefView::KmsRewrap(key@),
        }
    }
}

/// Whether `rows` names the row `row`.
pub open spec fn names_row(rows: Seq<RowRef>, row: RowRefView) -> bool {
    exists|i: int| 0 <= i < rows.len() && (#[trigger] rows[i])@ == row
}

/// Whether two tables agree on the row with key `key`.
pub open spec fn same_row<A, B>(a: Map<A, B>, b: Map<A, B>, key: A) -> bool {
    a.contains_key(key) == b.contains_key(key) && (a.contains_key(key) ==> a[key] == b[key])
}

/// Whether two states agree on every row that `rows` does not name.
pub open spec fn differ_only_in(a: StoreView, b: StoreView, rows: Seq<RowRef>) -> bool {
    &&& forall|k: Seq<char>| #[trigger]
        names_row(rows, RowRefView::Secret(k)) || same_row(a.secrets, b.secrets, k)
    &&& forall|k: Seq<char>| #[trigger]
        names_row(rows, RowRefView::Version(k)) || same_row(a.versions, b.versions, k)
    &&& forall|k: Seq<char>| #[trigger]
        names_row(rows, RowRefView::Role(k)) || same_row(a.roles, b.roles, k)
    &&& forall|k: Seq<u8>| #[trigger]
        names_row(rows, RowRefView::Token(k)) || same_row(a.tokens, b.tokens, k)
    &&& forall|k: Seq<char>| #[trigger]
        names_row(rows, RowRefView::TokenName(k)) || same_row(
            a.tokens_by_name,
            b.tokens_by_name,
            k,
        )
    &&& forall|k: Seq<char>| #[trigger]
        names_row(rows, RowRefView::Lockout(k)) || same_row(a.lockouts, b.lockouts, k)
    &&& forall|k: u64| #[trigger]
        names_row(rows, RowRefView::Audit(k)) || same_row(a.audit, b.audit, k)
    &&& forall|k: Seq<char>| #[trigger]
        names_row(rows, RowRefView::KmsRewrap(k)) || same_row(a.kms_rewrap, b.kms_rewrap, k)
}

} // verus!

//! The stored state: its records, the commands that change it, and what can be asked of it.

pub mod apply;
pub mod backup;
pub mod engine;
pub mod keys;
pub mod laws;
pub mod local;
pub mod model;
pub mod ports;
pub mod sorting;
pub mod table;
pub mod tables;

pub use backup::BackupData;
pub use local::LocalStore;
pub use model::{
    AuditEntry, Command, KmsRewrapState, LockoutRecord, NextRotation, PgRoleTarget, RoleRecord,
    RotationTarget, SecretRecord, StoreError, StoreResult, TokenRecord, VersionRecord,
};
pub use ports::{VaultReader, VaultStore, VaultWriter};

//! A replicated vault for secrets: envelope encryption, rotation with a grace period, access
//! control, and the state machine that every change goes through.

pub mod api_error;
pub mod audit;
pub mod auth;
pub mod batch;
pub mod cache;
pub mod change;
pub mod clock;
pub mod config;
pub mod crypto;
pub mod cursor;
pub mod dto;
pub mod error;
pub mod guards;
pub mod ip_allowlist;
pub mod kms;
pub mod laws;
pub mod lockout;
pub mod manage;
pub mod order;
pub mod payload;
pub mod pg_apply;
pub mod raft;
pub mod rbac;
pub mod rewrap;
pub mod rotation;
pub mod service;
pub mod startup;
pub mod store;
pub mod supervisor;
pub mod sweep;
pub mod text;
pub mod types;
pub mod validate;
pub mod workers;

pub use error::{Error, Result};
pub use ip_allowlist::IpAllowlist;
pub use types::{aad_for, SecretFormat, SecretKind};

//! Errors of the security core.

use vstd::prelude::*;
use crate::text::{concat, decimal, format_u64, push_str};

verus! {

/// What can go wrong in the security core.
#[derive(Debug)]
pub enum Error {
    Encryption,
    Decryption,
    KeyWrap,
    KeyUnwrap,
    InvalidAllowlist(String),
    KeyLength { expected: usize, got: usize },
}

pub type Result<T> = std::result::Result<T, Error>;

/// An error in words.
pub open spec fn error_text(error: Error) -> Seq<char> {
    match error {
        Error::Encryption => "encryption failed"@,
        Error::Decryption => "decryption failed"@,
        Error::KeyWrap => "key wrap failed"@,
        Error::KeyUnwrap => "key unwrap failed"@,
        Error::InvalidAllowlist(entry) => "invalid IP allowlist entry: "@ + entry@,
        Error::KeyLength { expected, got } => "invalid key length: expected "@ + decimal(
            expected as int,
        ) + ", got "@ + decimal(got as int),
    }
}

impl Error {
    /// The error in words.
    pub fn message(&self) -> (r: String)
        ensures
            r@ == error_text(*self),
    {
        match self {
            Error::Encryption => "encryption failed".to_owned(),
            Error::Decryption => "decryption failed".to_owned(),
            Error::KeyWrap => "key wrap failed".to_owned(),
            Error::KeyUnwrap => "key unwrap failed".to_owned(),
            Error::InvalidAllowlist(entry) => concat(
                "invalid IP allowlist entry: ",
                entry.as_str(),
            ),
            Error::KeyLength { expected, got } => {
                let mut text = concat(
                    "invalid key length: expected ",
                    format_u64(*expected as u64).as_str(),
                );
                push_str(&mut text, ", got ");
                push_str(&mut text, format_u64(*got as u64).as_str());
                text
            },
        }
    }
}

} // verus!

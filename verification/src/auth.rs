//! Bearer tokens and their fingerprints.

use base64::Engine;
use sha2::{Digest, Sha256};
use subtle::ConstantTimeEq;
use vstd::prelude::*;
use vstd::utf8::encode_utf8;
use crate::crypto::fill_random;

verus! {

/// The number of random bytes in a token.
pub const TOKEN_BYTES: usize = 32;

/// The length of a fingerprint.
pub const FINGERPRINT_LEN: usize = 32;

/// The SHA-256 digest of a message.
pub uninterp spec fn sha256(message: Seq<u8>) -> Seq<u8>;

/// `Sha256::digest` gives the SHA-256 digest, 32 bytes that depend on the message alone.
#[verifier::external_body]
fn sha256_digest(message: &[u8]) -> (r: [u8; FINGERPRINT_LEN])
    ensures
        r@ == sha256(message@),
{
    Sha256::digest(message).into()
}

/// The text that base64 in the URL-safe alphabet without padding makes of bytes.
pub uninterp spec fn base64_url(bytes: Seq<u8>) -> Seq<char>;

/// Whether `c` belongs to the URL-safe base64 alphabet.
pub open spec fn url_safe(c: char) -> bool {
    'A' <= c <= 'Z' || 'a' <= c <= 'z' || '0' <= c <= '9' || c == '-' || c == '_'
}

/// `base64::engine::general_purpose::URL_SAFE_NO_PAD.encode` gives the encoded text, a function of
/// the bytes: four characters of the URL-safe alphabet for every three bytes, and one more than
/// the number of bytes that are left over, if any.
#[verifier::external_body]
fn base64_url_encode(bytes: &[u8]) -> (r: String)
    requires
        bytes@.len() <= 0x1000_0000,
    ensures
        r@ == base64_url(bytes@),
        r@.len() == (4 * bytes@.len() + 2) / 3,
        forall|i: int| 0 <= i < r@.len() ==> url_safe(#[trigger] r@[i]),
{
    base64::engine::general_purpose::URL_SAFE_NO_PAD.encode(bytes)
}

/// `ConstantTimeEq::ct_eq` on slices tells whether they have the same length and bytes. That it
/// takes the same time wherever slices of one length differ is not stated.
#[verifier::external_body]
fn constant_time_eq(a: &[u8], b: &[u8]) -> (r: bool)
    ensures
        r == (a@ == b@),
{
    a.ct_eq(b).into()
}

/// Whether text has the shape of a token: 43 characters of the URL-safe alphabet.
pub open spec fn token_shaped(text: Seq<char>) -> bool {
    text.len() == 43 && forall|i: int| 0 <= i < text.len() ==> url_safe(#[trigger] text[i])
}

/// Whether text is the text of a token: 32 bytes in the URL-safe base64 alphabet, without padding.
pub open spec fn token_text(text: Seq<char>) -> bool {
    &&& token_shaped(text)
    &&& exists|bytes: Seq<u8>| bytes.len() == TOKEN_BYTES && text == #[trigger] base64_url(bytes)
}

/// The token made of the given random bytes.
pub fn token_from(bytes: &[u8; TOKEN_BYTES]) -> (r: String)
    ensures
        r@ == base64_url(bytes@),
        token_shaped(r@),
{
    base64_url_encode(bytes)
}

/// A new token.
pub fn generate_token() -> (r: String)
    ensures
        token_text(r@),
{
    let mut bytes: [u8; TOKEN_BYTES] = [0u8; TOKEN_BYTES];
    fill_random(&mut bytes);
    token_from(&bytes)
}

/// The fingerprint of a token.
pub open spec fn fingerprint_of(token: Seq<char>) -> Seq<u8> {
    sha256(encode_utf8(token))
}

/// The fingerprint of a token: the only form in which it is stored.
pub fn fingerprint(token: &str) -> (r: [u8; FINGERPRINT_LEN])
    ensures
        r@ == fingerprint_of(token@),
        fingerprint_of(token@).len() == FINGERPRINT_LEN,
{
    sha256_digest(token.as_bytes())
}

/// Whether a token has the given fingerprint.
pub fn verify(token: &str, expected_fingerprint: &[u8]) -> (r: bool)
    ensures
        r == (fingerprint_of(token@) == expected_fingerprint@),
        expected_fingerprint@.len() != FINGERPRINT_LEN ==> !r,
{
    let computed = fingerprint(token);
    constant_time_eq(&computed, expected_fingerprint)
}

/// Whether two byte strings are equal.
pub fn fingerprints_match(a: &[u8], b: &[u8]) -> (r: bool)
    ensures
        r == (a@ == b@),
{
    constant_time_eq(a, b)
}

} // verus!

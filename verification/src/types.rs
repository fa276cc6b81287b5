//! Kinds and formats of secrets, and the associated data that binds a ciphertext to its secret.

use vstd::prelude::*;
use vstd::utf8::*;
use crate::text::{bytes_of, decimal, format_i64, lemma_decimal_chars, lemma_decimal_injective, push_str, str_eq};

verus! {

/// How a secret changes: by hand, or on a schedule.
#[derive(Debug, Clone, Copy, PartialEq, Eq, Structural)]
pub enum SecretKind {
    Manual,
    Automatic,
}

/// The name of a kind.
pub open spec fn kind_name(kind: SecretKind) -> Seq<char> {
    match kind {
        SecretKind::Manual => "manual"@,
        SecretKind::Automatic => "automatic"@,
    }
}

/// The kind with the given name.
pub open spec fn kind_named(name: Seq<char>) -> Option<SecretKind> {
    if name == "manual"@ {
        Some(SecretKind::Manual)
    } else if name == "automatic"@ {
        Some(SecretKind::Automatic)
    } else {
        None
    }
}

impl SecretKind {
    pub fn as_str(self) -> (r: &'static str)
        ensures
            r@ == kind_name(self),
    {
        match self {
            SecretKind::Manual => "manual",
            SecretKind::Automatic => "automatic",
        }
    }

    pub fn parse(value: &str) -> (r: Option<Self>)
        ensures
            r == kind_named(value@),
    {
        if str_eq(value, "manual") {
            Some(SecretKind::Manual)
        } else if str_eq(value, "automatic") {
            Some(SecretKind::Automatic)
        } else {
            None
        }
    }
}

/// What the sealed bytes of a secret hold: a bare value, or a user name with a password.
#[derive(Debug, Clone, Copy, PartialEq, Eq, Structural)]
pub enum SecretFormat {
    Opaque,
    Userpass,
}

/// The name of a format.
pub open spec fn format_name(format: SecretFormat) -> Seq<char> {
    match format {
        SecretFormat::Opaque => "opaque"@,
        SecretFormat::Userpass => "userpass"@,
    }
}

/// The format with the given name.
pub open spec fn format_named(name: Seq<char>) -> Option<SecretFormat> {
    if name == "opaque"@ {
        Some(SecretFormat::Opaque)
    } else if name == "userpass"@ {
        Some(SecretFormat::Userpass)
    } else {
        None
    }
}

impl SecretFormat {
    pub fn as_str(self) -> (r: &'static str)
        ensures
            r@ == format_name(self),
    {
        match self {
            SecretFormat::Opaque => "opaque",
            SecretFormat::Userpass => "userpass",
        }
    }

    pub fn parse(value: &str) -> (r: Option<Self>)
        ensures
            r == format_named(value@),
    {
        if str_eq(value, "opaque") {
            Some(SecretFormat::Opaque)
        } else if str_eq(value, "userpass") {
            Some(SecretFormat::Userpass)
        } else {
            None
        }
    }
}

/// Parsing the name of a kind gives the kind back.
pub proof fn law_kind_round_trip(kind: SecretKind)
    ensures
        kind_named(kind_name(kind)) == Some(kind),
{
    reveal_strlit("manual");
    reveal_strlit("automatic");
    assert("manual"@.len() != "automatic"@.len());
}

/// Parsing the name of a format gives the format back.
pub proof fn law_format_round_trip(format: SecretFormat)
    ensures
        format_named(format_name(format)) == Some(format),
{
    reveal_strlit("opaque");
    reveal_strlit("userpass");
    assert("opaque"@.len() != "userpass"@.len());
}

/// The identity of one version of a secret: its name, a colon and the version number.
pub open spec fn identity(name: Seq<char>, version: int) -> Seq<char> {
    name + seq![':'] + decimal(version)
}

/// The associated data of one version of a secret: its identity in UTF-8.
pub open spec fn aad_of(name: Seq<char>, version: int) -> Seq<u8> {
    encode_utf8(identity(name, version))
}

/// The associated data that the ciphertext of version `version` of secret `name` is bound to.
pub fn aad_for(name: &str, version: i32) -> (r: Vec<u8>)
    ensures
        r@ == aad_of(name@, version as int),
{
    let mut text = String::new();
    push_str(&mut text, name);
    text.push(':');
    let number = format_i64(version as i64);
    push_str(&mut text, number.as_str());
    assert(text@ =~= identity(name@, version as int));
    bytes_of(text.as_str())
}

/// No two versions of any secrets share their associated data: a ciphertext bound to one cannot
/// be presented as another.
pub proof fn law_aad_injective(a: Seq<char>, m: int, b: Seq<char>, n: int)
    requires
        aad_of(a, m) == aad_of(b, n),
    ensures
        a == b,
        m == n,
{
    crate::order::lemma_encoding_injective(identity(a, m), identity(b, n));
    let x = identity(a, m);
    lemma_decimal_chars(m);
    lemma_decimal_chars(n);
    if a.len() < b.len() {
        assert(identity(b, n)[b.len() as int] == ':');
        assert(x[b.len() as int] == decimal(m)[b.len() - a.len() - 1]);
    } else if b.len() < a.len() {
        assert(x[a.len() as int] == ':');
        assert(identity(b, n)[a.len() as int] == decimal(n)[a.len() - b.len() - 1]);
    }
    assert(a =~= x.take(a.len() as int));
    assert(b =~= identity(b, n).take(b.len() as int));
    assert(decimal(m) =~= x.skip(a.len() as int + 1));
    assert(decimal(n) =~= identity(b, n).skip(b.len() as int + 1));
    lemma_decimal_injective(m, n);
}

} // verus!

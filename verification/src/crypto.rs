//! Envelope encryption: secrets are sealed under a data key of their own, and the data key is
//! wrapped by a key wrapper.

use base64::Engine;
use chacha20poly1305::aead::{Aead, KeyInit, Payload};
use chacha20poly1305::{Key, XChaCha20Poly1305, XNonce};
use vstd::prelude::*;
use vstd::utf8::encode_utf8;
use zeroize::Zeroizing;
use crate::error::{Error, Result};
use crate::text::{bytes_of, clone_bytes, trim, trimmed};

verus! {

/// The length of a data key.
pub const DEK_LEN: usize = 32;

/// The length of a nonce.
pub const NONCE_LEN: usize = 24;

/// The length of the authentication tag at the end of a ciphertext.
pub const TAG_LEN: usize = 16;

/// The longest message that can be sealed: 2^32 - 2 blocks of 64 bytes.
pub const MAX_MESSAGE: u64 = 274_877_906_816;

/// Bytes that are wiped from memory when they are dropped, by `zeroize::Zeroizing`.
#[verifier::external_body]
pub struct SecretBytes {
    bytes: Zeroizing<Vec<u8>>,
}

/// The bytes that a `zeroize::Zeroizing` guards.
pub uninterp spec fn guarded(secret: SecretBytes) -> Seq<u8>;

impl View for SecretBytes {
    type V = Seq<u8>;

    open spec fn view(&self) -> Seq<u8> {
        guarded(*self)
    }
}

/// `Zeroizing::new` takes over the bytes it is given and wipes them when they are dropped. The
/// wiping itself is not stated.
#[verifier::external_body]
fn guard(bytes: Vec<u8>) -> (r: SecretBytes)
    ensures
        guarded(r) == bytes@,
{
    SecretBytes { bytes: Zeroizing::new(bytes) }
}

/// Dereferencing a `Zeroizing` gives the bytes it guards.
#[verifier::external_body]
fn unguard(secret: &SecretBytes) -> (r: &[u8])
    ensures
        r@ == guarded(*secret),
{
    secret.bytes.as_slice()
}

impl SecretBytes {
    pub fn new(bytes: Vec<u8>) -> (r: SecretBytes)
        ensures
            r@ == bytes@,
    {
        guard(bytes)
    }

    pub fn as_slice(&self) -> (r: &[u8])
        ensures
            r@ == self@,
    {
        unguard(self)
    }
}

impl Clone for SecretBytes {
    fn clone(&self) -> (r: Self)
        ensures
            r@ == self@,
    {
        guard(clone_bytes(unguard(self)))
    }
}

/// A data key.
pub struct Dek {
    key: SecretBytes,
}

impl View for Dek {
    type V = Seq<u8>;

    closed spec fn view(&self) -> Seq<u8> {
        self.key@
    }
}

impl Dek {
    #[verifier::type_invariant]
    spec fn right_length(self) -> bool {
        self.key@.len() == DEK_LEN
    }

    pub fn as_slice(&self) -> (r: &[u8])
        ensures
            r@ == self@,
            r@.len() == DEK_LEN,
    {
        proof {
            use_type_invariant(self);
        }
        self.key.as_slice()
    }
}

impl Clone for Dek {
    fn clone(&self) -> (r: Self)
        ensures
            r@ == self@,
    {
        proof {
            use_type_invariant(self);
        }
        Dek { key: self.key.clone() }
    }
}

/// Fills `buf` with bytes from the operating system's random number generator, by
/// `getrandom::fill`, and panics where that generator is unavailable. Nothing is stated of the
/// bytes.
#[verifier::external_body]
pub fn fill_random(buf: &mut [u8])
    ensures
        final(buf)@.len() == old(buf)@.len(),
{
    getrandom::fill(buf).expect("operating system CSPRNG is unavailable");
}

/// A new data key.
pub fn generate_dek() -> (r: Dek)
    ensures
        r@.len() == DEK_LEN,
{
    let mut k: Vec<u8> = vec![0u8; DEK_LEN];
    fill_random(k.as_mut_slice());
    Dek { key: SecretBytes::new(k) }
}

/// A new nonce.
pub fn generate_nonce() -> (r: [u8; NONCE_LEN])
    ensures
        r@.len() == NONCE_LEN,
{
    let mut n: [u8; NONCE_LEN] = [0u8; NONCE_LEN];
    fill_random(&mut n);
    n
}

/// The data key with the given bytes, which must have its length.
pub fn dek_from_slice(bytes: &[u8]) -> (r: Result<Dek>)
    ensures
        match r {
            Ok(dek) => bytes@.len() == DEK_LEN && dek@ == bytes@,
            Err(error) => bytes@.len() != DEK_LEN && error == (Error::KeyLength {
                expected: DEK_LEN,
                got: bytes@.len() as usize,
            }),
        },
{
    if bytes.len() != DEK_LEN {
        return Err(Error::KeyLength { expected: DEK_LEN, got: bytes.len() });
    }
    Ok(Dek { key: SecretBytes::new(clone_bytes(bytes)) })
}

/// The ciphertext with tag that XChaCha20-Poly1305 makes of a message.
pub uninterp spec fn aead_seal(
    key: Seq<u8>,
    nonce: Seq<u8>,
    aad: Seq<u8>,
    message: Seq<u8>,
) -> Seq<u8>;

/// The message that XChaCha20-Poly1305 makes of a ciphertext with tag, if the tag is right.
pub uninterp spec fn aead_open(
    key: Seq<u8>,
    nonce: Seq<u8>,
    aad: Seq<u8>,
    ciphertext: Seq<u8>,
) -> Option<Seq<u8>>;

/// `XChaCha20Poly1305::encrypt` appends a tag of 16 bytes to the encrypted message, a function of
/// key, nonce, associated data and message; decrypting that under the same key, nonce and
/// associated data gives the message back. It fails only on messages longer than the cipher's
/// block counter reaches.
#[verifier::external_body]
fn aead_encrypt(key: &[u8], nonce: &[u8; NONCE_LEN], aad: &[u8], message: &[u8]) -> (r: Option<
    Vec<u8>,
>)
    requires
        key@.len() == DEK_LEN,
        message@.len() <= MAX_MESSAGE,
    ensures
        r is Some,
        r matches Some(ciphertext) ==> {
            &&& ciphertext@ == aead_seal(key@, nonce@, aad@, message@)
            &&& ciphertext@.len() == message@.len() + TAG_LEN
            &&& aead_open(key@, nonce@, aad@, ciphertext@) == Some(message@)
        },
{
    let cipher = XChaCha20Poly1305::new(Key::from_slice(key));
    cipher.encrypt(XNonce::from_slice(&nonce[..]), Payload { msg: message, aad }).ok()
}

/// `XChaCha20Poly1305::decrypt` gives a message 16 bytes shorter than the ciphertext, a function
/// of key, nonce, associated data and ciphertext, and fails where the tag is wrong or missing.
/// What it accepts is what encrypting the message gives. That it rejects what was tampered with
/// holds only up to the strength of the cipher and is not stated.
#[verifier::external_body]
fn aead_decrypt(key: &[u8], nonce: &[u8; NONCE_LEN], aad: &[u8], ciphertext: &[u8]) -> (r: Option<
    Vec<u8>,
>)
    requires
        key@.len() == DEK_LEN,
        ciphertext@.len() <= MAX_MESSAGE + TAG_LEN,
    ensures
        match r {
            Some(message) => {
                &&& aead_open(key@, nonce@, aad@, ciphertext@) == Some(message@)
                &&& ciphertext@.len() == message@.len() + TAG_LEN
                &&& aead_seal(key@, nonce@, aad@, message@) == ciphertext@
            },
            None => aead_open(key@, nonce@, aad@, ciphertext@) is None,
        },
{
    let cipher = XChaCha20Poly1305::new(Key::from_slice(key));
    cipher.decrypt(XNonce::from_slice(&nonce[..]), Payload { msg: ciphertext, aad }).ok()
}

/// Whether a message is short enough to be sealed.
pub open spec fn sealable(message: Seq<u8>) -> bool {
    message.len() <= MAX_MESSAGE
}

/// What opening a ciphertext gives.
pub open spec fn opened(
    key: Seq<u8>,
    nonce: Seq<u8>,
    aad: Seq<u8>,
    ciphertext: Seq<u8>,
) -> Option<Seq<u8>> {
    if ciphertext.len() <= MAX_MESSAGE + TAG_LEN {
        aead_open(key, nonce, aad, ciphertext)
    } else {
        None
    }
}

/// Seals a message. What is sealed can be opened again under the same key, nonce and associated
/// data.
pub fn seal(dek: &Dek, nonce: &[u8; NONCE_LEN], aad: &[u8], plaintext: &[u8]) -> (r: Result<
    Vec<u8>,
>)
    ensures
        match r {
            Ok(ciphertext) => {
                &&& sealable(plaintext@)
                &&& ciphertext@ == aead_seal(dek@, nonce@, aad@, plaintext@)
                &&& ciphertext@.len() == plaintext@.len() + TAG_LEN
                &&& opened(dek@, nonce@, aad@, ciphertext@) == Some(plaintext@)
            },
            Err(error) => !sealable(plaintext@) && error == Error::Encryption,
        },
{
    if plaintext.len() as u64 > MAX_MESSAGE {
        return Err(Error::Encryption);
    }
    match aead_encrypt(dek.as_slice(), nonce, aad, plaintext) {
        Some(ciphertext) => Ok(ciphertext),
        None => Err(Error::Encryption),
    }
}

/// Opens a ciphertext. What opens is what sealing the message gives.
pub fn open(dek: &Dek, nonce: &[u8; NONCE_LEN], aad: &[u8], ciphertext: &[u8]) -> (r: Result<
    SecretBytes,
>)
    ensures
        match r {
            Ok(plaintext) => {
                &&& opened(dek@, nonce@, aad@, ciphertext@) == Some(plaintext@)
                &&& aead_seal(dek@, nonce@, aad@, plaintext@) == ciphertext@
                &&& ciphertext@.len() == plaintext@.len() + TAG_LEN
            },
            Err(error) => opened(dek@, nonce@, aad@, ciphertext@) is None && error
                == Error::Decryption,
        },
{
    if ciphertext.len() as u64 > MAX_MESSAGE + 16 {
        return Err(Error::Decryption);
    }
    match aead_decrypt(dek.as_slice(), nonce, aad, ciphertext) {
        Some(plaintext) => Ok(SecretBytes::new(plaintext)),
        None => Err(Error::Decryption),
    }
}

/// A data key in the clear and wrapped, with the id of the key that wraps it.
pub struct DataKey {
    pub plaintext: Dek,
    pub wrapped: Vec<u8>,
    pub key_id: String,
}

/// Makes data keys and unwraps them again.
pub trait KeyWrapper {
    /// The data key that a wrapped key stands for.
    spec fn unwrapped(&self, wrapped: Seq<u8>, key_id: Seq<char>) -> Option<Seq<u8>>;

    /// Why a wrapped key that stands for no data key is refused.
    spec fn unwrap_error(&self, wrapped: Seq<u8>, key_id: Seq<char>) -> Error;

    /// Whether the wrapper needs nothing but itself, and so fails only on what it cannot unwrap.
    spec fn self_contained(&self) -> bool;

    fn generate_data_key(&self) -> (r: Result<DataKey>)
        ensures
            r matches Ok(key) ==> self.unwrapped(key.wrapped@, key.key_id@) == Some(
                key.plaintext@,
            ),
            self.self_contained() ==> r is Ok,
    ;

    fn unwrap_data_key(&self, wrapped: &[u8], key_id: &str) -> (r: Result<Dek>)
        ensures
            r matches Ok(dek) ==> self.unwrapped(wrapped@, key_id@) == Some(dek@),
            self.self_contained() ==> (r matches Err(error) ==> {
                &&& self.unwrapped(wrapped@, key_id@) is None
                &&& error == self.unwrap_error(wrapped@, key_id@)
            }),
    ;
}

/// A sealed message together with its wrapped data key.
pub struct Envelope {
    pub key_id: String,
    pub wrapped_dek: Vec<u8>,
    pub nonce: [u8; NONCE_LEN],
    pub ciphertext: Vec<u8>,
}

pub struct EnvelopeView {
    pub key_id: Seq<char>,
    pub wrapped_dek: Seq<u8>,
    pub nonce: Seq<u8>,
    pub ciphertext: Seq<u8>,
}

impl View for Envelope {
    type V = EnvelopeView;

    open spec fn view(&self) -> EnvelopeView {
        EnvelopeView {
            key_id: self.key_id@,
            wrapped_dek: self.wrapped_dek@,
            nonce: self.nonce@,
            ciphertext: self.ciphertext@,
        }
    }
}

impl Clone for Envelope {
    fn clone(&self) -> (r: Self)
        ensures
            r@ == self@,
    {
        Envelope {
            key_id: self.key_id.clone(),
            wrapped_dek: clone_bytes(self.wrapped_dek.as_slice()),
            nonce: self.nonce,
            ciphertext: clone_bytes(self.ciphertext.as_slice()),
        }
    }
}

/// What an envelope opens to: its data key is unwrapped, and the message opened under it.
pub open spec fn envelope_opened<W: KeyWrapper>(
    wrapper: &W,
    env: EnvelopeView,
    aad: Seq<u8>,
) -> Option<Seq<u8>> {
    match wrapper.unwrapped(env.wrapped_dek, env.key_id) {
        Some(key) => opened(key, env.nonce, aad, env.ciphertext),
        None => None,
    }
}

/// Seals a message under the given data key and nonce.
pub fn seal_under(
    key: DataKey,
    nonce: [u8; NONCE_LEN],
    aad: &[u8],
    plaintext: &[u8],
) -> (r: Result<Envelope>)
    ensures
        match r {
            Ok(env) => {
                &&& sealable(plaintext@)
                &&& env@ == (EnvelopeView {
                    key_id: key.key_id@,
                    wrapped_dek: key.wrapped@,
                    nonce: nonce@,
                    ciphertext: aead_seal(key.plaintext@, nonce@, aad@, plaintext@),
                })
                &&& opened(key.plaintext@, nonce@, aad@, env.ciphertext@) == Some(plaintext@)
            },
            Err(error) => !sealable(plaintext@) && error == Error::Encryption,
        },
{
    match seal(&key.plaintext, &nonce, aad, plaintext) {
        Ok(ciphertext) => Ok(
            Envelope { key_id: key.key_id, wrapped_dek: key.wrapped, nonce, ciphertext },
        ),
        Err(error) => Err(error),
    }
}

/// Seals a message under a new data key. The envelope opens to the message again.
pub fn seal_envelope<W: KeyWrapper>(wrapper: &W, aad: &[u8], plaintext: &[u8]) -> (r: Result<
    Envelope,
>)
    ensures
        r matches Ok(env) ==> sealable(plaintext@) && envelope_opened(wrapper, env@, aad@) == Some(
            plaintext@,
        ),
        wrapper.self_contained() ==> (r is Ok <==> sealable(plaintext@)),
        wrapper.self_contained() ==> (r matches Err(error) ==> error == Error::Encryption),
{
    match wrapper.generate_data_key() {
        Ok(key) => seal_under(key, generate_nonce(), aad, plaintext),
        Err(error) => Err(error),
    }
}

/// Opens an envelope.
pub fn open_envelope<W: KeyWrapper>(wrapper: &W, env: &Envelope, aad: &[u8]) -> (r: Result<
    SecretBytes,
>)
    ensures
        r matches Ok(plaintext) ==> envelope_opened(wrapper, env@, aad@) == Some(plaintext@),
        wrapper.self_contained() ==> (r matches Err(error) ==> {
            &&& envelope_opened(wrapper, env@, aad@) is None
            &&& error == match wrapper.unwrapped(env.wrapped_dek@, env.key_id@) {
                Some(_) => Error::Decryption,
                None => wrapper.unwrap_error(env.wrapped_dek@, env.key_id@),
            }
        }),
{
    match wrapper.unwrap_data_key(env.wrapped_dek.as_slice(), env.key_id.as_str()) {
        Ok(dek) => open(&dek, &env.nonce, aad, env.ciphertext.as_slice()),
        Err(error) => Err(error),
    }
}

/// The associated data of wrapped data keys.
pub const WRAP_AAD: &'static str = "pg_vault:dek-wrap:v1";

/// A wrapper that seals data keys under a master key held in memory.
pub struct LocalKeyWrapper {
    master: Dek,
    key_id: String,
}

/// The wrapping of a data key under a master key and a nonce: the nonce, then the sealed key.
pub open spec fn wrap_of(master: Seq<u8>, nonce: Seq<u8>, dek: Seq<u8>) -> Seq<u8> {
    nonce + aead_seal(master, nonce, encode_utf8(WRAP_AAD@), dek)
}

/// Whether bytes are a wrapping of a data key under a master key and some nonce.
pub open spec fn locally_wrapped(master: Seq<u8>, dek: Seq<u8>, wrapped: Seq<u8>) -> bool {
    exists|nonce: Seq<u8>|
        nonce.len() == NONCE_LEN && wrapped == #[trigger] wrap_of(master, nonce, dek)
}

/// The data key inside a locally wrapped key: a nonce, followed by the sealed key.
pub open spec fn locally_unwrapped(master: Seq<u8>, wrapped: Seq<u8>) -> Option<Seq<u8>> {
    if wrapped.len() < NONCE_LEN {
        None
    } else {
        match opened(
            master,
            wrapped.take(NONCE_LEN as int),
            encode_utf8(WRAP_AAD@),
            wrapped.skip(NONCE_LEN as int),
        ) {
            Some(key) => if key.len() == DEK_LEN {
                Some(key)
            } else {
                None
            },
            None => None,
        }
    }
}

/// Why a locally wrapped key is refused: it does not open, or what it holds is no data key.
pub open spec fn local_unwrap_error(master: Seq<u8>, wrapped: Seq<u8>) -> Error {
    let key = opened(
        master,
        wrapped.take(NONCE_LEN as int),
        encode_utf8(WRAP_AAD@),
        wrapped.skip(NONCE_LEN as int),
    );
    if wrapped.len() < NONCE_LEN || key is None {
        Error::KeyUnwrap
    } else {
        Error::KeyLength { expected: DEK_LEN, got: key->0.len() as usize }
    }
}

/// What base64 text decodes to in the standard alphabet with padding.
pub uninterp spec fn base64_decoded(text: Seq<char>) -> Option<Seq<u8>>;

/// `base64::engine::general_purpose::STANDARD.decode` gives the bytes that the text encodes, a
/// function of the text, or fails.
#[verifier::external_body]
fn base64_decode(text: &str) -> (r: Option<Vec<u8>>)
    ensures
        match r {
            Some(bytes) => base64_decoded(text@) == Some(bytes@),
            None => base64_decoded(text@) is None,
        },
{
    base64::engine::general_purpose::STANDARD.decode(text).ok()
}

impl LocalKeyWrapper {
    /// The master key.
    pub closed spec fn master(&self) -> Seq<u8> {
        self.master@
    }

    /// The id under which wrapped keys are recorded.
    pub closed spec fn id(&self) -> Seq<char> {
        self.key_id@
    }

    pub fn new(master: [u8; DEK_LEN], key_id: &str) -> (r: Self)
        ensures
            r.master() == master@,
            r.id() == key_id@,
    {
        let key = SecretBytes::new(clone_bytes(&master));
        LocalKeyWrapper { master: Dek { key }, key_id: key_id.to_owned() }
    }

    /// A wrapper with a new master key.
    pub fn random() -> (r: Self)
        ensures
            r.master().len() == DEK_LEN,
            r.id() == "local-dev"@,
    {
        LocalKeyWrapper { master: generate_dek(), key_id: "local-dev".to_owned() }
    }

    /// A wrapper with the given master key, which must have the length of a key.
    pub fn from_raw(raw: &[u8], key_id: &str) -> (r: Result<Self>)
        ensures
            match r {
                Ok(wrapper) => raw@.len() == DEK_LEN && wrapper.master() == raw@ && wrapper.id()
                    == key_id@,
                Err(error) => raw@.len() != DEK_LEN && error == (Error::KeyLength {
                    expected: DEK_LEN,
                    got: raw@.len() as usize,
                }),
            },
    {
        match dek_from_slice(raw) {
            Ok(master) => Ok(LocalKeyWrapper { master, key_id: key_id.to_owned() }),
            Err(error) => Err(error),
        }
    }

    /// A wrapper with a master key given in base64, white space around it ignored.
    pub fn from_base64(encoded: &str, key_id: &str) -> (r: Result<Self>)
        ensures
            match base64_decoded(trimmed(encoded@)) {
                None => r == Err::<Self, Error>(Error::KeyUnwrap),
                Some(raw) => if raw.len() == DEK_LEN {
                    r matches Ok(wrapper) && wrapper.master() == raw && wrapper.id() == key_id@
                } else {
                    r == Err::<Self, Error>(
                        Error::KeyLength { expected: DEK_LEN, got: raw.len() as usize },
                    )
                },
            },
    {
        let text = trim(encoded);
        match base64_decode(text.as_str()) {
            Some(raw) => Self::from_raw(raw.as_slice(), key_id),
            None => Err(Error::KeyUnwrap),
        }
    }

    /// Wraps a data key under the given nonce.
    pub fn wrap_under(&self, dek: &Dek, nonce: &[u8; NONCE_LEN]) -> (r: Result<Vec<u8>>)
        ensures
            r matches Ok(wrapped) && wrapped@ == wrap_of(self.master(), nonce@, dek@)
                && locally_unwrapped(self.master(), wrapped@) == Some(dek@),
    {
        let aad = bytes_of(WRAP_AAD);
        match seal(&self.master, nonce, aad.as_slice(), dek.as_slice()) {
            Ok(sealed) => {
                let mut sealed = sealed;
                let ghost ciphertext = sealed@;
                let mut wrapped = clone_bytes(nonce);
                wrapped.append(&mut sealed);
                proof {
                    assert(wrapped@.take(NONCE_LEN as int) =~= nonce@);
                    assert(wrapped@.skip(NONCE_LEN as int) =~= ciphertext);
                }
                Ok(wrapped)
            },
            Err(_) => Err(Error::KeyWrap),
        }
    }

    /// Wraps a data key under a new nonce.
    fn wrap_dek(&self, dek: &Dek) -> (r: Result<Vec<u8>>)
        ensures
            r matches Ok(wrapped) && locally_wrapped(self.master(), dek@, wrapped@)
                && locally_unwrapped(self.master(), wrapped@) == Some(dek@),
    {
        let nonce = generate_nonce();
        self.wrap_under(dek, &nonce)
    }

    /// Wraps the data key of a wrapped key anew, under the given nonce.
    pub fn rewrap_under(&self, wrapped: &[u8], key_id: &str, nonce: &[u8; NONCE_LEN]) -> (r: Result<
        (Vec<u8>, String),
    >)
        ensures
            match locally_unwrapped(self.master(), wrapped@) {
                Some(dek) => {
                    &&& r matches Ok(rewrapped)
                    &&& rewrapped.0@ == wrap_of(self.master(), nonce@, dek)
                    &&& locally_unwrapped(self.master(), rewrapped.0@) == Some(dek)
                    &&& rewrapped.1@ == self.id()
                },
                None => r matches Err(error) && error == local_unwrap_error(
                    self.master(),
                    wrapped@,
                ),
            },
    {
        match self.unwrap_data_key(wrapped, key_id) {
            Ok(dek) => match self.wrap_under(&dek, nonce) {
                Ok(rewrapped) => Ok((rewrapped, self.key_id.clone())),
                Err(error) => Err(error),
            },
            Err(error) => Err(error),
        }
    }

    /// Wraps the data key of a wrapped key anew, under a new nonce: the new wrapping stands for
    /// the same data key.
    pub fn rewrap(&self, wrapped: &[u8], key_id: &str) -> (r: Result<(Vec<u8>, String)>)
        ensures
            match locally_unwrapped(self.master(), wrapped@) {
                Some(dek) => {
                    &&& r matches Ok(rewrapped)
                    &&& locally_wrapped(self.master(), dek, rewrapped.0@)
                    &&& locally_unwrapped(self.master(), rewrapped.0@) == Some(dek)
                    &&& rewrapped.1@ == self.id()
                },
                None => r matches Err(error) && error == local_unwrap_error(
                    self.master(),
                    wrapped@,
                ),
            },
            wrapped@.len() < NONCE_LEN ==> r == Err::<(Vec<u8>, String), Error>(Error::KeyUnwrap),
    {
        let nonce = generate_nonce();
        self.rewrap_under(wrapped, key_id, &nonce)
    }
}

impl KeyWrapper for LocalKeyWrapper {
    open spec fn unwrapped(&self, wrapped: Seq<u8>, key_id: Seq<char>) -> Option<Seq<u8>> {
        locally_unwrapped(self.master(), wrapped)
    }

    open spec fn unwrap_error(&self, wrapped: Seq<u8>, key_id: Seq<char>) -> Error {
        local_unwrap_error(self.master(), wrapped)
    }

    open spec fn self_contained(&self) -> bool {
        true
    }

    fn generate_data_key(&self) -> (r: Result<DataKey>)
        ensures
            r matches Ok(key) && key.key_id@ == self.id() && locally_wrapped(
                self.master(),
                key.plaintext@,
                key.wrapped@,
            ),
    {
        let dek = generate_dek();
        match self.wrap_dek(&dek) {
            Ok(wrapped) => Ok(
                DataKey { plaintext: dek, wrapped, key_id: self.key_id.clone() },
            ),
            Err(error) => Err(error),
        }
    }

    fn unwrap_data_key(&self, wrapped: &[u8], _key_id: &str) -> (r: Result<Dek>) {
        if wrapped.len() < NONCE_LEN {
            return Err(Error::KeyUnwrap);
        }
        let mut nonce: [u8; NONCE_LEN] = [0u8; NONCE_LEN];
        let mut i: usize = 0;
        while i < NONCE_LEN
            invariant
                i <= NONCE_LEN <= wrapped@.len(),
                forall|j: int| 0 <= j < i ==> nonce@[j] == wrapped@[j],
            decreases NONCE_LEN - i,
        {
            nonce[i] = wrapped[i];
            i = i + 1;
        }
        assert(nonce@ =~= wrapped@.take(NONCE_LEN as int));
        let sealed = vstd::slice::slice_subrange(wrapped, NONCE_LEN, wrapped.len());
        assert(sealed@ =~= wrapped@.skip(NONCE_LEN as int));
        let aad = bytes_of(WRAP_AAD);
        match open(&self.master, &nonce, aad.as_slice(), sealed) {
            Ok(key) => dek_from_slice(key.as_slice()),
            Err(_) => Err(Error::KeyUnwrap),
        }
    }
}

/// A data key wrapped anew under a nonce other than that of the old wrapping, its first 24 bytes,
/// is another wrapping.
pub proof fn law_rewrapped_key_is_new(
    wrapper: &LocalKeyWrapper,
    wrapped: Seq<u8>,
    nonce: Seq<u8>,
    dek: Seq<u8>,
)
    requires
        nonce.len() == NONCE_LEN,
        nonce != wrapped.take(NONCE_LEN as int),
    ensures
        wrap_of(wrapper.master(), nonce, dek) != wrapped,
{
    assert(wrap_of(wrapper.master(), nonce, dek).take(NONCE_LEN as int) =~= nonce);
}

/// An envelope whose data key is wrapped anew opens to the same message.
pub proof fn law_rewrapped_envelope_opens_alike(
    wrapper: &LocalKeyWrapper,
    env: EnvelopeView,
    rewrapped: Seq<u8>,
    key_id: Seq<char>,
    aad: Seq<u8>,
)
    requires
        locally_unwrapped(wrapper.master(), rewrapped) == locally_unwrapped(
            wrapper.master(),
            env.wrapped_dek,
        ),
    ensures
        envelope_opened(
            wrapper,
            EnvelopeView { wrapped_dek: rewrapped, key_id, ..env },
            aad,
        ) == envelope_opened(wrapper, env, aad),
{
}

} // verus!

//! What is sealed of a secret: the bytes of its value, or of its user name and password.

use vstd::prelude::*;
use vstd::utf8::{decode_utf8, encode_utf8, encode_utf8_decode_utf8, encode_utf8_valid_utf8, valid_utf8};
use crate::api_error::{bad_request, internal, ApiErrorView, ApiResult};
use crate::auth::{fingerprints_match, generate_token, token_text};
use crate::crypto::SecretBytes;
use crate::dto::{CreateSecretRequest, UpdateSecretRequest, UserPass};
use crate::order::{lemma_encoding_concat, lemma_encoding_injective};
use crate::text::bytes_of;
use crate::types::{SecretFormat, SecretKind};
use crate::validate::{field_refusal, validate_field, validate_value, value_refusal};

verus! {

/// The bytes to seal, and what the client is told of them.
pub struct Payload {
    pub format: SecretFormat,
    pub bytes: Vec<u8>,
    pub value: Option<String>,
    pub username: Option<String>,
    pub password: Option<String>,
}

pub struct PayloadView {
    pub format: SecretFormat,
    pub bytes: Seq<u8>,
    pub value: Option<Seq<char>>,
    pub username: Option<Seq<char>>,
    pub password: Option<Seq<char>>,
}

impl View for Payload {
    type V = PayloadView;

    open spec fn view(&self) -> PayloadView {
        PayloadView {
            format: self.format,
            bytes: self.bytes@,
            value: self.value.deep_view(),
            username: self.username.deep_view(),
            password: self.password.deep_view(),
        }
    }
}

/// A hexadecimal digit, in lower case.
pub open spec fn hex_digit(n: u32) -> char {
    if n < 10 {
        ('0' as u32 + n) as char
    } else {
        ('a' as u32 + n - 10) as char
    }
}

/// How a character stands in a JSON string: quotes, backslashes and control characters are
/// escaped, the others stand for themselves.
pub open spec fn escaped(c: char) -> Seq<char> {
    if c == '"' || c == '\\' {
        seq!['\\', c]
    } else if c == '\u{8}' {
        seq!['\\', 'b']
    } else if c == '\t' {
        seq!['\\', 't']
    } else if c == '\n' {
        seq!['\\', 'n']
    } else if c == '\u{c}' {
        seq!['\\', 'f']
    } else if c == '\r' {
        seq!['\\', 'r']
    } else if (c as u32) < 0x20 {
        seq!['\\', 'u', '0', '0', hex_digit(c as u32 / 16), hex_digit(c as u32 % 16)]
    } else {
        seq![c]
    }
}

/// Text with every character as it stands in a JSON string.
pub open spec fn escapes(text: Seq<char>) -> Seq<char>
    decreases text.len(),
{
    if text.len() == 0 {
        Seq::empty()
    } else {
        escaped(text[0]) + escapes(text.drop_first())
    }
}

/// The JSON string with the given text.
pub open spec fn json_string(text: Seq<char>) -> Seq<char> {
    seq!['"'] + escapes(text) + seq!['"']
}

/// `serde_json::to_vec` on a string writes it in UTF-8 as a JSON string: in quotes, with quotes and
/// backslashes escaped by a backslash, control characters by their short forms or by `\u00` and two
/// hexadecimal digits in lower case, and all other characters as they are. It cannot fail on a
/// string.
#[verifier::external_body]
fn encode_json_string(text: &str) -> (r: Vec<u8>)
    ensures
        r@ == encode_utf8(json_string(text@)),
{
    serde_json::to_vec(text).expect("a string is always serializable")
}

/// The JSON object with a user name and a password.
pub open spec fn userpass_json(username: Seq<char>, password: Seq<char>) -> Seq<u8> {
    encode_utf8("{\"username\":"@) + encode_utf8(json_string(username)) + encode_utf8(
        ",\"password\":"@,
    ) + encode_utf8(json_string(password)) + encode_utf8("}"@)
}

/// The JSON object made of the two encoded strings.
pub fn frame_userpass(username: Vec<u8>, password: Vec<u8>) -> (r: Vec<u8>)
    ensures
        r@ == encode_utf8("{\"username\":"@) + username@ + encode_utf8(",\"password\":"@)
            + password@ + encode_utf8("}"@),
{
    let mut username = username;
    let mut password = password;
    let mut out = bytes_of("{\"username\":");
    out.append(&mut username);
    let mut separator = bytes_of(",\"password\":");
    out.append(&mut separator);
    out.append(&mut password);
    let mut end = bytes_of("}");
    out.append(&mut end);
    out
}

/// The bytes that are sealed of a user name with a password.
pub fn encode_userpass(username: &str, password: &str) -> (r: Vec<u8>)
    ensures
        r@ == userpass_json(username@, password@),
{
    frame_userpass(encode_json_string(username), encode_json_string(password))
}

/// The payload of a bare value.
pub open spec fn opaque_payload(value: Seq<char>) -> PayloadView {
    PayloadView {
        format: SecretFormat::Opaque,
        bytes: encode_utf8(value),
        value: Some(value),
        username: None,
        password: None,
    }
}

/// The payload of a user name with a password.
pub open spec fn userpass_payload(username: Seq<char>, password: Seq<char>) -> PayloadView {
    PayloadView {
        format: SecretFormat::Userpass,
        bytes: userpass_json(username, password),
        value: None,
        username: Some(username),
        password: Some(password),
    }
}

pub fn make_opaque(value: String) -> (r: Payload)
    ensures
        r@ == opaque_payload(value@),
{
    Payload {
        format: SecretFormat::Opaque,
        bytes: bytes_of(value.as_str()),
        value: Some(value),
        username: None,
        password: None,
    }
}

pub fn make_userpass(username: String, password: String) -> (r: Payload)
    ensures
        r@ == userpass_payload(username@, password@),
{
    Payload {
        format: SecretFormat::Userpass,
        bytes: encode_userpass(username.as_str(), password.as_str()),
        value: None,
        username: Some(username),
        password: Some(password),
    }
}

/// Whether a request is for a user name with a password.
pub open spec fn wants_userpass(req: CreateSecretRequest) -> bool {
    req.username is Some || req.password is Some
}

/// Why the value of a new secret is refused, if it is.
pub open spec fn payload_refusal(req: CreateSecretRequest) -> Option<ApiErrorView> {
    if wants_userpass(req) {
        if req.value is Some {
            Some(
                ApiErrorView::BadRequest(
                    "provide either 'value' or 'username'/'password', not both"@,
                ),
            )
        } else if req.username is None {
            Some(ApiErrorView::BadRequest("userpass secret requires 'username'"@))
        } else if field_refusal("username"@, req.username->0@) is Some {
            field_refusal("username"@, req.username->0@)
        } else if req.password is Some {
            field_refusal("password"@, req.password->0@)
        } else if req.kind == SecretKind::Manual {
            Some(ApiErrorView::BadRequest("manual userpass secret requires 'password'"@))
        } else {
            None
        }
    } else if req.value is Some {
        value_refusal(req.value->0@)
    } else if req.kind == SecretKind::Manual {
        Some(ApiErrorView::BadRequest("manual secret requires 'value'"@))
    } else {
        None
    }
}

/// The payload of a new secret; `token` stands in for a value or password that was not given.
pub open spec fn payload_of(req: CreateSecretRequest, token: Seq<char>) -> PayloadView {
    if wants_userpass(req) {
        userpass_payload(
            req.username->0@,
            match req.password {
                Some(password) => password@,
                None => token,
            },
        )
    } else {
        opaque_payload(
            match req.value {
                Some(value) => value@,
                None => token,
            },
        )
    }
}

/// The payload of a new secret, given the token that stands in for a missing value or password.
pub fn create_payload_with(req: &CreateSecretRequest, token: String) -> (r: ApiResult<Payload>)
    ensures
        match payload_refusal(*req) {
            None => r matches Ok(payload) && payload@ == payload_of(*req, token@),
            Some(error) => r matches Err(e) && e@ == error,
        },
{
    if req.username.is_some() || req.password.is_some() {
        if req.value.is_some() {
            return Err(
                bad_request("provide either 'value' or 'username'/'password', not both"),
            );
        }
        let username = match &req.username {
            Some(username) => username.clone(),
            None => return Err(bad_request("userpass secret requires 'username'")),
        };
        match validate_field("username", username.as_str()) {
            Ok(_) => {},
            Err(error) => return Err(error),
        }
        let password = match &req.password {
            Some(password) => {
                match validate_field("password", password.as_str()) {
                    Ok(_) => {},
                    Err(error) => return Err(error),
                }
                password.clone()
            },
            None => match req.kind {
                SecretKind::Manual => return Err(
                    bad_request("manual userpass secret requires 'password'"),
                ),
                SecretKind::Automatic => token,
            },
        };
        Ok(make_userpass(username, password))
    } else {
        let value = match &req.value {
            Some(value) => {
                match validate_value(value.as_str()) {
                    Ok(_) => {},
                    Err(error) => return Err(error),
                }
                value.clone()
            },
            None => match req.kind {
                SecretKind::Manual => return Err(bad_request("manual secret requires 'value'")),
                SecretKind::Automatic => token,
            },
        };
        Ok(make_opaque(value))
    }
}

/// Whether a token stands in for the value or password of a new secret.
pub open spec fn wants_token(req: CreateSecretRequest) -> bool {
    if wants_userpass(req) {
        req.password is None
    } else {
        req.value is None
    }
}

/// Whether a payload is that of a new secret: what the request gives, or with a token where one
/// stands in for a missing value or password.
pub open spec fn created_payload(req: CreateSecretRequest, payload: PayloadView) -> bool {
    if wants_token(req) {
        exists|token: Seq<char>| token_text(token) && payload == #[trigger] payload_of(req, token)
    } else {
        forall|token: Seq<char>| payload == #[trigger] payload_of(req, token)
    }
}

/// The payload of a new secret: what the request gives or, for an automatic secret without a value
/// or password, a new token.
pub fn build_create_payload(req: &CreateSecretRequest) -> (r: ApiResult<Payload>)
    ensures
        match payload_refusal(*req) {
            None => r matches Ok(payload) && created_payload(*req, payload@),
            Some(error) => r matches Err(e) && e@ == error,
        },
{
    let missing = if req.username.is_some() || req.password.is_some() {
        req.password.is_none()
    } else {
        req.value.is_none()
    };
    if missing {
        let token = generate_token();
        create_payload_with(req, token)
    } else {
        create_payload_with(req, "".to_owned())
    }
}

/// The payload of a rotated secret: a new value, or the user name with a new password.
pub open spec fn rotated_payload(
    format: SecretFormat,
    username: Seq<char>,
    token: Seq<char>,
) -> PayloadView {
    match format {
        SecretFormat::Opaque => opaque_payload(token),
        SecretFormat::Userpass => userpass_payload(username, token),
    }
}

/// The payload of a rotated secret, given the new value or password. The user name counts for a
/// secret with a user name only.
pub fn rotate_payload_with(format: SecretFormat, username: String, token: String) -> (r: Payload)
    ensures
        r@ == rotated_payload(format, username@, token@),
{
    match format {
        SecretFormat::Opaque => make_opaque(token),
        SecretFormat::Userpass => make_userpass(username, token),
    }
}

/// The payload of a rotated secret, its value or password a new token.
pub fn rotate_payload(format: SecretFormat, username: String) -> (r: Payload)
    ensures
        exists|token: Seq<char>|
            token_text(token) && r@ == #[trigger] rotated_payload(format, username@, token),
{
    let token = generate_token();
    rotate_payload_with(format, username, token)
}

/// `core::str::from_utf8` gives the text that bytes encode, and fails exactly on bytes that are
/// not valid UTF-8.
#[verifier::external_body]
fn text_of(bytes: &[u8]) -> (r: Option<&str>)
    ensures
        match r {
            Some(text) => valid_utf8(bytes@) && text@ == decode_utf8(bytes@),
            None => !valid_utf8(bytes@),
        },
{
    core::str::from_utf8(bytes).ok()
}

/// A value, user name and password, as far as a secret has them.
pub type Fields = (Option<String>, Option<String>, Option<String>);

pub open spec fn fields_view(fields: Fields) -> (
    Option<Seq<char>>,
    Option<Seq<char>>,
    Option<Seq<char>>,
) {
    (fields.0.deep_view(), fields.1.deep_view(), fields.2.deep_view())
}

/// What opened bytes hold. `parsed` is the user name and password read from them, for a secret
/// that has them.
pub fn decode_payload(
    format: SecretFormat,
    plaintext: &SecretBytes,
    parsed: Option<UserPass>,
) -> (r: ApiResult<Fields>)
    ensures
        match format {
            SecretFormat::Opaque => if valid_utf8(plaintext@) {
                r matches Ok(fields) && fields_view(fields) == (
                    Some(decode_utf8(plaintext@)),
                    None::<Seq<char>>,
                    None::<Seq<char>>,
                )
            } else {
                r matches Err(e) && e@ == ApiErrorView::Internal(
                    "decrypted value is not valid UTF-8"@,
                )
            },
            SecretFormat::Userpass => match parsed {
                Some(up) => r matches Ok(fields) && fields_view(fields) == (
                    None::<Seq<char>>,
                    Some(up.username@),
                    Some(up.password@),
                ),
                None => r matches Err(e) && e@ == ApiErrorView::Internal(
                    "stored userpass payload is malformed"@,
                ),
            },
        },
{
    match format {
        SecretFormat::Opaque => match text_of(plaintext.as_slice()) {
            Some(text) => Ok((Some(text.to_owned()), None, None)),
            None => Err(internal("decrypted value is not valid UTF-8")),
        },
        SecretFormat::Userpass => match parsed {
            Some(up) => Ok((None, Some(up.username), Some(up.password))),
            None => Err(internal("stored userpass payload is malformed")),
        },
    }
}

/// The bytes that a value is sealed as hold that value.
pub proof fn law_opaque_round_trip(value: Seq<char>)
    ensures
        valid_utf8(opaque_payload(value).bytes),
        decode_utf8(opaque_payload(value).bytes) == value,
{
    encode_utf8_valid_utf8(value);
    encode_utf8_decode_utf8(value);
}

/// Whether a presented value is the value, or the password, of an opened version.
pub open spec fn presented_matches(
    format: SecretFormat,
    presented: Seq<char>,
    plaintext: Seq<u8>,
    password: Option<Seq<char>>,
) -> bool {
    match format {
        SecretFormat::Opaque => encode_utf8(presented) == plaintext,
        SecretFormat::Userpass => password == Some(presented),
    }
}

/// Whether a presented value is the value, or the password, of an opened version; `parsed` is the
/// user name and password read from it, if it holds any.
pub fn matches_presented(
    format: SecretFormat,
    presented: &str,
    plaintext: &SecretBytes,
    parsed: &Option<UserPass>,
) -> (r: bool)
    ensures
        r == presented_matches(
            format,
            presented@,
            plaintext@,
            match *parsed {
                Some(up) => Some(up.password@),
                None => None,
            },
        ),
{
    match format {
        SecretFormat::Opaque => fingerprints_match(presented.as_bytes(), plaintext.as_slice()),
        SecretFormat::Userpass => match parsed {
            Some(up) => {
                proof {
                    if encode_utf8(presented@) == encode_utf8(up.password@) {
                        crate::order::lemma_encoding_injective(presented@, up.password@);
                    }
                }
                fingerprints_match(presented.as_bytes(), up.password.as_str().as_bytes())
            },
            None => false,
        },
    }
}

/// The user name and password after an update, or why they are refused.
pub open spec fn merge_refusal(req: UpdateSecretRequest, current: UserPass) -> Option<ApiErrorView> {
    let (username, password) = merged(req, current);
    if field_refusal("username"@, username) is Some {
        field_refusal("username"@, username)
    } else {
        field_refusal("password"@, password)
    }
}

/// What an update gives replaces the current user name and password, what it leaves out stays.
pub open spec fn merged(req: UpdateSecretRequest, current: UserPass) -> (Seq<char>, Seq<char>) {
    (
        match req.username {
            Some(username) => username@,
            None => current.username@,
        },
        match req.password {
            Some(password) => password@,
            None => current.password@,
        },
    )
}

/// The bytes to seal after an update of a user name with a password.
pub fn merge_userpass(req: &UpdateSecretRequest, current: UserPass) -> (r: ApiResult<Vec<u8>>)
    ensures
        match merge_refusal(*req, current) {
            None => r matches Ok(bytes) && bytes@ == userpass_json(
                merged(*req, current).0,
                merged(*req, current).1,
            ),
            Some(error) => r matches Err(e) && e@ == error,
        },
{
    let username = match &req.username {
        Some(username) => username.clone(),
        None => current.username,
    };
    let password = match &req.password {
        Some(password) => password.clone(),
        None => current.password,
    };
    match validate_field("username", username.as_str()) {
        Ok(_) => {},
        Err(error) => return Err(error),
    }
    match validate_field("password", password.as_str()) {
        Ok(_) => {},
        Err(error) => return Err(error),
    }
    Ok(encode_userpass(username.as_str(), password.as_str()))
}

proof fn lemma_escape_starts_no_quote(c: char)
    ensures
        escaped(c).len() > 0,
        escaped(c)[0] != '"',
{
}

proof fn lemma_escape_unique(c: char, d: char, x: Seq<char>, y: Seq<char>)
    requires
        escaped(c) + x == escaped(d) + y,
    ensures
        c == d,
{
    let s = escaped(c) + x;
    let t = escaped(d) + y;
    assert(s[0] == escaped(c)[0] && t[0] == escaped(d)[0]);
    if escaped(c).len() > 1 && escaped(d).len() > 1 {
        assert(s[1] == escaped(c)[1] && t[1] == escaped(d)[1]);
        if escaped(c).len() > 2 && escaped(d).len() > 2 {
            assert(s[4] == escaped(c)[4] && t[4] == escaped(d)[4]);
            assert(s[5] == escaped(c)[5] && t[5] == escaped(d)[5]);
        }
    }
}

/// A JSON string ends where its text does: what follows it is not taken for text.
proof fn lemma_string_ends(a: Seq<char>, b: Seq<char>, x: Seq<char>, y: Seq<char>)
    requires
        escapes(a) + seq!['"'] + x == escapes(b) + seq!['"'] + y,
    ensures
        a == b,
        x == y,
    decreases a.len(),
{
    let s = escapes(a) + seq!['"'] + x;
    let t = escapes(b) + seq!['"'] + y;
    if a.len() == 0 && b.len() == 0 {
        assert(a =~= b);
        assert(s.skip(1) =~= x && t.skip(1) =~= y);
    } else if a.len() == 0 {
        lemma_escape_starts_no_quote(b[0]);
        assert(s[0] == '"' && t[0] == escaped(b[0])[0]);
    } else if b.len() == 0 {
        lemma_escape_starts_no_quote(a[0]);
        assert(t[0] == '"' && s[0] == escaped(a[0])[0]);
    } else {
        let rest_a = escapes(a.drop_first()) + seq!['"'] + x;
        let rest_b = escapes(b.drop_first()) + seq!['"'] + y;
        assert(s =~= escaped(a[0]) + rest_a);
        assert(t =~= escaped(b[0]) + rest_b);
        lemma_escape_unique(a[0], b[0], rest_a, rest_b);
        let n = escaped(a[0]).len() as int;
        assert(s.skip(n) =~= rest_a && t.skip(n) =~= rest_b);
        lemma_string_ends(a.drop_first(), b.drop_first(), x, y);
        assert(a =~= seq![a[0]] + a.drop_first());
        assert(b =~= seq![b[0]] + b.drop_first());
    }
}

/// The bytes that are sealed of a user name with a password determine both: different pairs give
/// different bytes.
pub proof fn law_pair_is_determined(
    username: Seq<char>,
    password: Seq<char>,
    other_username: Seq<char>,
    other_password: Seq<char>,
)
    requires
        userpass_json(username, password) == userpass_json(other_username, other_password),
    ensures
        username == other_username,
        password == other_password,
{
    lemma_pair_text(username, password);
    lemma_pair_text(other_username, other_password);
    lemma_encoding_injective(
        pair_text(username, password),
        pair_text(other_username, other_password),
    );
    lemma_pair_parts(username, password);
    lemma_pair_parts(other_username, other_password);
    let head = "{\"username\":"@ + seq!['"'];
    let mid = ",\"password\":"@ + seq!['"'];
    let x = escapes(password) + seq!['"'] + "}"@;
    let y = escapes(other_password) + seq!['"'] + "}"@;
    lemma_same_head(
        head,
        escapes(username) + seq!['"'] + (mid + x),
        escapes(other_username) + seq!['"'] + (mid + y),
    );
    lemma_string_ends(username, other_username, mid + x, mid + y);
    lemma_same_head(mid, x, y);
    lemma_string_ends(password, other_password, "}"@, "}"@);
}

proof fn lemma_same_head(head: Seq<char>, x: Seq<char>, y: Seq<char>)
    requires
        head + x == head + y,
    ensures
        x == y,
{
    assert((head + x).skip(head.len() as int) =~= x);
    assert((head + y).skip(head.len() as int) =~= y);
}

/// The text of a pair, cut behind the quotes that open its two strings.
proof fn lemma_pair_parts(username: Seq<char>, password: Seq<char>)
    ensures
        pair_text(username, password) == ("{\"username\":"@ + seq!['"']) + (escapes(username)
            + seq!['"'] + ((",\"password\":"@ + seq!['"']) + (escapes(password) + seq!['"']
            + "}"@))),
{
    assert(pair_text(username, password) =~= ("{\"username\":"@ + seq!['"']) + (escapes(username)
        + seq!['"'] + ((",\"password\":"@ + seq!['"']) + (escapes(password) + seq!['"'] + "}"@))));
}

/// The user name and the password that sealed bytes hold, if they are those of a pair.
pub open spec fn pair_of(bytes: Seq<u8>) -> Option<(Seq<char>, Seq<char>)> {
    if exists|pair: (Seq<char>, Seq<char>)| bytes == #[trigger] userpass_json(pair.0, pair.1) {
        Some(choose|pair: (Seq<char>, Seq<char>)| bytes == #[trigger] userpass_json(pair.0, pair.1))
    } else {
        None
    }
}

/// The bytes that a user name with a password is sealed as hold that pair.
pub proof fn law_pair_round_trip(username: Seq<char>, password: Seq<char>)
    ensures
        pair_of(userpass_payload(username, password).bytes) == Some((username, password)),
{
    let bytes = userpass_json(username, password);
    let given = (username, password);
    assert(bytes == userpass_json(given.0, given.1));
    let pair = choose|pair: (Seq<char>, Seq<char>)|
        bytes == #[trigger] userpass_json(pair.0, pair.1);
    law_pair_is_determined(pair.0, pair.1, username, password);
}

/// The text of the JSON object with a user name and a password.
pub open spec fn pair_text(username: Seq<char>, password: Seq<char>) -> Seq<char> {
    "{\"username\":"@ + json_string(username) + ",\"password\":"@ + json_string(password) + "}"@
}

proof fn lemma_pair_text(username: Seq<char>, password: Seq<char>)
    ensures
        userpass_json(username, password) == encode_utf8(pair_text(username, password)),
{
    let a = "{\"username\":"@;
    let b = json_string(username);
    let c = ",\"password\":"@;
    let d = json_string(password);
    lemma_encoding_concat(a, b);
    lemma_encoding_concat(a + b, c);
    lemma_encoding_concat(a + b + c, d);
    lemma_encoding_concat(a + b + c + d, "}"@);
}

} // verus!

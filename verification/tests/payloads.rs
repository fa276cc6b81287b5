use base64::Engine;
use hyperion_vault::api_error::ApiError;
use hyperion_vault::crypto::SecretBytes;
use hyperion_vault::dto::{CreateSecretRequest, UpdateSecretRequest, UserPass};
use hyperion_vault::payload::{
    build_create_payload, create_payload_with, decode_payload, encode_userpass, frame_userpass,
    matches_presented, merge_userpass, rotate_payload, rotate_payload_with,
};
use hyperion_vault::types::{SecretFormat, SecretKind};

fn decode_userpass(bytes: &[u8]) -> Option<UserPass> {
    let value: serde_json::Value = serde_json::from_slice(bytes).ok()?;
    Some(UserPass {
        username: value.get("username")?.as_str()?.to_string(),
        password: value.get("password")?.as_str()?.to_string(),
    })
}

fn request(kind: SecretKind) -> CreateSecretRequest {
    CreateSecretRequest {
        name: "db/password".to_string(),
        kind,
        value: None,
        username: None,
        password: None,
        description: None,
        rotation_interval_secs: None,
        grace_period_secs: None,
    }
}

fn update() -> UpdateSecretRequest {
    UpdateSecretRequest {
        value: None,
        username: None,
        password: None,
        description: None,
        rotation_interval_secs: None,
        grace_period_secs: None,
    }
}

fn text(s: &str) -> Option<String> {
    Some(s.to_string())
}

fn message<T>(r: Result<T, ApiError>) -> String {
    match r {
        Err(ApiError::BadRequest(message)) => message,
        _ => panic!("the request must be refused"),
    }
}

#[test]
fn userpass_payload_roundtrips() {
    let bytes = encode_userpass("alice", "s3cr3t");
    let up = decode_userpass(&bytes).expect("decode");
    assert_eq!(up.username, "alice");
    assert_eq!(up.password, "s3cr3t");
}

#[test]
fn decode_payload_opaque_returns_value() {
    let (value, username, password) =
        decode_payload(SecretFormat::Opaque, &SecretBytes::new(b"raw".to_vec()), None)
            .expect("opaque");
    assert_eq!(value.as_deref(), Some("raw"));
    assert!(username.is_none() && password.is_none());
}

#[test]
fn decode_payload_userpass_returns_pair() {
    let bytes = encode_userpass("bob", "pw");
    let parsed = decode_userpass(&bytes);
    let (value, username, password) =
        decode_payload(SecretFormat::Userpass, &SecretBytes::new(bytes), parsed).expect("userpass");
    assert!(value.is_none());
    assert_eq!(username.as_deref(), Some("bob"));
    assert_eq!(password.as_deref(), Some("pw"));
}

#[test]
fn decode_userpass_rejects_non_json() {
    assert!(decode_userpass(b"not-json").is_none());
    let bytes = SecretBytes::new(b"not-json".to_vec());
    assert!(decode_payload(SecretFormat::Userpass, &bytes, None).is_err());
}

#[test]
fn opened_bytes_that_are_no_text_are_an_error() {
    match decode_payload(SecretFormat::Opaque, &SecretBytes::new(vec![0xff]), None) {
        Err(ApiError::Internal(message)) => {
            assert_eq!(message, "decrypted value is not valid UTF-8")
        }
        _ => panic!("invalid text must be refused"),
    }
}

#[test]
fn userpass_payload_is_escaped_json() {
    assert_eq!(
        encode_userpass("a\"b\\", "line\nü").as_slice(),
        "{\"username\":\"a\\\"b\\\\\",\"password\":\"line\\nü\"}".as_bytes()
    );
    assert_eq!(
        frame_userpass(b"\"x\"".to_vec(), b"\"y\"".to_vec()),
        b"{\"username\":\"x\",\"password\":\"y\"}".to_vec()
    );
}

#[test]
fn manual_secrets_need_a_value_or_a_pair() {
    let mut req = request(SecretKind::Manual);
    assert_eq!(message(build_create_payload(&req)), "manual secret requires 'value'");
    req.value = text("v");
    let payload = build_create_payload(&req).unwrap();
    assert_eq!(payload.format, SecretFormat::Opaque);
    assert_eq!(payload.bytes, b"v".to_vec());
    assert_eq!(payload.value, text("v"));
    req.username = text("u");
    assert!(build_create_payload(&req).is_err());
    req.value = None;
    assert!(build_create_payload(&req).is_err());
    req.password = text("p");
    let payload = build_create_payload(&req).unwrap();
    assert_eq!(payload.format, SecretFormat::Userpass);
    assert_eq!(payload.bytes, encode_userpass("u", "p"));
    assert_eq!((payload.username, payload.password), (text("u"), text("p")));
}

#[test]
fn automatic_secrets_take_a_fresh_token() {
    let req = request(SecretKind::Automatic);
    let payload = create_payload_with(&req, "tok".to_string()).unwrap();
    assert_eq!(payload.bytes, b"tok".to_vec());
    assert_eq!(payload.value, text("tok"));
    let mut req = request(SecretKind::Automatic);
    req.username = text("u");
    let payload = create_payload_with(&req, "tok".to_string()).unwrap();
    assert_eq!(payload.format, SecretFormat::Userpass);
    assert_eq!(payload.bytes, encode_userpass("u", "tok"));
    assert_eq!(build_create_payload(&req).unwrap().password.unwrap().len(), 43);
    let a = rotate_payload(SecretFormat::Opaque, String::new());
    let b = rotate_payload(SecretFormat::Opaque, String::new());
    assert_ne!(a.bytes, b.bytes);
    let kept = rotate_payload_with(SecretFormat::Userpass, "u".to_string(), "t".to_string());
    assert_eq!(kept.bytes, encode_userpass("u", "t"));
    assert_eq!(kept.value, None);
}

#[test]
fn presented_values_are_compared_with_value_or_password() {
    let opaque = SecretBytes::new("schlüssel".as_bytes().to_vec());
    assert!(matches_presented(SecretFormat::Opaque, "schlüssel", &opaque, &None));
    assert!(!matches_presented(SecretFormat::Opaque, "schlussel", &opaque, &None));
    let bytes = encode_userpass("u", "p");
    let parsed = decode_userpass(&bytes);
    let pair = SecretBytes::new(bytes);
    assert!(matches_presented(SecretFormat::Userpass, "p", &pair, &parsed));
    assert!(!matches_presented(SecretFormat::Userpass, "u", &pair, &parsed));
    assert!(!matches_presented(SecretFormat::Userpass, "p", &pair, &None));
}

#[test]
fn an_update_keeps_the_field_it_does_not_name() {
    let current = || UserPass { username: "u".to_string(), password: "p".to_string() };
    let mut req = update();
    req.password = text("q");
    assert_eq!(merge_userpass(&req, current()).unwrap(), encode_userpass("u", "q"));
    let mut req = update();
    req.username = text("v");
    assert_eq!(merge_userpass(&req, current()).unwrap(), encode_userpass("v", "p"));
    req.username = text("");
    assert!(merge_userpass(&req, current()).is_err());
}

#[test]
fn generated_values_are_tokens_of_32_bytes() {
    let decode = |text: &str| {
        base64::engine::general_purpose::URL_SAFE_NO_PAD.decode(text).unwrap().len()
    };
    let made = build_create_payload(&request(SecretKind::Automatic)).unwrap();
    assert_eq!(decode(made.value.as_deref().unwrap()), 32);
    let rotated = rotate_payload(SecretFormat::Opaque, String::new());
    assert_eq!(decode(rotated.value.as_deref().unwrap()), 32);
    let pair = rotate_payload(SecretFormat::Userpass, "u".to_string());
    assert_eq!(pair.username.as_deref(), Some("u"));
    assert_eq!(decode(pair.password.as_deref().unwrap()), 32);
}

#[test]
fn pairs_are_sealed_as_json_with_its_escapes() {
    assert_eq!(
        encode_userpass("q\"\\\u{8}\t\n\u{c}\r/", "\u{0}\u{b}\u{1f} \u{7f}\u{e9}\u{1f511}"),
        "{\"username\":\"q\\\"\\\\\\b\\t\\n\\f\\r/\",\"password\":\"\\u0000\\u000b\\u001f \u{7f}\u{e9}\u{1f511}\"}"
            .as_bytes()
    );
    assert_eq!(encode_userpass("", ""), b"{\"username\":\"\",\"password\":\"\"}");
}

#[test]
fn different_pairs_are_sealed_as_different_bytes() {
    let quoted = "\",\"password\":\"";
    let pairs = [("a", "b"), ("b", "a"), ("ab", ""), ("", "ab"), ("a\\", "b"), ("a\"", "b"), ("a", quoted)];
    for (i, a) in pairs.iter().enumerate() {
        for (j, b) in pairs.iter().enumerate() {
            assert_eq!(encode_userpass(a.0, a.1) == encode_userpass(b.0, b.1), i == j);
        }
        let read = decode_userpass(&encode_userpass(a.0, a.1)).unwrap();
        assert_eq!((read.username.as_str(), read.password.as_str()), *a);
    }
}

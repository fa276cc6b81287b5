use hyperion_vault::types::{aad_for, SecretFormat, SecretKind};

#[test]
fn secret_format_roundtrips_through_str() {
    for f in [SecretFormat::Opaque, SecretFormat::Userpass] {
        assert_eq!(SecretFormat::parse(f.as_str()), Some(f));
    }
}

#[test]
fn secret_format_rejects_unknown() {
    assert_eq!(SecretFormat::parse("kv"), None);
    assert_eq!(SecretFormat::parse(""), None);
}

#[test]
fn secret_kind_roundtrips_through_str() {
    for k in [SecretKind::Manual, SecretKind::Automatic] {
        assert_eq!(SecretKind::parse(k.as_str()), Some(k));
    }
    assert_eq!(SecretKind::parse("Manual"), None);
    assert_eq!(SecretKind::Manual.as_str(), "manual");
    assert_eq!(SecretKind::Automatic.as_str(), "automatic");
}

#[test]
fn associated_data_is_name_colon_version() {
    assert_eq!(aad_for("db/password", 1), b"db/password:1".to_vec());
    assert_eq!(aad_for("a:1", -12), b"a:1:-12".to_vec());
    assert_eq!(aad_for("x", i32::MIN), b"x:-2147483648".to_vec());
    assert_ne!(aad_for("a", 12), aad_for("a:1", 2));
}

use std::collections::HashSet;

use hyperion_vault::crypto::{
    self, generate_dek, generate_nonce, open, open_envelope, seal, seal_envelope, seal_under,
    DataKey, Envelope, KeyWrapper, LocalKeyWrapper, DEK_LEN, NONCE_LEN,
};
use hyperion_vault::error::Error;
use hyperion_vault::types::aad_for;

#[test]
fn seal_open_round_trips() {
    let dek = generate_dek();
    let nonce = generate_nonce();
    let aad = aad_for("db/password", 1);
    let plaintext = b"super-secret-value";

    let ct = seal(&dek, &nonce, &aad, plaintext).unwrap();
    assert_ne!(ct.as_slice(), plaintext, "ciphertext must not equal plaintext");
    let pt = open(&dek, &nonce, &aad, &ct).unwrap();
    assert_eq!(pt.as_slice(), plaintext);
}

#[test]
fn ciphertext_tamper_is_rejected() {
    let dek = generate_dek();
    let nonce = generate_nonce();
    let aad = aad_for("name", 1);
    let mut ct = seal(&dek, &nonce, &aad, b"value").unwrap();
    ct[0] ^= 0x01;
    assert!(open(&dek, &nonce, &aad, &ct).is_err(), "tampered ciphertext must fail AEAD");
}

#[test]
fn tag_truncation_is_rejected() {
    let dek = generate_dek();
    let nonce = generate_nonce();
    let aad = aad_for("name", 1);
    let mut ct = seal(&dek, &nonce, &aad, b"value").unwrap();
    ct.pop();
    assert!(open(&dek, &nonce, &aad, &ct).is_err());
}

#[test]
fn nonce_tamper_is_rejected() {
    let dek = generate_dek();
    let nonce = generate_nonce();
    let aad = aad_for("name", 1);
    let ct = seal(&dek, &nonce, &aad, b"value").unwrap();
    let mut bad_nonce = nonce;
    bad_nonce[0] ^= 0x01;
    assert!(open(&dek, &bad_nonce, &aad, &ct).is_err());
}

#[test]
fn wrong_key_is_rejected() {
    let dek = generate_dek();
    let other = generate_dek();
    let nonce = generate_nonce();
    let aad = aad_for("name", 1);
    let ct = seal(&dek, &nonce, &aad, b"value").unwrap();
    assert!(open(&other, &nonce, &aad, &ct).is_err());
}

#[test]
fn aad_binds_ciphertext_to_name_and_version() {
    let dek = generate_dek();
    let nonce = generate_nonce();
    let ct = seal(&dek, &nonce, &aad_for("secretA", 1), b"value").unwrap();

    assert!(
        open(&dek, &nonce, &aad_for("secretB", 1), &ct).is_err(),
        "ciphertext must not decrypt under a different secret name"
    );
    assert!(
        open(&dek, &nonce, &aad_for("secretA", 2), &ct).is_err(),
        "ciphertext must not decrypt under a different version"
    );
    assert!(open(&dek, &nonce, &aad_for("secretA", 1), &ct).is_ok());
}

#[test]
fn nonces_do_not_repeat() {
    let mut seen: HashSet<[u8; NONCE_LEN]> = HashSet::new();
    for _ in 0..100_000 {
        assert!(seen.insert(generate_nonce()), "nonce collision generated");
    }
}

#[test]
fn data_keys_are_unique_and_high_entropy() {
    let mut seen: HashSet<Vec<u8>> = HashSet::new();
    for _ in 0..50_000 {
        let dek = generate_dek();
        assert_eq!(dek.as_slice().len(), DEK_LEN);
        assert!(seen.insert(dek.as_slice().to_vec()), "DEK collision generated");
    }
}

#[test]
fn envelope_round_trips_through_wrapper() {
    let wrapper = LocalKeyWrapper::random();
    let aad = aad_for("api/key", 3);
    let env = seal_envelope(&wrapper, &aad, b"top-secret").unwrap();

    assert_ne!(env.ciphertext.as_slice(), b"top-secret");
    assert!(!env.wrapped_dek.is_empty());
    assert_eq!(open_envelope(&wrapper, &env, &aad).unwrap().as_slice(), b"top-secret");
}

#[test]
fn envelope_wrapped_dek_is_randomized_per_call() {
    let wrapper = LocalKeyWrapper::random();
    let a = seal_envelope(&wrapper, b"aad", b"value").unwrap();
    let b = seal_envelope(&wrapper, b"aad", b"value").unwrap();
    assert_ne!(a.wrapped_dek, b.wrapped_dek, "DEK wrapping must be nondeterministic");
    assert_ne!(a.ciphertext, b.ciphertext, "ciphertext must be nondeterministic");
}

#[test]
fn envelope_rejects_wrong_master_key() {
    let aad = aad_for("x", 1);
    let env = seal_envelope(&LocalKeyWrapper::random(), &aad, b"value").unwrap();
    let other = LocalKeyWrapper::random();
    assert!(open_envelope(&other, &env, &aad).is_err());
}

#[test]
fn envelope_rejects_tampered_wrapped_dek() {
    let wrapper = LocalKeyWrapper::random();
    let aad = aad_for("x", 1);
    let mut env = seal_envelope(&wrapper, &aad, b"value").unwrap();
    let last = env.wrapped_dek.len() - 1;
    env.wrapped_dek[last] ^= 0x01;
    assert!(open_envelope(&wrapper, &env, &aad).is_err());
}

#[test]
fn dek_from_slice_enforces_length() {
    assert!(crypto::dek_from_slice(&[0u8; DEK_LEN]).is_ok());
    assert!(crypto::dek_from_slice(&[0u8; DEK_LEN - 1]).is_err());
    assert!(crypto::dek_from_slice(&[0u8; DEK_LEN + 1]).is_err());
}

#[test]
fn rewrap_preserves_dek_and_payload() {
    let wrapper = LocalKeyWrapper::new([7u8; DEK_LEN], "master-1");
    let aad = b"db/password:1";
    let plaintext = b"super-secret-value";

    let env = seal_envelope(&wrapper, aad, plaintext).expect("seal");
    assert_eq!(
        open_envelope(&wrapper, &env, aad).expect("open").as_slice(),
        plaintext
    );

    let (rewrapped, key_id) = wrapper.rewrap(&env.wrapped_dek, &env.key_id).expect("rewrap");
    assert_eq!(key_id, "master-1");
    assert_ne!(
        rewrapped, env.wrapped_dek,
        "a fresh wrap nonce makes the wrapped blob differ"
    );

    let rewrapped_env = Envelope {
        wrapped_dek: rewrapped,
        ..env.clone()
    };
    assert_eq!(
        open_envelope(&wrapper, &rewrapped_env, aad)
            .expect("open rewrapped")
            .as_slice(),
        plaintext
    );
}

fn fixed_dek() -> crypto::Dek {
    let key: Vec<u8> = (0x80u8..0xa0).collect();
    crypto::dek_from_slice(&key).unwrap()
}

#[test]
fn sealing_matches_the_published_vector() {
    let nonce: [u8; NONCE_LEN] = std::array::from_fn(|i| 0x40 + i as u8);
    let aad = [0x50, 0x51, 0x52, 0x53, 0xc0, 0xc1, 0xc2, 0xc3, 0xc4, 0xc5, 0xc6, 0xc7];
    let text: &[u8] = b"Ladies and Gentlemen of the class of '99: If I could offer you only one tip for the future, sunscreen would be it.";
    let ct = seal(&fixed_dek(), &nonce, &aad, text).unwrap();
    assert_eq!(ct.len(), text.len() + 16);
    assert_eq!(&ct[..8], &[0xbd, 0x6d, 0x17, 0x9d, 0x3e, 0x83, 0xd4, 0x3b]);
    assert_eq!(
        &ct[text.len()..],
        &[0xc0, 0x87, 0x59, 0x24, 0xc1, 0xc7, 0x98, 0x79, 0x47, 0xde, 0xaf, 0xd8, 0x78, 0x0a, 0xcf, 0x49]
    );
    assert_eq!(open(&fixed_dek(), &nonce, &aad, &ct).unwrap().as_slice(), text);
}

#[test]
fn sealing_under_a_given_key_and_nonce_is_exact() {
    let key = DataKey {
        plaintext: fixed_dek(),
        wrapped: vec![1, 2, 3],
        key_id: "k".to_string(),
    };
    let env = seal_under(key, [9u8; NONCE_LEN], b"aad", b"value").unwrap();
    assert_eq!(env.key_id, "k");
    assert_eq!(env.wrapped_dek, vec![1, 2, 3]);
    assert_eq!(env.nonce, [9u8; NONCE_LEN]);
    assert_eq!(env.ciphertext, seal(&fixed_dek(), &[9u8; NONCE_LEN], b"aad", b"value").unwrap());
}

#[test]
fn local_wrapper_reports_what_it_cannot_unwrap() {
    let wrapper = LocalKeyWrapper::new([1u8; DEK_LEN], "m");
    assert!(matches!(wrapper.unwrap_data_key(&[0u8; NONCE_LEN - 1], ""), Err(Error::KeyUnwrap)));
    assert!(matches!(wrapper.unwrap_data_key(&[0u8; 100], ""), Err(Error::KeyUnwrap)));
    let nonce = generate_nonce();
    let master = crypto::dek_from_slice(&[1u8; DEK_LEN]).unwrap();
    let mut short = nonce.to_vec();
    short.extend(seal(&master, &nonce, b"pg_vault:dek-wrap:v1", &[5u8; 7]).unwrap());
    assert!(matches!(
        wrapper.unwrap_data_key(&short, ""),
        Err(Error::KeyLength { expected: 32, got: 7 })
    ));
    let key = wrapper.generate_data_key().unwrap();
    assert_eq!(key.key_id, "m");
    assert_eq!(key.wrapped.len(), NONCE_LEN + DEK_LEN + 16);
    assert_eq!(
        wrapper.unwrap_data_key(&key.wrapped, "other").unwrap().as_slice(),
        key.plaintext.as_slice()
    );
    let wrapped = wrapper.wrap_under(&fixed_dek(), &[3u8; NONCE_LEN]).unwrap();
    assert_eq!(&wrapped[..NONCE_LEN], &[3u8; NONCE_LEN]);
    assert_eq!(wrapper.unwrap_data_key(&wrapped, "").unwrap().as_slice(), fixed_dek().as_slice());
}

#[test]
fn master_key_is_read_from_base64() {
    let encoded = " AQEBAQEBAQEBAQEBAQEBAQEBAQEBAQEBAQEBAQEBAQE=\n";
    let wrapper = LocalKeyWrapper::from_base64(encoded, "local").unwrap();
    let same = LocalKeyWrapper::new([1u8; DEK_LEN], "local");
    let key = wrapper.generate_data_key().unwrap();
    assert_eq!(
        same.unwrap_data_key(&key.wrapped, "local").unwrap().as_slice(),
        key.plaintext.as_slice()
    );
    assert!(matches!(LocalKeyWrapper::from_base64("***", "x"), Err(Error::KeyUnwrap)));
    assert!(matches!(
        LocalKeyWrapper::from_base64("AQID", "x"),
        Err(Error::KeyLength { expected: 32, got: 3 })
    ));
    assert!(LocalKeyWrapper::from_raw(&[0u8; 31], "x").is_err());
}

#[test]
fn errors_are_told_in_words() {
    assert_eq!(Error::Encryption.message(), "encryption failed");
    assert_eq!(Error::Decryption.message(), "decryption failed");
    assert_eq!(Error::KeyWrap.message(), "key wrap failed");
    assert_eq!(Error::KeyUnwrap.message(), "key unwrap failed");
    assert_eq!(
        Error::InvalidAllowlist("x".to_string()).message(),
        "invalid IP allowlist entry: x"
    );
    assert_eq!(
        Error::KeyLength { expected: 32, got: 31 }.message(),
        "invalid key length: expected 32, got 31"
    );
}

#[test]
fn a_key_wrapped_anew_under_a_given_nonce_is_exact() {
    let wrapper = LocalKeyWrapper::new([7u8; DEK_LEN], "master-1");
    let dek = fixed_dek();
    let first = wrapper.wrap_under(&dek, &[1u8; NONCE_LEN]).unwrap();
    let (second, key_id) = wrapper.rewrap_under(&first, "any", &[2u8; NONCE_LEN]).unwrap();
    assert_eq!(key_id, "master-1");
    assert_eq!(second, wrapper.wrap_under(&dek, &[2u8; NONCE_LEN]).unwrap());
    assert_eq!(&second[..NONCE_LEN], &[2u8; NONCE_LEN]);
    assert_ne!(second, first);
    let same = wrapper.rewrap_under(&first, "any", &[1u8; NONCE_LEN]).unwrap().0;
    assert_eq!(same, first);
}

#[test]
fn a_wrapping_shorter_than_its_nonce_is_refused() {
    let wrapper = LocalKeyWrapper::new([7u8; DEK_LEN], "master-1");
    assert!(matches!(wrapper.rewrap(&[0u8; NONCE_LEN - 1], "k"), Err(Error::KeyUnwrap)));
    assert!(matches!(
        wrapper.rewrap_under(&[], "k", &[0u8; NONCE_LEN]),
        Err(Error::KeyUnwrap)
    ));
}

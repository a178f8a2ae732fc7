use argon2::{Algorithm, Argon2, Params, Version};
use keyforge::crypto::{build_salt, generate_key};
use keyforge::sensitive::SecretVec;

#[test]
fn build_stable_salt() {
    assert_eq!(
        build_salt("github.com", "alice"),
        b"keyforge-argon2-v1|10|github.com|5|alice".to_vec()
    );
}

#[test]
fn salt_counts_utf8_bytes() {
    assert_eq!(
        build_salt("é.fr", "ü"),
        "keyforge-argon2-v1|5|é.fr|2|ü".as_bytes().to_vec()
    );
}

#[test]
fn salt_fields_cannot_be_shifted() {
    assert_ne!(build_salt("a|1|b", "c"), build_salt("a", "b|1|c"));
    assert_eq!(build_salt("", ""), b"keyforge-argon2-v1|0||0|".to_vec());
}

#[test]
fn short_salt_is_rejected() {
    let password = SecretVec::new(b"correct-horse-battery-staple".to_vec()).unwrap();
    assert!(generate_key(&password, b"1234567").is_err());
}

#[test]
fn generate_key_is_argon2id_with_fixed_parameters() {
    let master = b"correct-horse-battery-staple".to_vec();
    let salt = build_salt("github.com", "alice");
    let key = generate_key(&SecretVec::new(master.clone()).unwrap(), &salt).unwrap();

    let params = Params::new(65536, 3, 4, Some(64)).unwrap();
    let mut expected = vec![0u8; 64];
    Argon2::new(Algorithm::Argon2id, Version::V0x13, params)
        .hash_password_into(&master, &salt, &mut expected)
        .unwrap();
    assert_eq!(key.len(), 64);
    assert_eq!(key.as_bytes(), &expected[..]);
}

//! Tests of key derivation and its cost parameters.

use keynest::crypto::kdf::derive_key;
use keynest::error::KeystoreError;
use keynest::KdfParams;

#[test]
fn kdf_is_deterministic() {
    let salt = [42u8; 16];
    let kdf = KdfParams::default();

    let k1 = derive_key("password", &salt, kdf).unwrap();
    let k2 = derive_key("password", &salt, kdf).unwrap();

    assert_eq!(k1, k2);
}

#[test]
fn kdf_params_affect_output() {
    let salt = [7u8; 16];

    let kdf1 = KdfParams::new(32768, 2, 1).unwrap();
    let kdf2 = KdfParams::new(65536, 2, 1).unwrap();

    let k1 = derive_key("pw", &salt, kdf1).unwrap();
    let k2 = derive_key("pw", &salt, kdf2).unwrap();

    assert_ne!(k1, k2);
}

#[test]
fn kdf_invalid_params_fail_gracefully() {
    assert!(KdfParams::new(0, 0, 0).is_err());
}

#[test]
fn kdf_rejects_each_bad_field() {
    assert_eq!(
        KdfParams::new(4, 1, 1).unwrap_err(),
        KeystoreError::InvalidParameters
    );
    assert_eq!(
        KdfParams::new(64, 0, 1).unwrap_err(),
        KeystoreError::InvalidParameters
    );
    assert_eq!(
        KdfParams::new(64, 1, 0).unwrap_err(),
        KeystoreError::InvalidParameters
    );
    assert_eq!(
        KdfParams::new(64, 1, 9).unwrap_err(),
        KeystoreError::InvalidParameters
    );
    assert!(KdfParams::new(64, 1, 8).is_ok());
}

#[test]
fn kdf_key_is_not_the_password() {
    let salt = [1u8; 16];
    let kdf = KdfParams::new(8, 1, 1).unwrap();
    let key = derive_key("abcd", &salt, kdf).unwrap();
    assert_ne!(&key[..4], b"abcd");
    assert_eq!(key.len(), 32);
}

#[test]
fn kdf_salt_affects_output() {
    let kdf = KdfParams::new(8, 1, 1).unwrap();
    let k1 = derive_key("pw", &[1u8; 16], kdf).unwrap();
    let k2 = derive_key("pw", &[2u8; 16], kdf).unwrap();
    assert_ne!(k1, k2);
}

#[test]
fn kdf_salt_length_bounds_derivation() {
    let kdf = KdfParams::new(8, 1, 1).unwrap();
    assert_eq!(
        derive_key("pw", &[1u8; 4], kdf).unwrap_err(),
        KeystoreError::DerivationFailed
    );
    assert!(derive_key("pw", &[1u8; 8], kdf).is_ok());
}

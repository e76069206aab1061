//! Tests of the version-aware file format.

use keynest::error::{FormatError, KeystoreError};
use keynest::format::v1::{parse, serialize, VERSION_V1};
use keynest::format::KeystoreFile;
use keynest::KdfParams;

#[test]
fn v1_header_roundtrip() {
    let file = KeystoreFile::new(
        KdfParams::new(65536, 3, 2).unwrap(),
        vec![1u8; 16],
        vec![2u8; 24],
        vec![0u8; 10],
    );

    let bytes = serialize(&file).unwrap();
    let parsed = parse(&bytes).unwrap();

    assert_eq!(parsed.version(), VERSION_V1);
    assert_eq!(parsed.kdf().mem_cost_kib(), 65536);
    assert_eq!(parsed.kdf().time_cost(), 3);
    assert_eq!(parsed.kdf().parallelism(), 2);
    assert_eq!(parsed.salt(), file.salt());
    assert_eq!(parsed.nonce(), file.nonce());
}

#[test]
fn v1_header_invalid_magic_fails() {
    let mut data = vec![0u8; 61];
    data[..4].copy_from_slice(b"FAIL");

    assert!(parse(&data).is_err());
}

#[test]
fn v1_header_unsupported_version_fails() {
    let mut data = vec![0u8; 61];
    data[..4].copy_from_slice(b"KNST");
    data[4] = 99;

    assert!(parse(&data).is_err());
}

#[test]
fn v1_header_too_short_fails() {
    let data = vec![0u8; 10];
    assert!(parse(&data).is_err());
}

#[test]
fn format_dispatch_rejects_foreign_files() {
    let empty: Vec<u8> = Vec::new();
    assert_eq!(
        keynest::format::parse(&empty).unwrap_err(),
        KeystoreError::Format(FormatError::TooShort)
    );

    let mut wrong = vec![0u8; 61];
    wrong[..4].copy_from_slice(b"ELSE");
    assert_eq!(
        keynest::format::parse(&wrong).unwrap_err(),
        KeystoreError::Format(FormatError::BadMagic)
    );

    let mut future = vec![0u8; 61];
    future[..4].copy_from_slice(b"KNST");
    future[4] = 2;
    assert_eq!(
        keynest::format::parse(&future).unwrap_err(),
        KeystoreError::Format(FormatError::UnsupportedVersion)
    );
}

#[test]
fn format_ciphertext_is_the_remainder() {
    let file = KeystoreFile::new(
        KdfParams::new(65536, 3, 1).unwrap(),
        vec![5u8; 16],
        vec![6u8; 24],
        vec![9u8, 8, 7],
    );
    let bytes = keynest::format::serialize(&file).unwrap();
    assert_eq!(bytes.len(), 60);
    let parsed = keynest::format::parse(&bytes).unwrap();
    assert_eq!(parsed.ciphertext(), &vec![9u8, 8, 7]);
}

#[test]
fn format_serialize_rejects_bad_lengths() {
    let file = KeystoreFile::new(
        KdfParams::new(65536, 3, 1).unwrap(),
        vec![5u8; 15],
        vec![6u8; 24],
        vec![],
    );
    assert_eq!(
        keynest::format::serialize(&file).unwrap_err(),
        KeystoreError::Format(FormatError::BadFieldLength)
    );
}

//! Tests of the fixed-layout header codec.

use keynest::crypto::header::{Header, HEADER_LEN, VERSION_V1};
use keynest::error::{FormatError, KeystoreError};
use keynest::KdfParams;

#[test]
fn header_header_roundtrip() {
    let header = Header::new(KdfParams::new(65536, 3, 2).unwrap(), [1u8; 16], [2u8; 24]).unwrap();

    let bytes = header.to_bytes();
    let (parsed, offset) = Header::from_bytes(&bytes).unwrap();

    assert_eq!(offset, HEADER_LEN);
    assert_eq!(parsed.version, VERSION_V1);
    assert_eq!(parsed.kdf.mem_cost_kib(), 65536);
    assert_eq!(parsed.kdf.time_cost(), 3);
    assert_eq!(parsed.kdf.parallelism(), 2);
    assert_eq!(parsed.salt, header.salt);
    assert_eq!(parsed.nonce, header.nonce);
}

#[test]
fn header_header_invalid_magic_fails() {
    let mut data = vec![0u8; HEADER_LEN];
    data[..4].copy_from_slice(b"FAIL");

    assert!(Header::from_bytes(&data).is_err());
}

#[test]
fn header_header_unsupported_version_fails() {
    let mut data = vec![0u8; HEADER_LEN];
    data[..4].copy_from_slice(b"KNST");
    data[4] = 99;

    assert!(Header::from_bytes(&data).is_err());
}

#[test]
fn header_header_too_short_fails() {
    let data = vec![0u8; HEADER_LEN - 1];
    assert!(Header::from_bytes(&data).is_err());
}

#[test]
fn header_error_kinds_are_distinct() {
    let short = vec![0u8; 10];
    assert_eq!(
        Header::from_bytes(&short).unwrap_err(),
        KeystoreError::Format(FormatError::TooShort)
    );

    let mut bad_magic = vec![0u8; HEADER_LEN];
    bad_magic[..4].copy_from_slice(b"FAIL");
    assert_eq!(
        Header::from_bytes(&bad_magic).unwrap_err(),
        KeystoreError::Format(FormatError::BadMagic)
    );

    let mut bad_version = vec![0u8; HEADER_LEN];
    bad_version[..4].copy_from_slice(b"KNST");
    bad_version[4] = 99;
    assert_eq!(
        Header::from_bytes(&bad_version).unwrap_err(),
        KeystoreError::Format(FormatError::UnsupportedVersion)
    );

    let mut bad_kdf = vec![0u8; HEADER_LEN];
    bad_kdf[..4].copy_from_slice(b"KNST");
    bad_kdf[4] = 1;
    assert_eq!(
        Header::from_bytes(&bad_kdf).unwrap_err(),
        KeystoreError::Format(FormatError::InvalidKdfParams)
    );
}

#[test]
fn header_layout_is_bit_exact() {
    let header = Header::new(
        KdfParams::new(65536, 3, 1).unwrap(),
        [0xaau8; 16],
        [0xbbu8; 24],
    )
    .unwrap();
    let bytes = header.to_bytes();
    assert_eq!(bytes.len(), 57);
    assert_eq!(&bytes[..4], b"KNST");
    assert_eq!(bytes[4], 1);
    assert_eq!(&bytes[5..9], &[0x00, 0x00, 0x01, 0x00]);
    assert_eq!(&bytes[9..13], &[0x03, 0x00, 0x00, 0x00]);
    assert_eq!(&bytes[13..17], &[0x01, 0x00, 0x00, 0x00]);
    assert_eq!(&bytes[17..33], &[0xaau8; 16]);
    assert_eq!(&bytes[33..57], &[0xbbu8; 24]);
}

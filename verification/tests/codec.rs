//! Tests of the store payload codec.

use keynest::codec::{decode_store, encode_store};
use keynest::store::Store;

#[test]
fn codec_roundtrips_an_empty_store() {
    let store = Store::new();
    let bytes = encode_store(&store);
    let back = decode_store(&bytes).unwrap();
    assert_eq!(back.len(), 0);
    assert_eq!(back.creation_date(), store.creation_date());
}

#[test]
fn codec_roundtrips_entries_exactly() {
    let mut store = Store::new();
    store.set("api_key", "secret123").unwrap();
    store.set("", "empty key is allowed").unwrap();
    store.set("unicode \u{1f511}", "v\u{e4}lue").unwrap();
    let bytes = encode_store(&store);
    let back = decode_store(&bytes).unwrap();
    assert_eq!(back.len(), 3);
    assert_eq!(back.get("api_key").unwrap(), "secret123");
    assert_eq!(back.get("").unwrap(), "empty key is allowed");
    assert_eq!(back.get("unicode \u{1f511}").unwrap(), "v\u{e4}lue");
    assert_eq!(back.creation_date(), store.creation_date());
}

#[test]
fn codec_rejects_truncated_payloads() {
    let mut store = Store::new();
    store.set("a", "b").unwrap();
    let bytes = encode_store(&store);
    for cut in [0usize, 1, 7, bytes.len() - 1] {
        assert!(decode_store(&bytes[..cut]).is_err());
    }
}

#[test]
fn codec_rejects_trailing_bytes() {
    let store = Store::new();
    let mut bytes = encode_store(&store);
    bytes.push(0);
    assert!(decode_store(&bytes).is_err());
}

#[test]
fn codec_rejects_invalid_utf8() {
    let store = Store::new();
    let mut bytes = encode_store(&store);
    // The creation date's bytes start right after the 8-byte length field.
    if bytes.len() > 8 {
        bytes[8] = 0xff;
        assert!(decode_store(&bytes).is_err());
    }
}

//! Tests of the keystore engine: sessions over file images.

use keynest::crypto::aead::{decrypt, encrypt, generate_salt};
use keynest::crypto::kdf::derive_key;
use keynest::error::KeystoreError;
use keynest::format::{parse, serialize, KeystoreFile};
use keynest::{KdfParams, Keynest, Storage};

fn fresh_storage() -> Storage {
    Storage::new("/nonexistent-keynest-dir/keynest.db".to_string())
}

/// A small cost triple so tests stay fast; still valid.
fn test_kdf() -> KdfParams {
    KdfParams::new(8, 1, 1).unwrap()
}

#[test]
fn encrypt_decrypt_roundtrip() {
    let kdf = KdfParams::default();
    let salt = generate_salt().unwrap();
    let key = derive_key("pw", &salt, kdf).unwrap();

    let data = b"secret data".to_vec();
    let (ciphertext, nonce) = encrypt(&key, &data).unwrap();

    let keystore_file = KeystoreFile::new(kdf, salt.to_vec(), nonce.to_vec(), ciphertext);
    let file = serialize(&keystore_file).unwrap();

    let keystore_file2 = parse(&file).unwrap();
    let key2 = derive_key("pw", keystore_file2.salt(), *keystore_file2.kdf()).unwrap();
    let nonce2: [u8; 24] = keystore_file2.nonce().as_slice().try_into().unwrap();
    let plaintext = decrypt(&key2, &nonce2, keystore_file2.ciphertext()).unwrap();

    assert_eq!(plaintext, data);
}

#[test]
fn init_and_open_with_zeroize_wrappers() {
    let (mut kn, _initial) =
        Keynest::init_with_storage_and_kdf("pw", fresh_storage(), test_kdf()).unwrap();
    kn.set("A", "B").unwrap();
    let file = kn.save().unwrap();

    let kn2 = Keynest::open_with_storage("pw", fresh_storage(), &file).unwrap();
    assert_eq!(kn2.get("A"), Some("B"));
}

#[test]
fn lib_init_fails_if_store_exists() {
    let occupied = Storage::new("/".to_string());
    assert!(Keynest::init_with_storage_and_kdf("pw", occupied, KdfParams::default()).is_err());
}

#[test]
fn lib_wrong_password_fails() {
    let (_kn, file) =
        Keynest::init_with_storage_and_kdf("correct", fresh_storage(), test_kdf()).unwrap();
    assert!(Keynest::open_with_storage("wrong", fresh_storage(), &file).is_err());
}

#[test]
fn lib_set_existing_key_fails() {
    let (mut kn, _file) =
        Keynest::init_with_storage_and_kdf("pw", fresh_storage(), test_kdf()).unwrap();
    kn.set("A", "B").unwrap();
    assert!(kn.set("A", "C").is_err());
}

#[test]
fn lib_update_key_works() {
    let (mut kn, _file) =
        Keynest::init_with_storage_and_kdf("pw", fresh_storage(), test_kdf()).unwrap();
    kn.set("A", "B").unwrap();
    kn.update("A", "C").unwrap();
    assert_eq!(kn.get("A").unwrap(), "C");
}

#[test]
fn lib_update_not_existing_key_fails() {
    let (mut kn, _file) =
        Keynest::init_with_storage_and_kdf("pw", fresh_storage(), test_kdf()).unwrap();
    kn.set("A", "B").unwrap();
    assert!(kn.update("Z", "C").is_err());
}

#[test]
fn removing_key_works() {
    let (mut kn, _file) =
        Keynest::init_with_storage_and_kdf("pw", fresh_storage(), test_kdf()).unwrap();
    kn.set("A", "B").unwrap();

    assert_eq!(kn.get("A").unwrap(), "B");
    kn.remove("A").unwrap();
    assert_eq!(kn.get("A"), None);
}

#[test]
fn removing_not_existing_key_fails() {
    let (mut kn, _file) =
        Keynest::init_with_storage_and_kdf("pw", fresh_storage(), test_kdf()).unwrap();
    assert!(kn.remove("A").is_err());
}

#[test]
fn list_works() {
    let (mut kn, _file) =
        Keynest::init_with_storage_and_kdf("pw", fresh_storage(), test_kdf()).unwrap();
    kn.set("A", "B").unwrap();

    assert!(kn.list().contains(&"A".to_string()));
    assert!(!kn.list().contains(&"B".to_string()));
}

#[test]
fn list_all_works() {
    let (mut kn, _file) =
        Keynest::init_with_storage_and_kdf("pw", fresh_storage(), test_kdf()).unwrap();
    kn.set("A", "B").unwrap();
    for sec_entry in kn.list_all() {
        assert_eq!(sec_entry.key(), "A");
        assert_eq!(sec_entry.value(), "B");
        assert_ne!(sec_entry.updated(), "");
    }
}

#[test]
fn rekey_changes_password() {
    let (mut kn, _file) =
        Keynest::init_with_storage_and_kdf("old", fresh_storage(), test_kdf()).unwrap();
    kn.set("A", "B").unwrap();
    let file = kn.save().unwrap();

    let mut kn = Keynest::open_with_storage("old", fresh_storage(), &file).unwrap();

    let file = kn.rekey("new", test_kdf()).unwrap();

    assert!(Keynest::open_with_storage("old", fresh_storage(), &file).is_err());

    let kn2 = Keynest::open_with_storage("new", fresh_storage(), &file).unwrap();

    assert_eq!(kn2.get("A"), Some("B"));
}

#[test]
fn rekey_changes_kdf_parameters() {
    let original_kdf = test_kdf();

    let (mut kn, _file) =
        Keynest::init_with_storage_and_kdf("pw", fresh_storage(), original_kdf).unwrap();

    let file = kn.save().unwrap();

    let mut kn = Keynest::open_with_storage("pw", fresh_storage(), &file).unwrap();

    let new_kdf = KdfParams::new(
        original_kdf.mem_cost_kib() * 2,
        original_kdf.time_cost() + 1,
        original_kdf.parallelism(),
    )
    .unwrap();

    let file = kn.rekey("pw", new_kdf).unwrap();

    let kn2 = Keynest::open_with_storage("pw", fresh_storage(), &file).unwrap();

    assert_eq!(kn2.info().kdf().mem_cost_kib(), new_kdf.mem_cost_kib());
    assert_eq!(kn2.info().kdf().time_cost(), new_kdf.time_cost());
}

#[test]
fn end_to_end_scenario() {
    let (mut kn, initial) =
        Keynest::init_with_storage_and_kdf("pw", fresh_storage(), test_kdf()).unwrap();
    assert!(initial.len() >= 57);

    kn.set("A", "B").unwrap();
    let saved = kn.save().unwrap();
    kn.close();
    assert_eq!(kn.key, [0u8; 32]);

    let fresh = Keynest::open_with_storage("pw", fresh_storage(), &saved).unwrap();
    assert_eq!(fresh.get("A"), Some("B"));

    assert!(matches!(
        Keynest::open_with_storage("wrong", fresh_storage(), &saved),
        Err(KeystoreError::AeadFailure)
    ));

    let mut fresh = fresh;
    let rekeyed = fresh.rekey("new", test_kdf()).unwrap();
    assert!(Keynest::open_with_storage("pw", fresh_storage(), &rekeyed).is_err());
    let after = Keynest::open_with_storage("new", fresh_storage(), &rekeyed).unwrap();
    assert_eq!(after.get("A"), Some("B"));
}

#[test]
fn tampering_with_any_ciphertext_byte_fails() {
    let (mut kn, _file) =
        Keynest::init_with_storage_and_kdf("pw", fresh_storage(), test_kdf()).unwrap();
    kn.set("A", "B").unwrap();
    let file = kn.save().unwrap();

    for i in 57..file.len() {
        let mut corrupt = file.clone();
        corrupt[i] ^= 0x01;
        assert!(matches!(
            Keynest::open_with_storage("pw", fresh_storage(), &corrupt),
            Err(KeystoreError::AeadFailure)
        ));
    }
}

#[test]
fn aead_tamper_and_empty_plaintext() {
    let key = [9u8; 32];
    let empty: Vec<u8> = Vec::new();
    let (ciphertext, nonce) = encrypt(&key, &empty).unwrap();
    assert_eq!(ciphertext.len(), 16);
    assert_eq!(decrypt(&key, &nonce, &ciphertext).unwrap(), empty);

    let msg = b"attack at dawn".to_vec();
    let (ciphertext, nonce) = encrypt(&key, &msg).unwrap();
    assert_ne!(&ciphertext[..msg.len()], msg.as_slice());
    for i in 0..ciphertext.len() {
        let mut corrupt = ciphertext.clone();
        corrupt[i] ^= 0x80;
        assert_eq!(
            decrypt(&key, &nonce, &corrupt).unwrap_err(),
            KeystoreError::AeadFailure
        );
    }
    let wrong_key = [8u8; 32];
    assert!(decrypt(&wrong_key, &nonce, &ciphertext).is_err());
}

#[test]
fn info_reports_the_session_state() {
    let (mut kn, _file) =
        Keynest::init_with_storage_and_kdf("pw", fresh_storage(), test_kdf()).unwrap();
    kn.set("A", "B").unwrap();
    let info = kn.info();
    assert_eq!(info.secrets_count(), 1);
    assert_eq!(info.kdf().mem_cost_kib(), 8);
    assert_ne!(info.creation_date(), "");
}

//! Tests of temporary names, the hexadecimal speller and the atomic-replace
//! protocol over the in-memory file system.

use keynest::error::KeystoreError;
use keynest::storage::{atomic_save, hex_string, MemFs};
use keynest::Storage;

#[test]
fn random_tmp_path_has_same_parent() {
    let storage = Storage::new("/somewhere/store.db".to_string());
    let tmp = storage.random_tmp_path().unwrap();
    assert_eq!(&tmp[..storage.path().len()], storage.path().as_str());
    assert_eq!(tmp.rfind('/'), storage.path().rfind('/'));
}

#[test]
fn random_tmp_path_is_not_equal_to_final_path() {
    let storage = Storage::new("/somewhere/store.db".to_string());
    let tmp = storage.random_tmp_path().unwrap();
    assert_ne!(tmp, *storage.path());
}

#[test]
fn tmp_names_are_unique() {
    let storage = Storage::new("/somewhere/store.db".to_string());
    let a = storage.random_tmp_path().unwrap();
    let b = storage.random_tmp_path().unwrap();
    assert_ne!(a, b);
}

#[test]
fn hex_string_spells_bytes_exactly() {
    assert_eq!(hex_string(&vec![]), "");
    assert_eq!(hex_string(&vec![0x00]), "00");
    assert_eq!(hex_string(&vec![0x0f, 0xa0, 0xff, 0x1b]), "0fa0ff1b");
}

#[test]
fn crash_between_write_and_replace_keeps_old_bytes() {
    let mut fs = MemFs::new();
    fs.create_exclusive("store.db", b"first".to_vec()).unwrap();

    // Steps one to three of a save: the temporary file is durable.
    fs.create_exclusive("store.db.tmp.0011223344556677", b"second".to_vec())
        .unwrap();

    // A crash here loses the replace; the target still reads as before.
    assert_eq!(fs.read("store.db").unwrap(), b"first");

    // Completing the replace installs the new bytes and removes the
    // temporary file.
    fs.replace("store.db.tmp.0011223344556677", "store.db").unwrap();
    assert_eq!(fs.read("store.db").unwrap(), b"second");
    assert!(!fs.contains("store.db.tmp.0011223344556677"));
}

#[test]
fn atomic_save_installs_exactly_the_new_bytes() {
    let mut fs = MemFs::new();
    fs.create_exclusive("store.db", b"old".to_vec()).unwrap();
    atomic_save(&mut fs, "store.db", "store.db.tmp.aa", b"new contents".to_vec()).unwrap();
    assert_eq!(fs.read("store.db").unwrap(), b"new contents");
    assert!(!fs.contains("store.db.tmp.aa"));
}

#[test]
fn atomic_save_collision_leaves_target_untouched() {
    let mut fs = MemFs::new();
    fs.create_exclusive("store.db", b"old".to_vec()).unwrap();
    fs.create_exclusive("store.db.tmp.aa", b"stray".to_vec()).unwrap();
    assert_eq!(
        atomic_save(&mut fs, "store.db", "store.db.tmp.aa", b"new".to_vec()).unwrap_err(),
        KeystoreError::TempNameCollision
    );
    assert_eq!(fs.read("store.db").unwrap(), b"old");
    assert_eq!(fs.read("store.db.tmp.aa").unwrap(), b"stray");
}

#[test]
fn atomic_save_creates_a_missing_target() {
    let mut fs = MemFs::new();
    atomic_save(&mut fs, "store.db", "store.db.tmp.bb", b"data".to_vec()).unwrap();
    assert_eq!(fs.read("store.db").unwrap(), b"data");
}

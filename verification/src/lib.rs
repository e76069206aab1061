//! An offline secret store kept in a single encrypted file.
//!
//! Secrets live in an in-memory map that is serialized, encrypted with a key
//! derived from a password, and persisted through a crash-safe atomic file
//! replacement protocol. The byte layout of the file prefix, the store codec,
//! the secret map and the engine's state transitions are verified; calls into
//! the cryptographic primitives are made through trusted wrappers whose
//! contracts name their results.

pub mod codec;
pub mod crypto;
pub mod error;
pub mod format;
pub mod storage;
pub mod store;

pub use crypto::KdfParams;
pub use error::{FormatError, KeystoreError, StoreError};
pub use storage::Storage;

use crate::codec::{
    decode_store, encode_store, spec_decode_store, spec_entries_ok, spec_store_bytes, spec_str_ok,
    views_of, views_unique,
};
use crate::crypto::aead::{decrypt, encrypt, generate_salt, xchacha_open, xchacha_seal};
use crate::crypto::kdf::{argon2_accepts, argon2id_key, derive_key};
use crate::format::{parse, serialize, v1, KeystoreFile};
use crate::store::{SecretEntry, SecretEntryView, Store};
use vstd::prelude::*;
use zeroize::Zeroize;

verus! {

/// Relies on zeroize: `Zeroize::zeroize` on a byte array overwrites every
/// element with zero in a way the compiler will not elide, keeping the length.
#[verifier::external_body]
fn wipe_key(key: &mut [u8; 32])
    ensures
        final(key)@ == Seq::new(32, |i: int| 0u8),
{
    key.zeroize();
}

/// Copies a 24-byte vector into a nonce array.
fn nonce_array(v: &Vec<u8>) -> (r: [u8; 24])
    requires
        v@.len() == 24,
    ensures
        r@ == v@,
{
    let mut nonce = [0u8; 24];
    let mut j: usize = 0;
    while j < 24
        invariant
            v@.len() == 24,
            j <= 24,
            forall|k: int| 0 <= k < j ==> nonce@[k] == v@[k],
        decreases 24 - j,
    {
        nonce[j] = v[j];
        j = j + 1;
    }
    proof {
        assert(nonce@ =~= v@);
    }
    nonce
}

/// True when `data` carries a well-formed current-version file prefix.
pub open spec fn spec_parse_ok(data: Seq<u8>) -> bool {
    &&& data.len() >= 57
    &&& format::spec_magic_ok(data)
    &&& data[4] == 1
    &&& v1::spec_kdf_of(data).valid()
}

/// The key that opening `data` under `password` derives from the stored salt
/// and cost parameters.
pub open spec fn spec_opened_key(password: Seq<char>, data: Seq<u8>) -> Seq<u8> {
    argon2id_key(
        password,
        data.subrange(17, 33),
        v1::spec_kdf_of(data).mem_cost_kib,
        v1::spec_kdf_of(data).time_cost,
        v1::spec_kdf_of(data).parallelism,
    )
}

/// What the ciphertext of `data` opens to under the key derived from
/// `password`: the payload when the tag verifies, nothing otherwise.
pub open spec fn spec_opened_plaintext(password: Seq<char>, data: Seq<u8>) -> Option<Seq<u8>> {
    xchacha_open(
        spec_opened_key(password, data),
        data.subrange(33, 57),
        data.subrange(57, data.len() as int),
    )
}

/// Exactly when opening `data` under `password` yields a session: the prefix
/// parses, the primitive accepts the stored configuration, the tag verifies,
/// and the payload decodes to a store with unique keys.
pub open spec fn spec_open_ok(password: Seq<char>, data: Seq<u8>) -> bool {
    &&& spec_parse_ok(data)
    &&& argon2_accepts(password, data.subrange(17, 33), v1::spec_kdf_of(data))
    &&& match spec_opened_plaintext(password, data) {
        Option::Some(pt) => match spec_decode_store(pt) {
            Option::Some((cd, es)) => views_unique(es),
            Option::None => false,
        },
        Option::None => false,
    }
}

/// A session over one keystore file: the decrypted store, the storage handle,
/// the 32-byte derived key, and the header state of the last write.
///
/// The session computes every file image itself and never touches the disk:
/// the caller persists what `init_with_storage_and_kdf`, `save` and `rekey`
/// hand back, and feeds `open_with_storage` the loaded bytes. The key is the
/// single most sensitive in-memory artifact; `close` wipes it to zero.
pub struct Keynest {
    /// The decrypted secret map.
    pub store: Store,
    /// Where the keystore file lives.
    pub storage: Storage,
    /// The derived encryption key.
    pub key: [u8; 32],
    /// Header and ciphertext exactly as last laid down for the file.
    pub keystore_file: KeystoreFile,
}

/// A snapshot of a keystore's metadata for display.
pub struct StoreInfo {
    /// Path of the keystore file.
    pub path: String,
    /// When the store was created.
    pub creation_date: String,
    /// How many secrets the store holds.
    pub secrets_count: usize,
    /// The key-derivation parameters in force.
    pub kdf: KdfParams,
    /// Length of the nonce in the current header.
    pub nonce_len: usize,
    /// Format version of the file.
    pub version: u8,
}

impl StoreInfo {
    /// When the store was created.
    pub fn creation_date(&self) -> (r: &str)
        ensures
            r@ == self.creation_date@,
    {
        self.creation_date.as_str()
    }

    /// How many secrets the store holds.
    pub fn secrets_count(&self) -> (r: usize)
        ensures
            r == self.secrets_count,
    {
        self.secrets_count
    }

    /// The key-derivation parameters in force.
    pub fn kdf(&self) -> (r: &KdfParams)
        ensures
            r == self.kdf,
    {
        &self.kdf
    }
}

impl Keynest {
    /// The session invariant: the header state is well formed and the store's
    /// keys are unique.
    pub open spec fn wf(self) -> bool {
        self.keystore_file.wf() && self.store.wf()
    }

    /// The payload bytes the current store encodes to.
    pub open spec fn spec_plaintext(self) -> Seq<u8> {
        spec_store_bytes(self.store.creation_date@, views_of(self.store.secrets@))
    }

    /// Creates a new keystore session: an empty store, a fresh salt, a key
    /// derived from `password` under `kdf`, and the encrypted file image,
    /// which the caller must persist at the storage path.
    ///
    /// Refuses to proceed when a file already exists at the target.
    pub fn init_with_storage_and_kdf(password: &str, storage: Storage, kdf: KdfParams) -> (r:
        Result<(Keynest, Vec<u8>), KeystoreError>)
        ensures
            r matches Ok((kn, file)) ==> {
                &&& kn.wf()
                &&& kn.storage == storage
                &&& kdf.valid()
                &&& kn.keystore_file.kdf == kdf
                &&& kn.store.secrets@.len() == 0
                &&& kn.store.creation_date@.len() > 0
                &&& kn.key@ == argon2id_key(
                    password@,
                    kn.keystore_file.salt@,
                    kdf.mem_cost_kib,
                    kdf.time_cost,
                    kdf.parallelism,
                )
                &&& kn.keystore_file.ciphertext@ == xchacha_seal(
                    kn.key@,
                    kn.keystore_file.nonce@,
                    kn.spec_plaintext(),
                )
                &&& xchacha_open(kn.key@, kn.keystore_file.nonce@, kn.keystore_file.ciphertext@)
                    == Some(kn.spec_plaintext())
                &&& file@ == kn.keystore_file.spec_serialize()
            },
            !kdf.valid() ==> r is Err,
            r matches Err(KeystoreError::InvalidParameters) ==> !kdf.valid(),
            r matches Err(e) ==> e == KeystoreError::AlreadyExists || e
                == KeystoreError::InvalidParameters || e == KeystoreError::RandomUnavailable || e
                == KeystoreError::DerivationFailed || e == KeystoreError::AeadFailure,
    {
        if storage.file_exists() {
            return Err(KeystoreError::AlreadyExists);
        }
        let store = Store::new();
        let salt = generate_salt()?;
        let mut key = derive_key(password, salt.as_slice(), kdf)?;
        let plaintext = encode_store(&store);
        let (ciphertext, nonce) = match encrypt(&key, plaintext.as_slice()) {
            Ok(p) => p,
            Err(e) => {
                wipe_key(&mut key);
                return Err(e);
            },
        };
        let keystore_file = KeystoreFile::new(
            kdf,
            vstd::slice::slice_to_vec(salt.as_slice()),
            vstd::slice::slice_to_vec(nonce.as_slice()),
            ciphertext,
        );
        let kn = Keynest { store, storage, key, keystore_file };
        match serialize(&kn.keystore_file) {
            Ok(file) => Ok((kn, file)),
            Err(_) => {
                proof {
                    assert(false);
                }
                Err(KeystoreError::AeadFailure)
            },
        }
    }

    /// Opens an existing keystore from the bytes loaded at the storage path:
    /// parses the header, derives the key from the stored salt and
    /// parameters, decrypts, and decodes the payload into the store.
    ///
    /// The caller loads the file and so vouches that it exists; a missing
    /// file surfaces as `DoesNotExist` at the loading side. A wrong password
    /// and a corrupted file fail alike, so the engine cannot be used as an
    /// oracle against a captured file.
    pub fn open_with_storage(password: &str, storage: Storage, data: &[u8]) -> (r: Result<
        Keynest,
        KeystoreError,
    >)
        ensures
            r matches Ok(kn) ==> {
                &&& kn.wf()
                &&& kn.storage == storage
                &&& data@.len() >= 57
                &&& kn.keystore_file.kdf == v1::spec_kdf_of(data@)
                &&& kn.keystore_file.salt@ == data@.subrange(17, 33)
                &&& kn.keystore_file.nonce@ == data@.subrange(33, 57)
                &&& kn.keystore_file.ciphertext@ == data@.subrange(57, data@.len() as int)
                &&& kn.key@ == argon2id_key(
                    password@,
                    data@.subrange(17, 33),
                    v1::spec_kdf_of(data@).mem_cost_kib,
                    v1::spec_kdf_of(data@).time_cost,
                    v1::spec_kdf_of(data@).parallelism,
                )
                &&& ({
                    let opened = xchacha_open(
                        kn.key@,
                        kn.keystore_file.nonce@,
                        kn.keystore_file.ciphertext@,
                    );
                    opened matches Some(pt) && spec_decode_store(pt) == Some(
                        (kn.store.creation_date@, views_of(kn.store.secrets@)),
                    )
                })
            },
            r is Ok <==> spec_open_ok(password@, data@),
            r matches Err(KeystoreError::Format(FormatError::TooShort)) <==> (data@.len() < 5 || (
            format::spec_magic_ok(data@) && data@[4] == 1 && data@.len() < 57)),
            r matches Err(KeystoreError::Format(FormatError::BadMagic)) <==> (data@.len() >= 5
                && !format::spec_magic_ok(data@)),
            r matches Err(KeystoreError::Format(FormatError::UnsupportedVersion)) <==> (data@.len()
                >= 5 && format::spec_magic_ok(data@) && data@[4] != 1),
            r matches Err(KeystoreError::Format(FormatError::InvalidKdfParams)) <==> (data@.len()
                >= 57 && format::spec_magic_ok(data@) && data@[4] == 1 && !v1::spec_kdf_of(
                data@,
            ).valid()),
            r matches Err(KeystoreError::DerivationFailed) <==> (spec_parse_ok(data@)
                && !argon2_accepts(password@, data@.subrange(17, 33), v1::spec_kdf_of(data@))),
            r matches Err(KeystoreError::AeadFailure) <==> (spec_parse_ok(data@) && argon2_accepts(
                password@,
                data@.subrange(17, 33),
                v1::spec_kdf_of(data@),
            ) && spec_opened_plaintext(password@, data@) is None),
            r matches Err(KeystoreError::CorruptedOrWrongPassword) <==> (spec_parse_ok(data@)
                && argon2_accepts(password@, data@.subrange(17, 33), v1::spec_kdf_of(data@)) && (
            match spec_opened_plaintext(password@, data@) {
                Option::Some(pt) => !(match spec_decode_store(pt) {
                    Option::Some((cd, es)) => views_unique(es),
                    Option::None => false,
                }),
                Option::None => false,
            })),
            r matches Err(e) ==> (e matches KeystoreError::Format(f)) || e
                == KeystoreError::DerivationFailed || e == KeystoreError::AeadFailure || e
                == KeystoreError::CorruptedOrWrongPassword,
    {
        let keystore_file = match parse(data) {
            Ok(f) => f,
            Err(e) => {
                return Err(e);
            },
        };
        let mut key = match derive_key(password, keystore_file.salt.as_slice(), keystore_file.kdf) {
            Ok(k) => k,
            Err(_) => {
                return Err(KeystoreError::DerivationFailed);
            },
        };
        let nonce = nonce_array(&keystore_file.nonce);
        let plaintext = match decrypt(&key, &nonce, keystore_file.ciphertext.as_slice()) {
            Ok(p) => p,
            Err(_) => {
                wipe_key(&mut key);
                return Err(KeystoreError::AeadFailure);
            },
        };
        let store = match decode_store(plaintext.as_slice()) {
            Ok(s) => s,
            Err(_) => {
                wipe_key(&mut key);
                return Err(KeystoreError::CorruptedOrWrongPassword);
            },
        };
        Ok(Keynest { store, storage, key, keystore_file })
    }

    /// Stores a new secret; the change stays in memory until `save`.
    pub fn set(&mut self, key: &str, value: &str) -> (r: Result<(), StoreError>)
        requires
            old(self).wf(),
        ensures
            final(self).wf(),
            final(self).storage == old(self).storage,
            final(self).key == old(self).key,
            final(self).keystore_file == old(self).keystore_file,
            final(self).store.creation_date == old(self).store.creation_date,
            r is Ok <==> !old(self).store.secrets_map().contains_key(key@),
            r is Ok ==> exists|u: Seq<char>|
                u.len() > 0 && final(self).store.secrets_map() == old(
                    self,
                ).store.secrets_map().insert(
                    key@,
                    SecretEntryView { key: key@, value: value@, updated: u },
                ),
            r matches Err(e) ==> final(self).store == old(self).store && (e matches
                StoreError::KeyAlreadyExists(k) && k@ == key@),
    {
        self.store.set(key, value)
    }

    /// The value stored under `key`, or nothing.
    pub fn get(&self, key: &str) -> (r: Option<&str>)
        requires
            self.wf(),
        ensures
            r matches Some(v) ==> self.store.secrets_map().contains_key(key@)
                && self.store.secrets_map()[key@].value == v@,
            r is None <==> !self.store.secrets_map().contains_key(key@),
    {
        self.store.get(key)
    }

    /// Replaces an existing secret's value; the change stays in memory until
    /// `save`.
    pub fn update(&mut self, key: &str, value: &str) -> (r: Result<(), StoreError>)
        requires
            old(self).wf(),
        ensures
            final(self).wf(),
            final(self).storage == old(self).storage,
            final(self).key == old(self).key,
            final(self).keystore_file == old(self).keystore_file,
            final(self).store.creation_date == old(self).store.creation_date,
            r is Ok <==> old(self).store.secrets_map().contains_key(key@),
            r is Ok ==> exists|u: Seq<char>|
                u.len() > 0 && final(self).store.secrets_map() == old(
                    self,
                ).store.secrets_map().insert(
                    key@,
                    SecretEntryView { key: key@, value: value@, updated: u },
                ),
            r matches Err(e) ==> final(self).store == old(self).store && (e matches
                StoreError::KeyNotFound(k) && k@ == key@),
    {
        self.store.update(key, value)
    }

    /// Deletes a secret; the change stays in memory until `save`.
    pub fn remove(&mut self, key: &str) -> (r: Result<(), StoreError>)
        requires
            old(self).wf(),
        ensures
            final(self).wf(),
            final(self).storage == old(self).storage,
            final(self).key == old(self).key,
            final(self).keystore_file == old(self).keystore_file,
            final(self).store.creation_date == old(self).store.creation_date,
            r is Ok <==> old(self).store.secrets_map().contains_key(key@),
            r is Ok ==> final(self).store.secrets_map() == old(self).store.secrets_map().remove(
                key@,
            ),
            r matches Err(e) ==> final(self).store == old(self).store && (e matches
                StoreError::KeyNotFound(k) && k@ == key@),
    {
        self.store.remove(key)
    }

    /// All secret keys, exactly one per secret.
    pub fn list(&self) -> (r: Vec<String>)
        requires
            self.wf(),
        ensures
            r@.len() == self.store.secrets@.len(),
            forall|i: int| 0 <= i < r@.len() ==> r@[i]@ == self.store.secrets@[i].key@,
            forall|i: int, j: int| 0 <= i < j < r@.len() ==> r@[i]@ != r@[j]@,
            forall|i: int|
                0 <= i < r@.len() ==> self.store.secrets_map().contains_key(#[trigger] r@[i]@),
            forall|k: Seq<char>|
                self.store.secrets_map().contains_key(k) ==> exists|i: int|
                    0 <= i < r@.len() && r@[i]@ == k,
    {
        self.store.keys()
    }

    /// All secrets with their metadata.
    pub fn list_all(&self) -> (r: Vec<SecretEntry>)
        requires
            self.wf(),
        ensures
            r@ == self.store.secrets@,
            forall|i: int|
                0 <= i < r@.len() ==> self.store.secrets_map().contains_key(#[trigger] r@[i].key@)
                    && self.store.secrets_map()[r@[i].key@] == r@[i]@,
    {
        self.store.entries()
    }

    /// Re-encrypts the whole current store under the existing key with a
    /// fresh nonce, reusing the existing salt and parameters, and returns the
    /// new file image for the caller to persist atomically.
    pub fn save(&mut self) -> (r: Result<Vec<u8>, KeystoreError>)
        requires
            old(self).wf(),
        ensures
            final(self).wf(),
            final(self).storage == old(self).storage,
            final(self).key == old(self).key,
            final(self).store == old(self).store,
            final(self).keystore_file.kdf == old(self).keystore_file.kdf,
            final(self).keystore_file.salt@ == old(self).keystore_file.salt@,
            r matches Ok(file) ==> {
                &&& final(self).keystore_file.ciphertext@ == xchacha_seal(
                    final(self).key@,
                    final(self).keystore_file.nonce@,
                    old(self).spec_plaintext(),
                )
                &&& xchacha_open(
                    final(self).key@,
                    final(self).keystore_file.nonce@,
                    final(self).keystore_file.ciphertext@,
                ) == Some(old(self).spec_plaintext())
                &&& file@ == final(self).keystore_file.spec_serialize()
            },
            r is Err ==> *final(self) == *old(self),
            r matches Err(e) ==> e == KeystoreError::RandomUnavailable || e
                == KeystoreError::AeadFailure,
    {
        let plaintext = encode_store(&self.store);
        let (ciphertext, nonce) = encrypt(&self.key, plaintext.as_slice())?;
        self.keystore_file = KeystoreFile::new(
            self.keystore_file.kdf,
            vstd::slice::slice_to_vec(self.keystore_file.salt.as_slice()),
            vstd::slice::slice_to_vec(nonce.as_slice()),
            ciphertext,
        );
        match serialize(&self.keystore_file) {
            Ok(file) => Ok(file),
            Err(_) => {
                proof {
                    assert(false);
                }
                Err(KeystoreError::AeadFailure)
            },
        }
    }

    /// Derives a new key from `new_password` under `new_kdf` and a fresh
    /// salt, re-encrypts the whole store under it, wipes the old key, and
    /// returns the new file image for the caller to persist atomically. This
    /// one operation serves both password changes and cost upgrades.
    pub fn rekey(&mut self, new_password: &str, new_kdf: KdfParams) -> (r: Result<
        Vec<u8>,
        KeystoreError,
    >)
        requires
            old(self).wf(),
        ensures
            final(self).wf(),
            final(self).storage == old(self).storage,
            final(self).store == old(self).store,
            r matches Ok(file) ==> {
                &&& new_kdf.valid()
                &&& final(self).keystore_file.kdf == new_kdf
                &&& final(self).key@ == argon2id_key(
                    new_password@,
                    final(self).keystore_file.salt@,
                    new_kdf.mem_cost_kib,
                    new_kdf.time_cost,
                    new_kdf.parallelism,
                )
                &&& final(self).keystore_file.ciphertext@ == xchacha_seal(
                    final(self).key@,
                    final(self).keystore_file.nonce@,
                    old(self).spec_plaintext(),
                )
                &&& xchacha_open(
                    final(self).key@,
                    final(self).keystore_file.nonce@,
                    final(self).keystore_file.ciphertext@,
                ) == Some(old(self).spec_plaintext())
                &&& file@ == final(self).keystore_file.spec_serialize()
            },
            !new_kdf.valid() ==> r is Err,
            r matches Err(KeystoreError::InvalidParameters) ==> !new_kdf.valid(),
            r is Err ==> *final(self) == *old(self),
            r matches Err(e) ==> e == KeystoreError::InvalidParameters || e
                == KeystoreError::RandomUnavailable || e == KeystoreError::DerivationFailed || e
                == KeystoreError::AeadFailure,
    {
        let new_salt = generate_salt()?;
        let mut new_key = derive_key(new_password, new_salt.as_slice(), new_kdf)?;
        let plaintext = encode_store(&self.store);
        let (ciphertext, nonce) = match encrypt(&new_key, plaintext.as_slice()) {
            Ok(p) => p,
            Err(e) => {
                wipe_key(&mut new_key);
                return Err(e);
            },
        };
        self.keystore_file = KeystoreFile::new(
            new_kdf,
            vstd::slice::slice_to_vec(new_salt.as_slice()),
            vstd::slice::slice_to_vec(nonce.as_slice()),
            ciphertext,
        );
        wipe_key(&mut self.key);
        self.key = new_key;
        match serialize(&self.keystore_file) {
            Ok(file) => Ok(file),
            Err(_) => {
                proof {
                    assert(false);
                }
                Err(KeystoreError::AeadFailure)
            },
        }
    }

    /// A metadata snapshot of this session for display.
    pub fn info(&self) -> (r: StoreInfo)
        ensures
            r.path@ == self.storage.path@,
            r.creation_date@ == self.store.creation_date@,
            r.secrets_count == self.store.secrets@.len(),
            r.kdf == self.keystore_file.kdf,
            r.nonce_len == self.keystore_file.nonce@.len(),
            r.version == self.keystore_file.version,
    {
        StoreInfo {
            path: self.storage.path.clone(),
            creation_date: self.store.creation_date.clone(),
            secrets_count: self.store.len(),
            kdf: self.keystore_file.kdf,
            nonce_len: self.keystore_file.nonce.len(),
            version: self.keystore_file.version,
        }
    }

    /// What one session saves, the next opens to the same secrets: the
    /// serialized file parses back to the same header fields, the plaintext
    /// that the ciphertext opens to decodes back to the same store, and
    /// opening the file under the same password succeeds outright. The length
    /// bounds hold of every store a machine can represent, and the key and
    /// open hypotheses are exactly what `init_with_storage_and_kdf`, `save`
    /// and `rekey` ensure of the session they leave behind.
    pub proof fn lemma_saved_file_reopens(self, password: Seq<char>, file: Seq<u8>, pt: Seq<u8>)
        requires
            self.wf(),
            file == self.keystore_file.spec_serialize(),
            pt == self.spec_plaintext(),
            self.key@ == argon2id_key(
                password,
                self.keystore_file.salt@,
                self.keystore_file.kdf.mem_cost_kib,
                self.keystore_file.kdf.time_cost,
                self.keystore_file.kdf.parallelism,
            ),
            argon2_accepts(password, self.keystore_file.salt@, self.keystore_file.kdf),
            xchacha_open(self.key@, self.keystore_file.nonce@, self.keystore_file.ciphertext@)
                == Some(pt),
            spec_str_ok(self.store.creation_date@),
            spec_entries_ok(views_of(self.store.secrets@)),
            views_of(self.store.secrets@).len() < 0x10000000000000000,
        ensures
            file.len() == 57 + self.keystore_file.ciphertext@.len(),
            format::spec_magic_ok(file),
            file[4] == 1,
            v1::spec_kdf_of(file) == self.keystore_file.kdf,
            file.subrange(17, 33) == self.keystore_file.salt@,
            file.subrange(33, 57) == self.keystore_file.nonce@,
            file.subrange(57, file.len() as int) == self.keystore_file.ciphertext@,
            spec_decode_store(pt) == Some(
                (self.store.creation_date@, views_of(self.store.secrets@)),
            ),
            views_unique(views_of(self.store.secrets@)),
            spec_opened_key(password, file) == self.key@,
            spec_opened_plaintext(password, file) == Some(pt),
            spec_open_ok(password, file),
    {
        v1::lemma_file_roundtrip(self.keystore_file);
        crate::codec::lemma_store_roundtrip(
            self.store.creation_date@,
            views_of(self.store.secrets@),
        );
        assert(views_unique(views_of(self.store.secrets@))) by {
            assert(forall|x: int|
                0 <= x < self.store.secrets@.len() ==> views_of(self.store.secrets@)[x].key
                    == self.store.secrets@[x].key@);
        }
    }

    /// Ends the session: wipes the key buffer to zero. The release path of
    /// the key is explicit, so every teardown overwrites it.
    pub fn close(&mut self)
        ensures
            final(self).key@ == Seq::new(32, |i: int| 0u8),
            final(self).storage == old(self).storage,
            final(self).store == old(self).store,
            final(self).keystore_file == old(self).keystore_file,
    {
        wipe_key(&mut self.key);
    }
}

} // verus!


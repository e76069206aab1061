//! Version-aware parsing and serialization of the keystore file: a fixed
//! prefix followed by the ciphertext that fills the rest of the file.

pub mod v1;

use crate::crypto::header::spec_magic;
use crate::crypto::kdf::KdfParams;
use crate::error::{FormatError, KeystoreError};
use vstd::prelude::*;

verus! {

/// The newest format version.
pub const CURRENT_VERSION: u8 = 1;

/// True when `data` opens with the four magic bytes.
pub open spec fn spec_magic_ok(data: Seq<u8>) -> bool {
    data.len() >= 4 && data.subrange(0, 4) == spec_magic()
}

/// A parsed keystore file: version, key-derivation parameters, salt, nonce and
/// the encrypted payload.
#[derive(Debug, Clone)]
pub struct KeystoreFile {
    /// Format version of the file.
    pub version: u8,
    /// Key-derivation cost parameters.
    pub kdf: KdfParams,
    /// Salt for key derivation (16 bytes).
    pub salt: Vec<u8>,
    /// Nonce of the ciphertext (24 bytes).
    pub nonce: Vec<u8>,
    /// The encrypted payload, authentication tag included.
    pub ciphertext: Vec<u8>,
}

impl KeystoreFile {
    /// A file value is well formed when its version is known, its salt and
    /// nonce have their fixed lengths and its cost triple is valid.
    pub open spec fn wf(self) -> bool {
        &&& self.version == CURRENT_VERSION
        &&& self.salt@.len() == 16
        &&& self.nonce@.len() == 24
        &&& self.kdf.valid()
    }

    /// The exact bytes this file value serializes to.
    pub open spec fn spec_serialize(self) -> Seq<u8> {
        spec_magic() + seq![self.version]
            + vstd::bytes::spec_u32_to_le_bytes(self.kdf.mem_cost_kib)
            + vstd::bytes::spec_u32_to_le_bytes(self.kdf.time_cost)
            + vstd::bytes::spec_u32_to_le_bytes(self.kdf.parallelism) + self.salt@ + self.nonce@
            + self.ciphertext@
    }

    /// Builds a current-version file value from its components.
    pub fn new(kdf: KdfParams, salt: Vec<u8>, nonce: Vec<u8>, ciphertext: Vec<u8>) -> (r:
        KeystoreFile)
        ensures
            r == (KeystoreFile { version: CURRENT_VERSION, kdf, salt, nonce, ciphertext }),
    {
        KeystoreFile { version: CURRENT_VERSION, kdf, salt, nonce, ciphertext }
    }

    /// Format version of the file.
    pub fn version(&self) -> (r: u8)
        ensures
            r == self.version,
    {
        self.version
    }

    /// Key-derivation parameters of the file.
    pub fn kdf(&self) -> (r: &KdfParams)
        ensures
            r == self.kdf,
    {
        &self.kdf
    }

    /// Salt of the file.
    pub fn salt(&self) -> (r: &Vec<u8>)
        ensures
            r == self.salt,
    {
        &self.salt
    }

    /// Nonce of the file.
    pub fn nonce(&self) -> (r: &Vec<u8>)
        ensures
            r == self.nonce,
    {
        &self.nonce
    }

    /// Encrypted payload of the file.
    pub fn ciphertext(&self) -> (r: &Vec<u8>)
        ensures
            r == self.ciphertext,
    {
        &self.ciphertext
    }
}

/// Parses a keystore file, dispatching on the version byte.
///
/// Rejects a buffer that lacks even the magic and version with `TooShort`, a
/// wrong magic with `BadMagic` and an unknown version byte with
/// `UnsupportedVersion`; everything else is the version decoder's business.
pub fn parse(data: &[u8]) -> (r: Result<KeystoreFile, KeystoreError>)
    ensures
        r matches Ok(f) ==> {
            &&& data@.len() >= 57
            &&& spec_magic_ok(data@)
            &&& data@[4] == CURRENT_VERSION
            &&& f.wf()
            &&& f.kdf == v1::spec_kdf_of(data@)
            &&& f.salt@ == data@.subrange(17, 33)
            &&& f.nonce@ == data@.subrange(33, 57)
            &&& f.ciphertext@ == data@.subrange(57, data@.len() as int)
        },
        r matches Err(KeystoreError::Format(FormatError::TooShort)) <==> (data@.len() < 5 || (
        spec_magic_ok(data@) && data@[4] == CURRENT_VERSION && data@.len() < 57)),
        r matches Err(KeystoreError::Format(FormatError::BadMagic)) <==> (data@.len() >= 5
            && !spec_magic_ok(data@)),
        r matches Err(KeystoreError::Format(FormatError::UnsupportedVersion)) <==> (data@.len() >= 5
            && spec_magic_ok(data@) && data@[4] != CURRENT_VERSION),
        r matches Err(KeystoreError::Format(FormatError::InvalidKdfParams)) <==> (data@.len() >= 57
            && spec_magic_ok(data@) && data@[4] == CURRENT_VERSION && !v1::spec_kdf_of(
            data@,
        ).valid()),
        r is Ok <==> (data@.len() >= 57 && spec_magic_ok(data@) && data@[4] == CURRENT_VERSION
            && v1::spec_kdf_of(data@).valid()),
{
    if data.len() < 5 {
        return Err(KeystoreError::Format(FormatError::TooShort));
    }
    if !(data[0] == 0x4b && data[1] == 0x4e && data[2] == 0x53 && data[3] == 0x54) {
        proof {
            assert(!spec_magic_ok(data@)) by {
                assert(spec_magic()[0] == 0x4bu8);
                assert(data@.subrange(0, 4)[0] == data@[0]);
                assert(data@.subrange(0, 4)[1] == data@[1]);
                assert(data@.subrange(0, 4)[2] == data@[2]);
                assert(data@.subrange(0, 4)[3] == data@[3]);
            }
        }
        return Err(KeystoreError::Format(FormatError::BadMagic));
    }
    proof {
        assert(data@.subrange(0, 4) =~= spec_magic());
    }
    let version = data[4];
    if version == 1 {
        v1::parse(data)
    } else {
        Err(KeystoreError::Format(FormatError::UnsupportedVersion))
    }
}

/// Serializes a file value, dispatching on its version byte.
pub fn serialize(file: &KeystoreFile) -> (r: Result<Vec<u8>, KeystoreError>)
    ensures
        r matches Ok(b) ==> b@ == file.spec_serialize() && file.salt@.len() == 16
            && file.nonce@.len() == 24 && b@.len() == 57 + file.ciphertext@.len(),
        r is Ok <==> (file.version == CURRENT_VERSION && file.salt@.len() == 16
            && file.nonce@.len() == 24),
        r matches Err(KeystoreError::Format(FormatError::UnsupportedVersion)) <==> file.version
            != CURRENT_VERSION,
        r matches Err(KeystoreError::Format(FormatError::BadFieldLength)) <==> (file.version
            == CURRENT_VERSION && !(file.salt@.len() == 16 && file.nonce@.len() == 24)),
{
    if file.version() == 1 {
        v1::serialize(file)
    } else {
        Err(KeystoreError::Format(FormatError::UnsupportedVersion))
    }
}

} // verus!

//! The first file layout: magic, version byte, three little-endian 32-bit
//! cost fields, 16-byte salt, 24-byte nonce, then the ciphertext to the end of
//! the file.

use crate::crypto::header::spec_magic;
use crate::crypto::kdf::KdfParams;
use crate::error::{FormatError, KeystoreError};
use crate::format::KeystoreFile;
use vstd::bytes::{spec_u32_from_le_bytes, u32_from_le_bytes, u32_to_le_bytes};
use vstd::prelude::*;
use vstd::slice::{slice_subrange, slice_to_vec};

verus! {

/// This layout's version byte.
pub const VERSION_V1: u8 = 1;

/// The cost triple encoded at its fixed offsets in `data`.
pub open spec fn spec_kdf_of(data: Seq<u8>) -> KdfParams {
    KdfParams {
        mem_cost_kib: spec_u32_from_le_bytes(data.subrange(5, 9)),
        time_cost: spec_u32_from_le_bytes(data.subrange(9, 13)),
        parallelism: spec_u32_from_le_bytes(data.subrange(13, 17)),
    }
}

/// Parses a file in this layout. The magic and version byte were already
/// dispatched on by the caller and are not inspected again; everything after
/// the fixed prefix is taken as ciphertext.
pub fn parse(data: &[u8]) -> (r: Result<KeystoreFile, KeystoreError>)
    ensures
        r matches Ok(f) ==> {
            &&& data@.len() >= 57
            &&& f.version == VERSION_V1
            &&& f.kdf == spec_kdf_of(data@)
            &&& f.kdf.valid()
            &&& f.salt@ == data@.subrange(17, 33)
            &&& f.nonce@ == data@.subrange(33, 57)
            &&& f.ciphertext@ == data@.subrange(57, data@.len() as int)
            &&& f.wf()
        },
        data@.len() < 57 <==> r matches Err(KeystoreError::Format(FormatError::TooShort)),
        r matches Err(KeystoreError::Format(FormatError::InvalidKdfParams)) <==> (data@.len() >= 57
            && !spec_kdf_of(data@).valid()),
        r is Ok <==> (data@.len() >= 57 && spec_kdf_of(data@).valid()),
{
    if data.len() < 57 {
        return Err(KeystoreError::Format(FormatError::TooShort));
    }
    let mem_cost = u32_from_le_bytes(slice_subrange(data, 5, 9));
    let time_cost = u32_from_le_bytes(slice_subrange(data, 9, 13));
    let parallelism = u32_from_le_bytes(slice_subrange(data, 13, 17));
    let kdf = match KdfParams::new(mem_cost, time_cost, parallelism) {
        Ok(k) => k,
        Err(_) => {
            return Err(KeystoreError::Format(FormatError::InvalidKdfParams));
        },
    };
    let salt = slice_to_vec(slice_subrange(data, 17, 33));
    let nonce = slice_to_vec(slice_subrange(data, 33, 57));
    let ciphertext = slice_to_vec(slice_subrange(data, 57, data.len()));
    Ok(KeystoreFile { version: VERSION_V1, kdf, salt, nonce, ciphertext })
}

/// Serializes a file value into this layout, bit-exact.
///
/// Refuses a value of another version, and a salt or nonce that does not have
/// its fixed length.
pub fn serialize(file: &KeystoreFile) -> (r: Result<Vec<u8>, KeystoreError>)
    ensures
        r matches Ok(b) ==> b@ == file.spec_serialize() && b@.len() == 57
            + file.ciphertext@.len(),
        r is Ok <==> (file.version == VERSION_V1 && file.salt@.len() == 16 && file.nonce@.len()
            == 24),
        r matches Err(KeystoreError::Format(FormatError::UnsupportedVersion)) <==> file.version
            != VERSION_V1,
        r matches Err(KeystoreError::Format(FormatError::BadFieldLength)) <==> (file.version
            == VERSION_V1 && !(file.salt@.len() == 16 && file.nonce@.len() == 24)),
{
    if file.version != VERSION_V1 {
        return Err(KeystoreError::Format(FormatError::UnsupportedVersion));
    }
    if file.salt.len() != 16 {
        return Err(KeystoreError::Format(FormatError::BadFieldLength));
    }
    if file.nonce.len() != 24 {
        return Err(KeystoreError::Format(FormatError::BadFieldLength));
    }
    let mut buf: Vec<u8> = Vec::new();
    buf.push(0x4b);
    buf.push(0x4e);
    buf.push(0x53);
    buf.push(0x54);
    buf.push(file.version);
    let mut mem = u32_to_le_bytes(file.kdf.mem_cost_kib);
    buf.append(&mut mem);
    let mut time = u32_to_le_bytes(file.kdf.time_cost);
    buf.append(&mut time);
    let mut par = u32_to_le_bytes(file.kdf.parallelism);
    buf.append(&mut par);
    let mut salt = slice_to_vec(file.salt.as_slice());
    buf.append(&mut salt);
    let mut nonce = slice_to_vec(file.nonce.as_slice());
    buf.append(&mut nonce);
    let mut ciphertext = slice_to_vec(file.ciphertext.as_slice());
    buf.append(&mut ciphertext);
    proof {
        assert(buf@ =~= file.spec_serialize());
    }
    Ok(buf)
}

/// Serializing a well-formed file value and parsing the result gives the value
/// back: every field lands at its fixed offset, the cost fields read back to
/// themselves, and the ciphertext is exactly the bytes after the prefix.
pub proof fn lemma_file_roundtrip(f: KeystoreFile)
    requires
        f.wf(),
    ensures
        ({
            let b = f.spec_serialize();
            &&& b.len() == 57 + f.ciphertext@.len()
            &&& b.len() >= 4 && b.subrange(0, 4) == spec_magic()
            &&& b[4] == VERSION_V1
            &&& spec_kdf_of(b) == f.kdf
            &&& b.subrange(17, 33) == f.salt@
            &&& b.subrange(33, 57) == f.nonce@
            &&& b.subrange(57, b.len() as int) == f.ciphertext@
        }),
{
    vstd::bytes::lemma_auto_spec_u32_to_from_le_bytes();
    let b = f.spec_serialize();
    assert(b.subrange(0, 4) =~= spec_magic());
    assert(b.subrange(5, 9) =~= vstd::bytes::spec_u32_to_le_bytes(f.kdf.mem_cost_kib));
    assert(b.subrange(9, 13) =~= vstd::bytes::spec_u32_to_le_bytes(f.kdf.time_cost));
    assert(b.subrange(13, 17) =~= vstd::bytes::spec_u32_to_le_bytes(f.kdf.parallelism));
    assert(b.subrange(17, 33) =~= f.salt@);
    assert(b.subrange(33, 57) =~= f.nonce@);
    assert(b.subrange(57, b.len() as int) =~= f.ciphertext@);
}

} // verus!

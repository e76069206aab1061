//! The fixed-layout file prefix: magic, version byte, key-derivation cost
//! triple, salt and nonce, 57 bytes in all.

use crate::crypto::kdf::KdfParams;
use crate::error::{FormatError, KeystoreError};
use vstd::bytes::{
    lemma_auto_spec_u32_to_from_le_bytes, spec_u32_from_le_bytes, spec_u32_to_le_bytes,
    u32_from_le_bytes, u32_to_le_bytes,
};
use vstd::prelude::*;

verus! {

/// The only header layout so far.
pub const VERSION_V1: u8 = 1;

/// Total length of the encoded header in bytes.
pub const HEADER_LEN: usize = 57;

/// The four magic bytes `KNST` that open every keystore file.
pub open spec fn spec_magic() -> Seq<u8> {
    seq![0x4bu8, 0x4eu8, 0x53u8, 0x54u8]
}

/// The fixed-layout prefix of a keystore file.
///
/// An immutable value object: every save builds a fresh one. The encoding is a
/// wire format and must stay bit-exact: magic, version byte, three
/// little-endian 32-bit cost fields, 16-byte salt, 24-byte nonce.
#[derive(Debug, Clone, Copy)]
pub struct Header {
    /// Format version; dispatches the decoder.
    pub version: u8,
    /// Key-derivation cost parameters.
    pub kdf: KdfParams,
    /// Salt for key derivation.
    pub salt: [u8; 16],
    /// Nonce of the ciphertext that follows the header.
    pub nonce: [u8; 24],
}

impl Header {
    /// A header is well formed when its version is known and its cost triple
    /// is valid.
    pub open spec fn wf(self) -> bool {
        self.version == VERSION_V1 && self.kdf.valid()
    }

    /// The exact 57 bytes this header encodes to.
    pub open spec fn spec_to_bytes(self) -> Seq<u8> {
        spec_magic() + seq![self.version] + spec_u32_to_le_bytes(self.kdf.mem_cost_kib)
            + spec_u32_to_le_bytes(self.kdf.time_cost) + spec_u32_to_le_bytes(self.kdf.parallelism)
            + self.salt@ + self.nonce@
    }

    /// Builds a current-version header from its parts.
    pub fn new(kdf: KdfParams, salt: [u8; 16], nonce: [u8; 24]) -> (r: Result<
        Header,
        KeystoreError,
    >)
        ensures
            r matches Ok(h) ==> h == (Header { version: VERSION_V1, kdf, salt, nonce }),
            r is Ok,
    {
        Ok(Header { version: VERSION_V1, kdf, salt, nonce })
    }

    /// Key-derivation parameters carried by the header.
    pub fn kdf(&self) -> (r: &KdfParams)
        ensures
            r == self.kdf,
    {
        &self.kdf
    }

    /// Salt carried by the header.
    pub fn salt(&self) -> (r: &[u8; 16])
        ensures
            r == self.salt,
    {
        &self.salt
    }

    /// Nonce carried by the header.
    pub fn nonce(&self) -> (r: &[u8; 24])
        ensures
            r == self.nonce,
    {
        &self.nonce
    }

    /// Encodes the header into its exact 57-byte wire form.
    pub fn to_bytes(&self) -> (r: Vec<u8>)
        ensures
            r@ == self.spec_to_bytes(),
            r@.len() == 57,
    {
        let mut buf: Vec<u8> = Vec::new();
        buf.push(0x4b);
        buf.push(0x4e);
        buf.push(0x53);
        buf.push(0x54);
        buf.push(self.version);
        let mut mem = u32_to_le_bytes(self.kdf.mem_cost_kib);
        buf.append(&mut mem);
        let mut time = u32_to_le_bytes(self.kdf.time_cost);
        buf.append(&mut time);
        let mut par = u32_to_le_bytes(self.kdf.parallelism);
        buf.append(&mut par);
        let ghost prefix = buf@;
        let mut i: usize = 0;
        while i < 16
            invariant
                i <= 16,
                buf@ == prefix + self.salt@.subrange(0, i as int),
            decreases 16 - i,
        {
            buf.push(self.salt[i]);
            proof {
                assert(buf@ == prefix + self.salt@.subrange(0, i + 1 as int)) by {
                    assert(self.salt@.subrange(0, i + 1 as int) == self.salt@.subrange(
                        0,
                        i as int,
                    ).push(self.salt@[i as int]));
                }
            }
            i = i + 1;
        }
        let ghost prefix2 = buf@;
        let mut j: usize = 0;
        while j < 24
            invariant
                j <= 24,
                buf@ == prefix2 + self.nonce@.subrange(0, j as int),
            decreases 24 - j,
        {
            buf.push(self.nonce[j]);
            proof {
                assert(buf@ == prefix2 + self.nonce@.subrange(0, j + 1 as int)) by {
                    assert(self.nonce@.subrange(0, j + 1 as int) == self.nonce@.subrange(
                        0,
                        j as int,
                    ).push(self.nonce@[j as int]));
                }
            }
            j = j + 1;
        }
        proof {
            assert(self.salt@.subrange(0, 16) == self.salt@);
            assert(self.nonce@.subrange(0, 24) == self.nonce@);
            assert(buf@ =~= self.spec_to_bytes());
        }
        buf
    }

    /// Decodes a header from the front of `data` and returns it together with
    /// the number of bytes consumed, so the caller can slice the remainder.
    ///
    /// Rejects a buffer shorter than 57 bytes, a wrong magic, an unknown
    /// version byte, and a cost triple that violates its invariants, each with
    /// its own distinct error.
    pub fn from_bytes(data: &[u8]) -> (r: Result<(Header, usize), KeystoreError>)
        ensures
            r matches Ok((h, n)) ==> {
                &&& n == 57
                &&& data@.len() >= 57
                &&& data@.subrange(0, 4) == spec_magic()
                &&& data@[4] == VERSION_V1
                &&& h.version == VERSION_V1
                &&& h.kdf.mem_cost_kib == spec_u32_from_le_bytes(data@.subrange(5, 9))
                &&& h.kdf.time_cost == spec_u32_from_le_bytes(data@.subrange(9, 13))
                &&& h.kdf.parallelism == spec_u32_from_le_bytes(data@.subrange(13, 17))
                &&& h.kdf.valid()
                &&& h.salt@ == data@.subrange(17, 33)
                &&& h.nonce@ == data@.subrange(33, 57)
            },
            data@.len() < 57 <==> r matches Err(KeystoreError::Format(FormatError::TooShort)),
            r matches Err(KeystoreError::Format(FormatError::BadMagic)) <==> (data@.len() >= 57
                && data@.subrange(0, 4) != spec_magic()),
            r matches Err(KeystoreError::Format(FormatError::UnsupportedVersion)) <==> (data@.len()
                >= 57 && data@.subrange(0, 4) == spec_magic() && data@[4] != VERSION_V1),
            r matches Err(KeystoreError::Format(FormatError::InvalidKdfParams)) <==> (data@.len()
                >= 57 && data@.subrange(0, 4) == spec_magic() && data@[4] == VERSION_V1 && !(KdfParams {
                mem_cost_kib: spec_u32_from_le_bytes(data@.subrange(5, 9)),
                time_cost: spec_u32_from_le_bytes(data@.subrange(9, 13)),
                parallelism: spec_u32_from_le_bytes(data@.subrange(13, 17)),
            }).valid()),
            r is Ok <==> (data@.len() >= 57 && data@.subrange(0, 4) == spec_magic() && data@[4]
                == VERSION_V1 && (KdfParams {
                mem_cost_kib: spec_u32_from_le_bytes(data@.subrange(5, 9)),
                time_cost: spec_u32_from_le_bytes(data@.subrange(9, 13)),
                parallelism: spec_u32_from_le_bytes(data@.subrange(13, 17)),
            }).valid()),
    {
        if data.len() < 57 {
            return Err(KeystoreError::Format(FormatError::TooShort));
        }
        if !(data[0] == 0x4b && data[1] == 0x4e && data[2] == 0x53 && data[3] == 0x54) {
            proof {
                assert(data@.subrange(0, 4) != spec_magic()) by {
                    assert(spec_magic()[0] == 0x4bu8);
                    assert(data@.subrange(0, 4)[0] == data@[0]);
                    assert(data@.subrange(0, 4)[1] == data@[1]);
                    assert(data@.subrange(0, 4)[2] == data@[2]);
                    assert(data@.subrange(0, 4)[3] == data@[3]);
                }
            }
            return Err(KeystoreError::Format(FormatError::BadMagic));
        }
        proof {
            assert(data@.subrange(0, 4) =~= spec_magic());
        }
        let version = data[4];
        if version != VERSION_V1 {
            return Err(KeystoreError::Format(FormatError::UnsupportedVersion));
        }
        let mem_cost_kib = u32_from_le_bytes(slice_range(data, 5, 9));
        let time_cost = u32_from_le_bytes(slice_range(data, 9, 13));
        let parallelism = u32_from_le_bytes(slice_range(data, 13, 17));
        let kdf = match KdfParams::new(mem_cost_kib, time_cost, parallelism) {
            Ok(k) => k,
            Err(_) => {
                return Err(KeystoreError::Format(FormatError::InvalidKdfParams));
            },
        };
        let mut salt = [0u8; 16];
        let mut i: usize = 0;
        while i < 16
            invariant
                i <= 16,
                data@.len() >= 57,
                salt@.len() == 16,
                forall|k: int| 0 <= k < i ==> salt@[k] == data@[17 + k],
            decreases 16 - i,
        {
            salt[i] = data[17 + i];
            i = i + 1;
        }
        let mut nonce = [0u8; 24];
        let mut j: usize = 0;
        while j < 24
            invariant
                j <= 24,
                data@.len() >= 57,
                nonce@.len() == 24,
                forall|k: int| 0 <= k < j ==> nonce@[k] == data@[33 + k],
            decreases 24 - j,
        {
            nonce[j] = data[33 + j];
            j = j + 1;
        }
        proof {
            assert(salt@ =~= data@.subrange(17, 33));
            assert(nonce@ =~= data@.subrange(33, 57));
        }
        Ok((Header { version, kdf, salt, nonce }, 57))
    }
}

/// Borrows the subslice `data[i..j]`.
fn slice_range<'a>(data: &'a [u8], i: usize, j: usize) -> (r: &'a [u8])
    requires
        0 <= i <= j <= data@.len(),
    ensures
        r@ == data@.subrange(i as int, j as int),
{
    vstd::slice::slice_subrange(data, i, j)
}

/// Encoding a well-formed header and decoding the result gives the header
/// back, consuming exactly its 57 bytes: the fields land at their fixed
/// offsets, and the little-endian cost fields read back to themselves.
pub proof fn lemma_header_roundtrip(h: Header)
    requires
        h.wf(),
    ensures
        ({
            let b = h.spec_to_bytes();
            &&& b.len() == 57
            &&& b.subrange(0, 4) == spec_magic()
            &&& b[4] == VERSION_V1
            &&& spec_u32_from_le_bytes(b.subrange(5, 9)) == h.kdf.mem_cost_kib
            &&& spec_u32_from_le_bytes(b.subrange(9, 13)) == h.kdf.time_cost
            &&& spec_u32_from_le_bytes(b.subrange(13, 17)) == h.kdf.parallelism
            &&& b.subrange(17, 33) == h.salt@
            &&& b.subrange(33, 57) == h.nonce@
        }),
{
    lemma_auto_spec_u32_to_from_le_bytes();
    let b = h.spec_to_bytes();
    assert(b.subrange(0, 4) =~= spec_magic());
    assert(b.subrange(5, 9) =~= spec_u32_to_le_bytes(h.kdf.mem_cost_kib));
    assert(b.subrange(9, 13) =~= spec_u32_to_le_bytes(h.kdf.time_cost));
    assert(b.subrange(13, 17) =~= spec_u32_to_le_bytes(h.kdf.parallelism));
    assert(b.subrange(17, 33) =~= h.salt@);
    assert(b.subrange(33, 57) =~= h.nonce@);
}

} // verus!

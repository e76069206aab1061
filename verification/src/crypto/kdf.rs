//! Password-based key derivation and its cost parameters.

use crate::error::KeystoreError;
use vstd::prelude::*;
use vstd::utf8::encode_utf8;

verus! {

/// Cost parameters for the memory-hard password hash.
///
/// Valid parameters satisfy `mem_cost_kib >= 8`, `time_cost >= 1`,
/// `parallelism >= 1` and `mem_cost_kib >= 8 * parallelism`; [`KdfParams::new`]
/// refuses anything else.
#[derive(Debug, Clone, Copy, PartialEq, Eq, Structural)]
pub struct KdfParams {
    /// Memory cost in KiB.
    pub mem_cost_kib: u32,
    /// Number of iterations.
    pub time_cost: u32,
    /// Degree of parallelism.
    pub parallelism: u32,
}

impl KdfParams {
    /// The invariant every accepted parameter triple satisfies.
    pub open spec fn valid(self) -> bool {
        &&& self.mem_cost_kib >= 8
        &&& self.time_cost >= 1
        &&& self.parallelism >= 1
        &&& self.mem_cost_kib >= 8 * self.parallelism
    }

    /// Builds a validated parameter triple.
    pub fn new(mem_cost_kib: u32, time_cost: u32, parallelism: u32) -> (r: Result<
        KdfParams,
        KeystoreError,
    >)
        ensures
            r matches Ok(p) ==> p == (KdfParams { mem_cost_kib, time_cost, parallelism })
                && p.valid(),
            r is Err <==> !(KdfParams { mem_cost_kib, time_cost, parallelism }).valid(),
            r matches Err(e) ==> e == KeystoreError::InvalidParameters,
    {
        let params = KdfParams { mem_cost_kib, time_cost, parallelism };
        match params.validate() {
            Ok(()) => Ok(params),
            Err(e) => Err(e),
        }
    }

    /// Memory cost in KiB.
    pub fn mem_cost_kib(&self) -> (r: u32)
        ensures
            r == self.mem_cost_kib,
    {
        self.mem_cost_kib
    }

    /// Number of iterations.
    pub fn time_cost(&self) -> (r: u32)
        ensures
            r == self.time_cost,
    {
        self.time_cost
    }

    /// Degree of parallelism.
    pub fn parallelism(&self) -> (r: u32)
        ensures
            r == self.parallelism,
    {
        self.parallelism
    }

    /// Checks the parameter invariant.
    pub fn validate(&self) -> (r: Result<(), KeystoreError>)
        ensures
            r is Ok <==> self.valid(),
            r matches Err(e) ==> e == KeystoreError::InvalidParameters,
    {
        if self.mem_cost_kib < 8 {
            return Err(KeystoreError::InvalidParameters);
        }
        if self.time_cost < 1 {
            return Err(KeystoreError::InvalidParameters);
        }
        if self.parallelism < 1 {
            return Err(KeystoreError::InvalidParameters);
        }
        if (self.mem_cost_kib as u64) < 8u64 * (self.parallelism as u64) {
            return Err(KeystoreError::InvalidParameters);
        }
        Ok(())
    }
}

impl Default for KdfParams {
    /// 64 MiB of memory, three iterations, one lane.
    fn default() -> (r: Self)
        ensures
            r == (KdfParams { mem_cost_kib: 65536u32, time_cost: 3u32, parallelism: 1u32 }),
            r.valid(),
    {
        KdfParams { mem_cost_kib: 65536, time_cost: 3, parallelism: 1 }
    }
}

/// The key that the memory-hard password hash derives from a password, a salt
/// and a cost triple. The primitive is keyed by its arguments alone, so two
/// derivations from the same inputs name the same 32-byte sequence.
pub uninterp spec fn argon2id_key(
    password: Seq<char>,
    salt: Seq<u8>,
    mem_cost_kib: u32,
    time_cost: u32,
    parallelism: u32,
) -> Seq<u8>;

/// True when the primitive accepts the configuration: a valid cost triple
/// whose parallelism fits 24 bits, a salt of 8 to 2^32 - 1 bytes, and a
/// password of at most 2^32 - 1 UTF-8 bytes.
pub open spec fn argon2_accepts(password: Seq<char>, salt: Seq<u8>, kdf: KdfParams) -> bool {
    &&& kdf.valid()
    &&& kdf.parallelism <= 0xFFFFFF
    &&& 8 <= salt.len() <= 0xFFFFFFFF
    &&& encode_utf8(password).len() <= 0xFFFFFFFF
}

/// Relies on argon2: `Argon2::hash_password_into` with `Algorithm::Argon2id`,
/// `Version::V0x13` and the given cost triple fills the 32-byte output as a
/// deterministic function of the password bytes, the salt and the parameters.
/// It succeeds exactly on the configurations its deterministic range checks
/// accept: `Params::new` bounds the parallelism by 2^24 - 1, and
/// `verify_inputs` bounds the salt and password lengths; the valid cost
/// triple rules out every other rejection for a 32-byte output.
#[verifier::external_body]
fn argon2id_hash(password: &str, salt: &[u8], kdf: &KdfParams) -> (r: Result<
    [u8; 32],
    KeystoreError,
>)
    requires
        kdf.valid(),
    ensures
        r is Ok <==> argon2_accepts(password@, salt@, *kdf),
        r matches Ok(k) ==> k@ == argon2id_key(
            password@,
            salt@,
            kdf.mem_cost_kib,
            kdf.time_cost,
            kdf.parallelism,
        ),
        r matches Err(e) ==> e == KeystoreError::DerivationFailed,
{
    let params = argon2::Params::new(kdf.mem_cost_kib, kdf.time_cost, kdf.parallelism, Some(32))
        .map_err(|_| KeystoreError::DerivationFailed)?;
    let argon = argon2::Argon2::new(argon2::Algorithm::Argon2id, argon2::Version::V0x13, params);
    let mut key = [0u8; 32];
    argon.hash_password_into(password.as_bytes(), salt, &mut key)
        .map_err(|_| KeystoreError::DerivationFailed)?;
    Ok(key)
}

/// Derives the 32-byte encryption key for `password` under `salt` and `kdf`.
///
/// Rejects an invalid cost triple with `InvalidParameters` before any work;
/// reports `DerivationFailed` exactly when the primitive refuses the
/// configuration (a salt or password of an unsupported length, or a
/// parallelism beyond 24 bits); succeeds on everything else.
pub fn derive_key(password: &str, salt: &[u8], kdf: KdfParams) -> (r: Result<
    [u8; 32],
    KeystoreError,
>)
    ensures
        r is Ok <==> argon2_accepts(password@, salt@, kdf),
        r matches Ok(k) ==> k@ == argon2id_key(
            password@,
            salt@,
            kdf.mem_cost_kib,
            kdf.time_cost,
            kdf.parallelism,
        ),
        r matches Err(KeystoreError::InvalidParameters) <==> !kdf.valid(),
        r matches Err(KeystoreError::DerivationFailed) <==> (kdf.valid() && !argon2_accepts(
            password@,
            salt@,
            kdf,
        )),
        r matches Err(e) ==> e == KeystoreError::InvalidParameters
            || e == KeystoreError::DerivationFailed,
{
    match kdf.validate() {
        Ok(()) => argon2id_hash(password, salt, &kdf),
        Err(e) => Err(e),
    }
}

/// Key derivation is deterministic: two keys derived from the same password,
/// salt and cost parameters are the same sequence of bytes.
pub proof fn lemma_derive_key_deterministic(
    password: Seq<char>,
    salt: Seq<u8>,
    kdf: KdfParams,
    k1: Seq<u8>,
    k2: Seq<u8>,
)
    requires
        k1 == argon2id_key(password, salt, kdf.mem_cost_kib, kdf.time_cost, kdf.parallelism),
        k2 == argon2id_key(password, salt, kdf.mem_cost_kib, kdf.time_cost, kdf.parallelism),
    ensures
        k1 == k2,
{
}

} // verus!

//! Cryptographic primitives of the keystore: key derivation, authenticated
//! encryption, randomness, and the fixed-layout file header.

pub mod aead;
pub mod header;
pub mod kdf;

pub use aead::{decrypt, encrypt, generate_salt};
pub use header::Header;
pub use kdf::{derive_key, KdfParams};

use vstd::prelude::*;

verus! {

/// Length of the salt in bytes.
pub const SALT_LEN: usize = 16;

/// Length of the nonce in bytes (XChaCha20-Poly1305 uses an extended nonce).
pub const NONCE_LEN: usize = 24;

/// Length of the derived encryption key in bytes.
pub const KEY_LEN: usize = 32;

} // verus!

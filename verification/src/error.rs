//! Error types of the keystore.

use vstd::prelude::*;

verus! {

/// Why a byte buffer was rejected as a keystore file, reported before any
/// decryption is attempted: such a failure points at a foreign or truncated
/// file, not at a wrong password.
#[derive(Debug, Clone, Copy, PartialEq, Eq, Structural)]
pub enum FormatError {
    /// Fewer bytes than the fixed-length prefix requires.
    TooShort,
    /// The first four bytes are not the expected magic.
    BadMagic,
    /// The version byte names no known layout.
    UnsupportedVersion,
    /// The decoded key-derivation triple violates its invariants.
    InvalidKdfParams,
    /// A salt or nonce of the wrong length was handed to the serializer.
    BadFieldLength,
}

/// Failures of the in-memory secret map, independent of any cryptography.
#[derive(Debug, Clone)]
pub enum StoreError {
    /// A secret with this key already exists.
    KeyAlreadyExists(String),
    /// No secret with this key was found.
    KeyNotFound(String),
}

/// Failures of the keystore engine and of its primitives.
#[derive(Debug, Clone, Copy, PartialEq, Eq, Structural)]
pub enum KeystoreError {
    /// The key-derivation cost parameters violate their invariants.
    InvalidParameters,
    /// The operating system's entropy source could not be read.
    RandomUnavailable,
    /// The key-derivation primitive rejected its configuration.
    DerivationFailed,
    /// Decryption or encryption failed. A wrong password and a corrupted or
    /// tampered ciphertext are deliberately not distinguished.
    AeadFailure,
    /// The byte buffer is not a well-formed keystore file.
    Format(FormatError),
    /// The decrypted payload did not decode to a store.
    CorruptedOrWrongPassword,
    /// A keystore already exists at the target path.
    AlreadyExists,
    /// No keystore exists at the target path.
    DoesNotExist,
    /// Reading or writing the file failed.
    IoError,
    /// The freshly drawn temporary file name was already taken.
    TempNameCollision,
}

} // verus!

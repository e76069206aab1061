//! Random salt and nonce generation, and authenticated encryption.

use crate::error::KeystoreError;
use chacha20poly1305::aead::{Aead, KeyInit};
use vstd::prelude::*;

verus! {

/// Relies on getrandom::fill: fills the buffer with bytes from the operating
/// system's entropy source, or fails without any promise of a retry.
#[verifier::external_body]
fn fill_random(buf: &mut Vec<u8>) -> (r: Result<(), KeystoreError>)
    ensures
        final(buf)@.len() == old(buf)@.len(),
        r matches Err(e) ==> e == KeystoreError::RandomUnavailable,
{
    getrandom::fill(buf.as_mut_slice()).map_err(|_| KeystoreError::RandomUnavailable)
}

/// Draws `n` fresh random bytes.
pub(crate) fn random_bytes(n: usize) -> (r: Result<Vec<u8>, KeystoreError>)
    ensures
        r matches Ok(v) ==> v@.len() == n,
        r matches Err(e) ==> e == KeystoreError::RandomUnavailable,
{
    let mut buf: Vec<u8> = Vec::new();
    let mut i: usize = 0;
    while i < n
        invariant
            buf@.len() == i,
            i <= n,
        decreases n - i,
    {
        buf.push(0u8);
        i = i + 1;
    }
    fill_random(&mut buf)?;
    Ok(buf)
}

/// Draws 16 random bytes for a key-derivation salt.
pub fn generate_salt() -> (r: Result<[u8; 16], KeystoreError>)
    ensures
        r matches Err(e) ==> e == KeystoreError::RandomUnavailable,
{
    let buf = random_bytes(16)?;
    let mut salt = [0u8; 16];
    let mut j: usize = 0;
    while j < 16
        invariant
            buf@.len() == 16,
            j <= 16,
        decreases 16 - j,
    {
        salt[j] = buf[j];
        j = j + 1;
    }
    Ok(salt)
}

/// Draws 24 random bytes for an encryption nonce.
pub fn generate_nonce() -> (r: Result<[u8; 24], KeystoreError>)
    ensures
        r matches Err(e) ==> e == KeystoreError::RandomUnavailable,
{
    let buf = random_bytes(24)?;
    let mut nonce = [0u8; 24];
    let mut j: usize = 0;
    while j < 24
        invariant
            buf@.len() == 24,
            j <= 24,
        decreases 24 - j,
    {
        nonce[j] = buf[j];
        j = j + 1;
    }
    Ok(nonce)
}

/// The ciphertext (tag included) that the authenticated cipher produces for a
/// key, a nonce and a plaintext. The cipher is a deterministic function of
/// those three arguments.
pub uninterp spec fn xchacha_seal(key: Seq<u8>, nonce: Seq<u8>, plaintext: Seq<u8>) -> Seq<u8>;

/// What the authenticated cipher recovers from a key, a nonce and a
/// ciphertext: the plaintext when the authentication tag verifies, nothing
/// otherwise. Deterministic in its three arguments.
pub uninterp spec fn xchacha_open(key: Seq<u8>, nonce: Seq<u8>, ciphertext: Seq<u8>) -> Option<
    Seq<u8>,
>;

/// Relies on chacha20poly1305: `Aead::encrypt` of `XChaCha20Poly1305` returns
/// the ciphertext with the 16-byte authentication tag appended, and
/// `Aead::decrypt` of that ciphertext under the same key and nonce returns the
/// plaintext again.
#[verifier::external_body]
fn seal(key: &[u8; 32], nonce: &[u8; 24], plaintext: &[u8]) -> (r: Result<Vec<u8>, KeystoreError>)
    ensures
        r matches Ok(ct) ==> ct@ == xchacha_seal(key@, nonce@, plaintext@) && ct@.len()
            == plaintext@.len() + 16 && xchacha_open(key@, nonce@, ct@) == Some(plaintext@),
        r matches Err(e) ==> e == KeystoreError::AeadFailure,
{
    let cipher = chacha20poly1305::XChaCha20Poly1305::new(chacha20poly1305::Key::from_slice(key));
    cipher
        .encrypt(chacha20poly1305::XNonce::from_slice(nonce), plaintext)
        .map_err(|_| KeystoreError::AeadFailure)
}

/// Relies on chacha20poly1305: `Aead::decrypt` of `XChaCha20Poly1305` returns
/// the plaintext exactly when the authentication tag matches the given key,
/// nonce and ciphertext, and fails on any mismatch.
#[verifier::external_body]
fn open_sealed(key: &[u8; 32], nonce: &[u8; 24], ciphertext: &[u8]) -> (r: Result<
    Vec<u8>,
    KeystoreError,
>)
    ensures
        r matches Ok(pt) ==> xchacha_open(key@, nonce@, ciphertext@) == Some(pt@),
        r is Err ==> xchacha_open(key@, nonce@, ciphertext@) is None,
        r matches Err(e) ==> e == KeystoreError::AeadFailure,
{
    let cipher = chacha20poly1305::XChaCha20Poly1305::new(chacha20poly1305::Key::from_slice(key));
    cipher
        .decrypt(chacha20poly1305::XNonce::from_slice(nonce), ciphertext)
        .map_err(|_| KeystoreError::AeadFailure)
}

/// Encrypts `plaintext` under `key` with a freshly drawn 24-byte nonce and
/// returns the ciphertext together with that nonce.
///
/// A fresh nonce is drawn on every call; a nonce must never be reused with the
/// same key. The returned ciphertext opens back to `plaintext` under the same
/// key and nonce.
pub fn encrypt(key: &[u8; 32], plaintext: &[u8]) -> (r: Result<(Vec<u8>, [u8; 24]), KeystoreError>)
    ensures
        r matches Ok((ct, nonce)) ==> ct@ == xchacha_seal(key@, nonce@, plaintext@) && ct@.len()
            == plaintext@.len() + 16 && xchacha_open(key@, nonce@, ct@) == Some(plaintext@),
        r matches Err(e) ==> e == KeystoreError::RandomUnavailable || e
            == KeystoreError::AeadFailure,
{
    let nonce = generate_nonce()?;
    let ct = seal(key, &nonce, plaintext)?;
    Ok((ct, nonce))
}

/// Decrypts `ciphertext` under `key` and `nonce`, verifying the tag.
///
/// Fails with the single undifferentiated `AeadFailure` on a wrong key, a
/// truncated ciphertext or any tampered byte, so that callers cannot tell a
/// wrong password from a corrupted file.
pub fn decrypt(key: &[u8; 32], nonce: &[u8; 24], ciphertext: &[u8]) -> (r: Result<
    Vec<u8>,
    KeystoreError,
>)
    ensures
        r matches Ok(pt) ==> xchacha_open(key@, nonce@, ciphertext@) == Some(pt@),
        r is Err <==> xchacha_open(key@, nonce@, ciphertext@) is None,
        r matches Err(e) ==> e == KeystoreError::AeadFailure,
{
    open_sealed(key, nonce, ciphertext)
}

} // verus!

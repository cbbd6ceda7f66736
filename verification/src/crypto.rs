//! Trusted boundary to the cryptographic primitives.
//!
//! Key derivation, the block cipher, the digest and the random source come
//! from openssl. Each call sits behind one wrapper whose contract names its
//! result; everything that combines the primitives is verified against these
//! contracts.
use vstd::prelude::*;

verus! {

use secstr::SecVec;
use crate::secret::sec_bytes;

/// Derived key length: 256 bits.
pub const KEY_LEN: usize = 32;

/// Salt length of the envelope format.
pub const SALT_LEN: usize = 16;

/// IV length of AES-256-CBC.
pub const IV_LEN: usize = 16;

/// Largest iteration count the key-derivation primitive takes: openssl hands
/// the count to C as a signed 32-bit int and aborts on anything larger.
pub const MAX_ITERATIONS: u32 = 0x7fff_ffff;

/// Largest passphrase the key-derivation primitive takes, for the same
/// reason.
pub const MAX_PASS_LEN: usize = 0x7fff_ffff;

/// Largest input the one-shot cipher calls take: they allocate an output of
/// the input length plus one block, which must stay within a signed 32-bit
/// int, or the call aborts.
pub const MAX_CIPHER_DATA_LEN: usize = 0x7fff_ffef;

/// The key PBKDF2-HMAC-SHA-256 derives: a function of the passphrase, the
/// salt and the iteration count alone.
pub uninterp spec fn pbkdf2_sha256(pass: Seq<u8>, salt: Seq<u8>, iterations: u32) -> Seq<u8>;

/// The AES-256-CBC ciphertext (with standard padding): a function of key, IV
/// and plaintext alone.
pub uninterp spec fn aes256cbc_enc(key: Seq<u8>, iv: Seq<u8>, plaintext: Seq<u8>) -> Seq<u8>;

/// The outcome of AES-256-CBC decryption: the recovered plaintext, or nothing
/// when the padding that decryption uncovers is invalid. A function of key,
/// IV and ciphertext alone.
pub uninterp spec fn aes256cbc_dec(key: Seq<u8>, iv: Seq<u8>, ciphertext: Seq<u8>) -> Option<
    Seq<u8>,
>;

/// The SHA-256 digest: a function of the input bytes alone.
pub uninterp spec fn sha256_of(data: Seq<u8>) -> Seq<u8>;

/// Relies on openssl's `pkcs5::pbkdf2_hmac` with SHA-256: the derived key
/// depends on the passphrase bytes, the salt and the iteration count alone.
/// The key is returned in a locked, zero-on-drop buffer. Fails only on a
/// primitive fault. The bounds keep every length and the count within the
/// C ints the binding converts them to; above them it would abort.
#[verifier::external_body]
pub(crate) fn derive_key(pass: &SecVec<u8>, salt: &[u8], iterations: u32) -> (r: Option<SecVec<u8>>)
    requires
        sec_bytes(*pass).len() <= MAX_PASS_LEN,
        salt@.len() <= 0x7fff_ffff,
        iterations <= MAX_ITERATIONS,
    ensures
        r matches Some(k) ==> sec_bytes(k) == pbkdf2_sha256(sec_bytes(*pass), salt@, iterations)
            && sec_bytes(k).len() == KEY_LEN,
{
    let mut key = SecVec::new(vec![0u8; KEY_LEN]);
    let outcome = openssl::pkcs5::pbkdf2_hmac(
        pass.unsecure(),
        salt,
        iterations as usize,
        openssl::hash::MessageDigest::sha256(),
        key.unsecure_mut(),
    );
    match outcome {
        Ok(()) => Some(key),
        Err(_) => None,
    }
}

/// Relies on openssl's `symm::encrypt` with AES-256-CBC: the ciphertext is a
/// function of key, IV and plaintext alone; with the standard padding it is
/// the plaintext rounded up to the next whole block, and `symm::decrypt`
/// under the same key and IV recovers the plaintext. Fails only on a
/// primitive fault. The length bound keeps the output buffer within the C
/// int the binding checks it against; above it the call would abort.
#[verifier::external_body]
pub(crate) fn aes_encrypt(key: &SecVec<u8>, iv: &[u8], plaintext: &[u8]) -> (r: Option<Vec<u8>>)
    requires
        sec_bytes(*key).len() == KEY_LEN,
        iv@.len() == IV_LEN,
        plaintext@.len() <= MAX_CIPHER_DATA_LEN,
    ensures
        r matches Some(ct) ==> ct@ == aes256cbc_enc(sec_bytes(*key), iv@, plaintext@)
            && ct@.len() == (plaintext@.len() / 16 + 1) * 16
            && aes256cbc_dec(sec_bytes(*key), iv@, ct@) == Some(plaintext@),
{
    openssl::symm::encrypt(
        openssl::symm::Cipher::aes_256_cbc(),
        key.unsecure(),
        Some(iv),
        plaintext,
    ).ok()
}

/// Relies on openssl's `symm::decrypt` with AES-256-CBC: for a fixed key, IV
/// and ciphertext the outcome is always the same; it fails exactly when the
/// uncovered padding is invalid. The length bound keeps the output buffer
/// within the C int the binding checks it against; above it the call would
/// abort.
#[verifier::external_body]
pub(crate) fn aes_decrypt(key: &SecVec<u8>, iv: &[u8], ciphertext: &[u8]) -> (r: Option<Vec<u8>>)
    requires
        sec_bytes(*key).len() == KEY_LEN,
        iv@.len() == IV_LEN,
        ciphertext@.len() <= MAX_CIPHER_DATA_LEN,
    ensures
        r matches Some(pt) ==> aes256cbc_dec(sec_bytes(*key), iv@, ciphertext@) == Some(pt@),
        r is None ==> aes256cbc_dec(sec_bytes(*key), iv@, ciphertext@) is None,
{
    openssl::symm::decrypt(
        openssl::symm::Cipher::aes_256_cbc(),
        key.unsecure(),
        Some(iv),
        ciphertext,
    ).ok()
}

/// Relies on openssl's `rand::rand_bytes`: it fills the buffer from the
/// cryptographically secure random source. Nothing is promised of the values;
/// fails only when the entropy source does.
#[verifier::external_body]
pub(crate) fn random_bytes_16() -> (r: Option<Vec<u8>>)
    ensures
        r matches Some(v) ==> v@.len() == 16,
{
    let mut buf = [0u8; 16];
    match openssl::rand::rand_bytes(&mut buf) {
        Ok(()) => Some(buf.to_vec()),
        Err(_) => None,
    }
}

/// Relies on openssl's `hash::hash` with SHA-256: the 32-byte digest is a
/// function of the input bytes alone. Fails only on a primitive fault.
#[verifier::external_body]
pub(crate) fn sha256(data: &[u8]) -> (r: Option<Vec<u8>>)
    ensures
        r matches Some(d) ==> d@ == sha256_of(data@) && d@.len() == 32,
{
    openssl::hash::hash(openssl::hash::MessageDigest::sha256(), data).ok().map(|d| d.to_vec())
}

} // verus!

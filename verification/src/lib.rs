//! Encrypted password-vault storage engine.
//!
//! The vault is persisted as a versioned envelope: a fresh random salt and IV,
//! a PBKDF2 iteration count, and the AES-256-CBC ciphertext of the serialized
//! vault model. Entries carry a hash-chained history of password changes.
use vstd::prelude::*;

pub mod bytefmt;
pub mod secret;
pub mod crypto;
pub mod clock;
pub mod hexfmt;
pub mod envelope;
pub mod hasher;
pub mod model;
pub mod codec;
pub mod store;
pub mod pwgen;
pub mod quality;

verus! {

/// Failure kinds of the storage engine.
///
/// `DecryptionError` covers a wrong passphrase, corrupted ciphertext and
/// corrupted padding alike: the envelope carries no authenticity tag, so the
/// three causes are indistinguishable by design.
#[derive(Debug, Clone, Copy, PartialEq, Eq, Structural)]
pub enum VaultError {
    /// The envelope's format version is not recognized by this reader.
    UnsupportedVersion,
    /// The ciphertext did not decrypt under the derived key.
    DecryptionError,
    /// The key-derivation primitive reported a fault.
    KeyDerivationError,
    /// A cipher, digest or entropy primitive reported a fault.
    CipherError,
    /// The decrypted payload is not a valid vault encoding.
    StructuralDecodeError,
    /// The system clock returned a time the engine cannot represent.
    ClockError,
}

} // verus!

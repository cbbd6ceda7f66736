//! Vault lifecycle: locating, unlocking, creating and saving.
//!
//! The store works on plain bytes; reading and writing the vault file, and
//! finding its path, are the caller's concern. A session moves from
//! `NoVaultFile` or `LockedVault` to `UnlockedVault`; an unreadable file is
//! the terminal `ErrorVault`.
use vstd::prelude::*;

verus! {

use crate::envelope::{
    Envelope, EnvelopeView, FORMAT_VERSION, MIN_ITERATIONS, spec_open, spec_dec_envelope,
    encode_envelope, decode_envelope, lemma_envelope_round_trip,
};
use crate::crypto::{MAX_ITERATIONS, MAX_PASS_LEN, MAX_CIPHER_DATA_LEN};
use crate::codec::{spec_dec_vault, enc_vault, encode_vault, decode_vault, lemma_vault_round_trip};
use crate::model::{Vault, VaultView};
use crate::secret::sec_bytes;
use crate::VaultError;
use secstr::SecStr;

/// Where a vault session stands.
pub enum VaultState {
    /// No vault file exists yet.
    NoVaultFile,
    /// The file was read and structurally understood, but not decrypted.
    LockedVault(Envelope),
    /// The vault is decrypted and usable.
    UnlockedVault(Vault),
    /// The file exists but could not be read as an envelope; fatal for the
    /// session.
    ErrorVault,
}

/// What unlocking an envelope under a passphrase yields: the decoded vault
/// when the ciphertext decrypts and the payload is a valid vault encoding.
pub open spec fn spec_unlock(env: EnvelopeView, pass: Seq<u8>) -> Option<VaultView> {
    match spec_open(env, pass) {
        None => None,
        Some(payload) => spec_dec_vault(payload),
    }
}

/// Classifies the vault file's presence and structure.
///
/// `None` means the file does not exist, which is not an error: no vault was
/// created yet. Unreadable contents are fatal for the session.
pub fn locate(file_bytes: Option<Vec<u8>>) -> (r: VaultState)
    ensures
        match file_bytes {
            None => r is NoVaultFile,
            Some(b) => match spec_dec_envelope(b@) {
                Some(ev) => r matches VaultState::LockedVault(env) && env@ == ev && env@.wf(),
                None => r is ErrorVault,
            },
        },
{
    match file_bytes {
        None => VaultState::NoVaultFile,
        Some(b) => match decode_envelope(b.as_slice()) {
            Some(env) => VaultState::LockedVault(env),
            None => VaultState::ErrorVault,
        },
    }
}

/// Builds a fresh, empty vault. Nothing is written until `save_bytes`.
pub fn create(owner: String) -> (v: Vault)
    ensures
        v.deep_view() == (VaultView { owner: owner@, entries: Seq::empty() }),
        v.deep_view().wf(),
{
    Vault::new(owner)
}

/// Decrypts an envelope and decodes the payload into a vault.
///
/// A wrong passphrase and a corrupted file both surface as
/// `DecryptionError`, as do stored fields beyond what the primitives take;
/// a payload that is not a valid vault encoding is a
/// `StructuralDecodeError`; when the envelope does unlock under the
/// passphrase, only a key-derivation fault can still fail. The envelope is
/// not consumed: the caller may retry with another passphrase.
pub fn unlock(env: &Envelope, passphrase: &SecStr) -> (r: Result<Vault, VaultError>)
    requires
        env@.wf(),
    ensures
        r matches Ok(v) ==> spec_unlock(env@, sec_bytes(*passphrase)) == Some(v.deep_view())
            && v.deep_view().wf(),
        (env@.version != FORMAT_VERSION) <==> r == Err::<Vault, VaultError>(
            VaultError::UnsupportedVersion,
        ),
        r == Err::<Vault, VaultError>(VaultError::DecryptionError) ==> spec_open(
            env@,
            sec_bytes(*passphrase),
        ) is None,
        r == Err::<Vault, VaultError>(VaultError::StructuralDecodeError) ==> (spec_open(
            env@,
            sec_bytes(*passphrase),
        ) matches Some(payload) && spec_dec_vault(payload) is None),
        env@.version == FORMAT_VERSION && (env@.iterations > MAX_ITERATIONS
            || env@.ciphertext.len() > MAX_CIPHER_DATA_LEN) ==> r == Err::<Vault, VaultError>(
            VaultError::DecryptionError,
        ),
        env@.version == FORMAT_VERSION && env@.iterations <= MAX_ITERATIONS
            && env@.ciphertext.len() <= MAX_CIPHER_DATA_LEN && sec_bytes(*passphrase).len()
            > MAX_PASS_LEN ==> r == Err::<Vault, VaultError>(VaultError::KeyDerivationError),
        r matches Err(e) ==> (e == VaultError::UnsupportedVersion || e
            == VaultError::DecryptionError || e == VaultError::KeyDerivationError || e
            == VaultError::StructuralDecodeError),
        r matches Err(e) ==> (spec_unlock(env@, sec_bytes(*passphrase)) is Some ==> e
            == VaultError::KeyDerivationError),
{
    let payload = match env.open(passphrase) {
        Ok(p) => p,
        Err(e) => {
            return Err(e);
        },
    };
    match decode_vault(payload.as_slice()) {
        Some(v) => Ok(v),
        None => Err(VaultError::StructuralDecodeError),
    }
}

/// Serializes and reseals the vault into fresh envelope file bytes.
///
/// Every call draws a new salt and IV; resaving unchanged content yields a
/// fresh envelope. The produced bytes decode back to an envelope that
/// unlocks, under the same passphrase, to exactly this vault. A vault
/// encoding or passphrase beyond what the primitives take is rejected with
/// an error; otherwise the call fails only when a crypto primitive or the
/// entropy source faults.
#[verifier::rlimit(50)]
#[verifier::spinoff_prover]
pub fn save_bytes(vault: &Vault, passphrase: &SecStr, iterations: u32) -> (r: Result<
    Vec<u8>,
    VaultError,
>)
    requires
        vault.deep_view().wf(),
        iterations >= MIN_ITERATIONS,
        iterations <= MAX_ITERATIONS,
    ensures
        r matches Ok(bytes) ==> exists|env: EnvelopeView|
            {
                &&& #[trigger] spec_dec_envelope(bytes@) == Some(env)
                &&& env.wf()
                &&& env.version == FORMAT_VERSION
                &&& env.iterations == iterations
                &&& spec_unlock(env, sec_bytes(*passphrase)) == Some(vault.deep_view())
            },
        enc_vault(vault.deep_view()).len() > MAX_CIPHER_DATA_LEN - 16 ==> r == Err::<
            Vec<u8>,
            VaultError,
        >(VaultError::CipherError),
        enc_vault(vault.deep_view()).len() <= MAX_CIPHER_DATA_LEN - 16 && sec_bytes(
            *passphrase,
        ).len() > MAX_PASS_LEN ==> r == Err::<Vec<u8>, VaultError>(
            VaultError::KeyDerivationError,
        ),
        r matches Err(e) ==> (e == VaultError::CipherError || e == VaultError::KeyDerivationError),
{
    let payload = encode_vault(vault);
    let env = match Envelope::seal(payload.as_slice(), passphrase, iterations) {
        Ok(env) => env,
        Err(e) => {
            return Err(e);
        },
    };
    let bytes = encode_envelope(&env);
    proof {
        lemma_envelope_round_trip(env@);
        lemma_vault_round_trip(vault.deep_view());
        assert(spec_dec_envelope(bytes@) == Some(env@));
        assert(spec_unlock(env@, sec_bytes(*passphrase)) == Some(vault.deep_view()));
    }
    Ok(bytes)
}

} // verus!

//! The versioned, encrypted on-disk record.
//!
//! An envelope holds a format version, a random salt, the key-derivation
//! iteration count, a random IV and the ciphertext. `seal` turns a payload
//! into an envelope under a passphrase; `open` is its inverse. The binary
//! layout is a fixed field sequence, encoded and decoded by verified code.
use vstd::prelude::*;

verus! {

use crate::bytefmt::{
    enc_u8, enc_u32, enc_bytes, dec_u8, dec_u32, dec_bytes, write_u8, write_u32, write_bytes,
    read_u8, read_u32, read_bytes, lemma_window_split, lemma_dec_enc_u8, lemma_dec_enc_u32,
    lemma_dec_enc_bytes,
};
use crate::crypto::{
    SALT_LEN, IV_LEN, KEY_LEN, MAX_ITERATIONS, MAX_PASS_LEN, MAX_CIPHER_DATA_LEN, pbkdf2_sha256,
    aes256cbc_enc, aes256cbc_dec, derive_key, aes_encrypt, aes_decrypt, random_bytes_16,
};
use crate::secret::{sec_bytes, secret_len};
use crate::VaultError;
use secstr::SecStr;
use vstd::slice::{slice_subrange, slice_to_vec};

/// The one on-disk layout this reader understands.
pub const FORMAT_VERSION: u8 = 1;

/// Smallest key-derivation work factor a fresh envelope may be sealed with.
pub const MIN_ITERATIONS: u32 = 100000;

pub struct Envelope {
    pub version: u8,
    pub salt: Vec<u8>,
    pub iterations: u32,
    pub iv: Vec<u8>,
    pub ciphertext: Vec<u8>,
}

#[verifier::ext_equal]
pub struct EnvelopeView {
    pub version: u8,
    pub salt: Seq<u8>,
    pub iterations: u32,
    pub iv: Seq<u8>,
    pub ciphertext: Seq<u8>,
}

impl View for Envelope {
    type V = EnvelopeView;

    open spec fn view(&self) -> EnvelopeView {
        EnvelopeView {
            version: self.version,
            salt: self.salt@,
            iterations: self.iterations,
            iv: self.iv@,
            ciphertext: self.ciphertext@,
        }
    }
}

impl EnvelopeView {
    /// Structural validity of an envelope value.
    pub open spec fn wf(self) -> bool {
        &&& self.salt.len() == SALT_LEN
        &&& self.iv.len() == IV_LEN
        &&& self.ciphertext.len() <= u64::MAX
    }
}

/// What opening an envelope under a passphrase yields: the payload when the
/// version is known, the stored iteration count and the ciphertext length
/// are within what the primitives take, and the ciphertext decrypts under
/// the derived key; nothing otherwise.
pub open spec fn spec_open(env: EnvelopeView, pass: Seq<u8>) -> Option<Seq<u8>> {
    if env.version == FORMAT_VERSION && env.iterations <= MAX_ITERATIONS && env.ciphertext.len()
        <= MAX_CIPHER_DATA_LEN {
        aes256cbc_dec(pbkdf2_sha256(pass, env.salt, env.iterations), env.iv, env.ciphertext)
    } else {
        None
    }
}

impl Envelope {
    /// Encrypts `payload` under `passphrase` into a fresh envelope.
    ///
    /// The salt and the IV are drawn anew from the secure random source on
    /// every call and never reused; nothing about their values is promised
    /// beyond their length. The ciphertext is exactly the AES-256-CBC
    /// encryption of the payload under the PBKDF2-derived key, and the
    /// sealed envelope opens back to the payload under the same passphrase.
    /// A payload or passphrase beyond what the primitives take is rejected
    /// with an error; otherwise the call fails only when a crypto primitive
    /// or the entropy source faults.
    pub fn seal(payload: &[u8], passphrase: &SecStr, iterations: u32) -> (r: Result<
        Envelope,
        VaultError,
    >)
        requires
            iterations >= MIN_ITERATIONS,
            iterations <= MAX_ITERATIONS,
        ensures
            r matches Ok(env) ==> {
                &&& env@.wf()
                &&& env@.version == FORMAT_VERSION
                &&& env@.iterations == iterations
                &&& env@.ciphertext == aes256cbc_enc(
                    pbkdf2_sha256(sec_bytes(*passphrase), env@.salt, iterations),
                    env@.iv,
                    payload@,
                )
                &&& env@.ciphertext.len() == (payload@.len() / 16 + 1) * 16
                &&& spec_open(env@, sec_bytes(*passphrase)) == Some(payload@)
            },
            payload@.len() > MAX_CIPHER_DATA_LEN - 16 ==> r == Err::<Envelope, VaultError>(
                VaultError::CipherError,
            ),
            payload@.len() <= MAX_CIPHER_DATA_LEN - 16 && sec_bytes(*passphrase).len()
                > MAX_PASS_LEN ==> r == Err::<Envelope, VaultError>(
                VaultError::KeyDerivationError,
            ),
            r matches Err(e) ==> (e == VaultError::CipherError || e
                == VaultError::KeyDerivationError),
    {
        if payload.len() > MAX_CIPHER_DATA_LEN - 16 {
            return Err(VaultError::CipherError);
        }
        if secret_len(passphrase) > MAX_PASS_LEN {
            return Err(VaultError::KeyDerivationError);
        }
        let salt = match random_bytes_16() {
            Some(v) => v,
            None => {
                return Err(VaultError::CipherError);
            },
        };
        let iv = match random_bytes_16() {
            Some(v) => v,
            None => {
                return Err(VaultError::CipherError);
            },
        };
        let key = match derive_key(passphrase, salt.as_slice(), iterations) {
            Some(k) => k,
            None => {
                return Err(VaultError::KeyDerivationError);
            },
        };
        let ciphertext = match aes_encrypt(&key, iv.as_slice(), payload) {
            Some(ct) => ct,
            None => {
                return Err(VaultError::CipherError);
            },
        };
        proof {
            assert((payload@.len() / 16) * 16 <= payload@.len()) by (nonlinear_arith);
            assert(ciphertext@.len() <= MAX_CIPHER_DATA_LEN);
        }
        Ok(Envelope { version: FORMAT_VERSION, salt, iterations, iv, ciphertext })
    }

    /// Decrypts the envelope under `passphrase`.
    ///
    /// An unknown format version is rejected outright. A stored iteration
    /// count or ciphertext length beyond what the primitives take counts as
    /// a corrupt file, and a ciphertext that does not decrypt under the
    /// derived key fails likewise with `DecryptionError`: a wrong passphrase
    /// and a corrupted file are indistinguishable here by design. A
    /// passphrase beyond what key derivation takes is rejected with an
    /// error; key derivation itself fails only on a primitive fault.
    pub fn open(&self, passphrase: &SecStr) -> (r: Result<Vec<u8>, VaultError>)
        requires
            self@.wf(),
        ensures
            (self@.version != FORMAT_VERSION) <==> r == Err::<Vec<u8>, VaultError>(
                VaultError::UnsupportedVersion,
            ),
            r matches Ok(p) ==> spec_open(self@, sec_bytes(*passphrase)) == Some(p@),
            r == Err::<Vec<u8>, VaultError>(VaultError::DecryptionError) ==> spec_open(
                self@,
                sec_bytes(*passphrase),
            ) is None,
            self@.version == FORMAT_VERSION && (self@.iterations > MAX_ITERATIONS
                || self@.ciphertext.len() > MAX_CIPHER_DATA_LEN) ==> r == Err::<
                Vec<u8>,
                VaultError,
            >(VaultError::DecryptionError),
            self@.version == FORMAT_VERSION && self@.iterations <= MAX_ITERATIONS
                && self@.ciphertext.len() <= MAX_CIPHER_DATA_LEN && sec_bytes(*passphrase).len()
                > MAX_PASS_LEN ==> r == Err::<Vec<u8>, VaultError>(
                VaultError::KeyDerivationError,
            ),
            r matches Err(e) ==> (e == VaultError::UnsupportedVersion || e
                == VaultError::DecryptionError || e == VaultError::KeyDerivationError),
    {
        if self.version != FORMAT_VERSION {
            return Err(VaultError::UnsupportedVersion);
        }
        if self.iterations > MAX_ITERATIONS {
            return Err(VaultError::DecryptionError);
        }
        if self.ciphertext.len() > MAX_CIPHER_DATA_LEN {
            return Err(VaultError::DecryptionError);
        }
        if secret_len(passphrase) > MAX_PASS_LEN {
            return Err(VaultError::KeyDerivationError);
        }
        let key = match derive_key(passphrase, self.salt.as_slice(), self.iterations) {
            Some(k) => k,
            None => {
                return Err(VaultError::KeyDerivationError);
            },
        };
        match aes_decrypt(&key, self.iv.as_slice(), self.ciphertext.as_slice()) {
            Some(payload) => Ok(payload),
            None => Err(VaultError::DecryptionError),
        }
    }
}

// ---------------------------------------------------------------------------
// Binary layout
// ---------------------------------------------------------------------------

/// The envelope's byte layout: version, salt, iteration count, IV,
/// length-prefixed ciphertext.
pub open spec fn spec_enc_envelope(e: EnvelopeView) -> Seq<u8> {
    enc_u8(e.version) + e.salt + enc_u32(e.iterations) + e.iv + enc_bytes(e.ciphertext)
}

/// The structural reading of an envelope file; consumes the whole buffer.
pub open spec fn spec_dec_envelope(b: Seq<u8>) -> Option<EnvelopeView> {
    match dec_u8(b, 0) {
        None => None,
        Some((version, p1)) => if p1 + SALT_LEN <= b.len() {
            let salt = b.subrange(p1, p1 + SALT_LEN);
            match dec_u32(b, p1 + SALT_LEN) {
                None => None,
                Some((iterations, p2)) => if p2 + IV_LEN <= b.len() {
                    let iv = b.subrange(p2, p2 + IV_LEN);
                    match dec_bytes(b, p2 + IV_LEN) {
                        None => None,
                        Some((ciphertext, p3)) => if p3 == b.len() {
                            Some(EnvelopeView { version, salt, iterations, iv, ciphertext })
                        } else {
                            None
                        },
                    }
                } else {
                    None
                },
            }
        } else {
            None
        },
    }
}

/// Serializes the envelope.
pub fn encode_envelope(e: &Envelope) -> (r: Vec<u8>)
    requires
        e@.wf(),
    ensures
        r@ == spec_enc_envelope(e@),
{
    let mut out: Vec<u8> = Vec::new();
    write_u8(&mut out, e.version);
    out.extend_from_slice(e.salt.as_slice());
    write_u32(&mut out, e.iterations);
    out.extend_from_slice(e.iv.as_slice());
    write_bytes(&mut out, e.ciphertext.as_slice());
    assert(out@ =~= spec_enc_envelope(e@));
    out
}

/// Reads an envelope back from file bytes; rejects any trailing garbage.
pub fn decode_envelope(b: &[u8]) -> (r: Option<Envelope>)
    ensures
        r matches Some(env) ==> spec_dec_envelope(b@) == Some(env@) && env@.wf(),
        r is None ==> spec_dec_envelope(b@) is None,
{
    let (version, p1) = match read_u8(b, 0) {
        Some(x) => x,
        None => {
            return None;
        },
    };
    if b.len() - p1 < SALT_LEN {
        return None;
    }
    let salt = slice_to_vec(slice_subrange(b, p1, p1 + SALT_LEN));
    let (iterations, p2) = match read_u32(b, p1 + SALT_LEN) {
        Some(x) => x,
        None => {
            return None;
        },
    };
    if b.len() - p2 < IV_LEN {
        return None;
    }
    let iv = slice_to_vec(slice_subrange(b, p2, p2 + IV_LEN));
    let (ciphertext, p3) = match read_bytes(b, p2 + IV_LEN) {
        Some(x) => x,
        None => {
            return None;
        },
    };
    if p3 != b.len() {
        return None;
    }
    Some(Envelope { version, salt, iterations, iv, ciphertext })
}

/// Decoding a serialized envelope yields the envelope back.
pub proof fn lemma_envelope_round_trip(e: EnvelopeView)
    requires
        e.wf(),
    ensures
        spec_dec_envelope(spec_enc_envelope(e)) == Some(e),
{
    let b = spec_enc_envelope(e);
    let r1 = e.salt + enc_u32(e.iterations) + e.iv + enc_bytes(e.ciphertext);
    let r2 = enc_u32(e.iterations) + e.iv + enc_bytes(e.ciphertext);
    let r3 = e.iv + enc_bytes(e.ciphertext);
    let r4 = enc_bytes(e.ciphertext);
    assert(b =~= enc_u8(e.version) + r1);
    assert(b.subrange(0, b.len() as int) =~= b);
    lemma_window_split(b, 0, enc_u8(e.version), r1);
    lemma_dec_enc_u8(b, 0, e.version);
    assert(r1 =~= e.salt + r2);
    lemma_window_split(b, 1, e.salt, r2);
    assert(r2 =~= enc_u32(e.iterations) + r3);
    lemma_window_split(b, 1 + SALT_LEN, enc_u32(e.iterations), r3);
    lemma_dec_enc_u32(b, 1 + SALT_LEN, e.iterations);
    assert(r3 =~= e.iv + r4);
    lemma_window_split(b, 1 + SALT_LEN + 4, e.iv, r4);
    assert(r4.subrange(0, r4.len() as int) =~= r4);
    lemma_dec_enc_bytes(b, 1 + SALT_LEN + 4 + IV_LEN, e.ciphertext);
    assert(spec_dec_envelope(b) == Some(e));
}

} // verus!

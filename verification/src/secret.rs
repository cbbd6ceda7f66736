//! Secret-holding byte buffers.
//!
//! Passphrases and derived keys live in `secstr`'s buffers, which are locked
//! against swapping and zeroed on drop. To the verifier such a buffer is
//! opaque; `sec_bytes` names the bytes it holds, and the trusted crypto
//! wrappers state their contracts over that name.
use vstd::prelude::*;

verus! {

#[verifier::external_type_specification]
#[verifier::external_body]
#[verifier::reject_recursive_types(T)]
pub struct ExSecVec<T: Copy>(secstr::SecVec<T>);

/// The bytes a secret buffer holds.
pub uninterp spec fn sec_bytes(s: secstr::SecVec<u8>) -> Seq<u8>;

/// Relies on secstr's `SecVec::unsecure`: it borrows exactly the held bytes,
/// whose count this reports.
#[verifier::external_body]
pub(crate) fn secret_len(s: &secstr::SecVec<u8>) -> (n: usize)
    ensures
        n == sec_bytes(*s).len(),
{
    s.unsecure().len()
}

} // verus!

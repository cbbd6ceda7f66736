//! Content-addressed identifiers of password-change records.
//!
//! A record's id is the lowercase-hex SHA-256 digest of the concatenation of
//! author, previous secret, new secret, RFC 3339 change time and, when the
//! record has one, its parent's id.
use vstd::prelude::*;

verus! {

use vstd::utf8::encode_utf8;
use crate::crypto::{sha256, sha256_of};
use crate::hexfmt::{hex_of, to_hex};
use crate::VaultError;

/// The hashed byte string: the UTF-8 bytes of the fields, in order.
pub open spec fn id_preimage(
    author: Seq<char>,
    previous_secret: Seq<char>,
    new_secret: Seq<char>,
    changed_at_rfc3339: Seq<char>,
    parent_id: Option<Seq<char>>,
) -> Seq<u8> {
    encode_utf8(author) + encode_utf8(previous_secret) + encode_utf8(new_secret) + encode_utf8(
        changed_at_rfc3339,
    ) + match parent_id {
        None => Seq::<u8>::empty(),
        Some(p) => encode_utf8(p),
    }
}

/// A record's identifier: a deterministic function of its fields and its
/// parent's id.
pub open spec fn spec_compute_id(
    author: Seq<char>,
    previous_secret: Seq<char>,
    new_secret: Seq<char>,
    changed_at_rfc3339: Seq<char>,
    parent_id: Option<Seq<char>>,
) -> Seq<char> {
    hex_of(sha256_of(id_preimage(author, previous_secret, new_secret, changed_at_rfc3339, parent_id)))
}

/// Computes the identifier of one password-change record.
///
/// Fails only when the digest primitive faults.
pub fn compute_id(
    author: &str,
    previous_secret: &str,
    new_secret: &str,
    changed_at_rfc3339: &str,
    parent_id: Option<&str>,
) -> (r: Result<String, VaultError>)
    ensures
        r matches Ok(id) ==> id@ == spec_compute_id(
            author@,
            previous_secret@,
            new_secret@,
            changed_at_rfc3339@,
            parent_id.deep_view(),
        ),
        r matches Err(e) ==> e == VaultError::CipherError,
{
    let mut m: Vec<u8> = Vec::new();
    m.extend_from_slice(author.as_bytes());
    m.extend_from_slice(previous_secret.as_bytes());
    m.extend_from_slice(new_secret.as_bytes());
    m.extend_from_slice(changed_at_rfc3339.as_bytes());
    match parent_id {
        None => {},
        Some(p) => m.extend_from_slice(p.as_bytes()),
    }
    assert(m@ =~= id_preimage(
        author@,
        previous_secret@,
        new_secret@,
        changed_at_rfc3339@,
        parent_id.deep_view(),
    ));
    match sha256(m.as_slice()) {
        Some(digest) => Ok(to_hex(digest.as_slice())),
        None => Err(VaultError::CipherError),
    }
}

} // verus!

//! Binary record primitives for the on-disk formats.
//!
//! Every value is laid out as a fixed sequence of fields: little-endian
//! integers, length-prefixed byte strings, UTF-8 text and optional text.
//! Each field kind has a specification-level encoder and decoder, executable
//! counterparts proved against them, and a round-trip lemma showing that the
//! decoder recovers exactly what the encoder produced.
use vstd::prelude::*;

verus! {

use vstd::utf8::{encode_utf8, decode_utf8, valid_utf8};
use vstd::slice::{slice_subrange, slice_to_vec};

// ---------------------------------------------------------------------------
// Specification encoders
// ---------------------------------------------------------------------------

pub open spec fn enc_u8(x: u8) -> Seq<u8> {
    seq![x]
}

pub open spec fn enc_u32(x: u32) -> Seq<u8> {
    seq![
        (x & 0xff) as u8,
        ((x >> 8) & 0xff) as u8,
        ((x >> 16) & 0xff) as u8,
        ((x >> 24) & 0xff) as u8,
    ]
}

pub open spec fn enc_u64(x: u64) -> Seq<u8> {
    seq![
        (x & 0xff) as u8,
        ((x >> 8) & 0xff) as u8,
        ((x >> 16) & 0xff) as u8,
        ((x >> 24) & 0xff) as u8,
        ((x >> 32) & 0xff) as u8,
        ((x >> 40) & 0xff) as u8,
        ((x >> 48) & 0xff) as u8,
        ((x >> 56) & 0xff) as u8,
    ]
}

/// A byte string, prefixed with its length as a little-endian `u64`.
pub open spec fn enc_bytes(b: Seq<u8>) -> Seq<u8> {
    enc_u64(b.len() as u64) + b
}

/// Text, stored as its length-prefixed UTF-8 encoding.
pub open spec fn enc_str(s: Seq<char>) -> Seq<u8> {
    enc_bytes(encode_utf8(s))
}

/// Optional text: a presence byte, then the text when present.
pub open spec fn enc_opt_str(o: Option<Seq<char>>) -> Seq<u8> {
    match o {
        None => seq![0u8],
        Some(s) => seq![1u8] + enc_str(s),
    }
}

// ---------------------------------------------------------------------------
// Specification decoders
//
// A decoder takes the whole buffer and a position, and yields the decoded
// value together with the position just past it, or `None` when the bytes at
// that position are not a valid encoding.
// ---------------------------------------------------------------------------

pub open spec fn dec_u8(b: Seq<u8>, pos: int) -> Option<(u8, int)> {
    if 0 <= pos && pos + 1 <= b.len() {
        Some((b[pos], pos + 1))
    } else {
        None
    }
}

pub open spec fn dec_u32(b: Seq<u8>, pos: int) -> Option<(u32, int)> {
    if 0 <= pos && pos + 4 <= b.len() {
        Some(
            (
                (b[pos] as u32) | ((b[pos + 1] as u32) << 8) | ((b[pos + 2] as u32) << 16) | ((b[pos
                    + 3] as u32) << 24),
                pos + 4,
            ),
        )
    } else {
        None
    }
}

pub open spec fn dec_u64(b: Seq<u8>, pos: int) -> Option<(u64, int)> {
    if 0 <= pos && pos + 8 <= b.len() {
        Some(
            (
                (b[pos] as u64) | ((b[pos + 1] as u64) << 8) | ((b[pos + 2] as u64) << 16) | ((b[pos
                    + 3] as u64) << 24) | ((b[pos + 4] as u64) << 32) | ((b[pos + 5] as u64) << 40)
                    | ((b[pos + 6] as u64) << 48) | ((b[pos + 7] as u64) << 56),
                pos + 8,
            ),
        )
    } else {
        None
    }
}

pub open spec fn dec_bytes(b: Seq<u8>, pos: int) -> Option<(Seq<u8>, int)> {
    match dec_u64(b, pos) {
        None => None,
        Some((len, p)) => if p + len <= b.len() {
            Some((b.subrange(p, p + len), p + len))
        } else {
            None
        },
    }
}

pub open spec fn dec_str(b: Seq<u8>, pos: int) -> Option<(Seq<char>, int)> {
    match dec_bytes(b, pos) {
        None => None,
        Some((raw, p)) => if valid_utf8(raw) {
            Some((decode_utf8(raw), p))
        } else {
            None
        },
    }
}

pub open spec fn dec_opt_str(b: Seq<u8>, pos: int) -> Option<(Option<Seq<char>>, int)> {
    match dec_u8(b, pos) {
        None => None,
        Some((tag, p)) => if tag == 0 {
            Some((None, p))
        } else if tag == 1 {
            match dec_str(b, p) {
                None => None,
                Some((s, q)) => Some((Some(s), q)),
            }
        } else {
            None
        },
    }
}

// ---------------------------------------------------------------------------
// Sequence-splitting helper
// ---------------------------------------------------------------------------

/// When a window of a buffer holds a concatenation, each half of the window
/// holds the corresponding half of the concatenation.
pub proof fn lemma_window_split(b: Seq<u8>, pos: int, s1: Seq<u8>, s2: Seq<u8>)
    requires
        0 <= pos,
        pos + s1.len() + s2.len() <= b.len(),
        b.subrange(pos, pos + s1.len() + s2.len()) == s1 + s2,
    ensures
        b.subrange(pos, pos + s1.len()) == s1,
        b.subrange(pos + s1.len(), pos + s1.len() + s2.len()) == s2,
{
    let w = b.subrange(pos, pos + s1.len() + s2.len());
    assert forall|i: int| 0 <= i < s1.len() implies b[pos + i] == s1[i] by {
        assert(w[i] == (s1 + s2)[i]);
    }
    assert forall|i: int| 0 <= i < s2.len() implies b[pos + s1.len() + i] == s2[i] by {
        assert(w[s1.len() + i] == (s1 + s2)[s1.len() + i]);
    }
    assert(b.subrange(pos, pos + s1.len()) =~= s1);
    assert(b.subrange(pos + s1.len(), pos + s1.len() + s2.len()) =~= s2);
}

// ---------------------------------------------------------------------------
// Round-trip lemmas: decoding an encoded window yields the value back
// ---------------------------------------------------------------------------

pub proof fn lemma_dec_enc_u8(b: Seq<u8>, pos: int, x: u8)
    requires
        0 <= pos,
        pos + 1 <= b.len(),
        b.subrange(pos, pos + 1) == enc_u8(x),
    ensures
        dec_u8(b, pos) == Some((x, pos + 1)),
{
    assert(b[pos] == b.subrange(pos, pos + 1)[0]);
}

pub proof fn lemma_dec_enc_u32(b: Seq<u8>, pos: int, x: u32)
    requires
        0 <= pos,
        pos + 4 <= b.len(),
        b.subrange(pos, pos + 4) == enc_u32(x),
    ensures
        dec_u32(b, pos) == Some((x, pos + 4)),
{
    let w = b.subrange(pos, pos + 4);
    assert(b[pos] == w[0] && b[pos + 1] == w[1] && b[pos + 2] == w[2] && b[pos + 3] == w[3]);
    assert((((x & 0xff) as u8) as u32) | (((((x >> 8) & 0xff) as u8) as u32) << 8) | (((((x >> 16)
        & 0xff) as u8) as u32) << 16) | (((((x >> 24) & 0xff) as u8) as u32) << 24) == x)
        by (bit_vector);
}

pub proof fn lemma_dec_enc_u64(b: Seq<u8>, pos: int, x: u64)
    requires
        0 <= pos,
        pos + 8 <= b.len(),
        b.subrange(pos, pos + 8) == enc_u64(x),
    ensures
        dec_u64(b, pos) == Some((x, pos + 8)),
{
    let w = b.subrange(pos, pos + 8);
    assert(b[pos] == w[0] && b[pos + 1] == w[1] && b[pos + 2] == w[2] && b[pos + 3] == w[3] && b[pos
        + 4] == w[4] && b[pos + 5] == w[5] && b[pos + 6] == w[6] && b[pos + 7] == w[7]);
    assert((((x & 0xff) as u8) as u64) | (((((x >> 8) & 0xff) as u8) as u64) << 8) | (((((x >> 16)
        & 0xff) as u8) as u64) << 16) | (((((x >> 24) & 0xff) as u8) as u64) << 24) | (((((x >> 32)
        & 0xff) as u8) as u64) << 32) | (((((x >> 40) & 0xff) as u8) as u64) << 40) | (((((x >> 48)
        & 0xff) as u8) as u64) << 48) | (((((x >> 56) & 0xff) as u8) as u64) << 56) == x)
        by (bit_vector);
}

pub proof fn lemma_dec_enc_bytes(b: Seq<u8>, pos: int, data: Seq<u8>)
    requires
        0 <= pos,
        data.len() <= u64::MAX,
        pos + enc_bytes(data).len() <= b.len(),
        b.subrange(pos, pos + enc_bytes(data).len()) == enc_bytes(data),
    ensures
        dec_bytes(b, pos) == Some((data, pos + enc_bytes(data).len())),
{
    let n = enc_bytes(data).len();
    lemma_window_split(b, pos, enc_u64(data.len() as u64), data);
    lemma_dec_enc_u64(b, pos, data.len() as u64);
    assert(dec_u64(b, pos) == Some((data.len() as u64, pos + 8)));
    assert((data.len() as u64) as int == data.len());
    assert(b.subrange(pos + 8, pos + 8 + data.len()) == data);
}

pub proof fn lemma_dec_enc_str(b: Seq<u8>, pos: int, s: Seq<char>)
    requires
        0 <= pos,
        encode_utf8(s).len() <= u64::MAX,
        pos + enc_str(s).len() <= b.len(),
        b.subrange(pos, pos + enc_str(s).len()) == enc_str(s),
    ensures
        dec_str(b, pos) == Some((s, pos + enc_str(s).len())),
{
    lemma_dec_enc_bytes(b, pos, encode_utf8(s));
    vstd::utf8::encode_utf8_valid_utf8(s);
    vstd::utf8::encode_utf8_decode_utf8(s);
}

pub proof fn lemma_dec_enc_opt_str(b: Seq<u8>, pos: int, o: Option<Seq<char>>)
    requires
        0 <= pos,
        (o matches Some(s) ==> encode_utf8(s).len() <= u64::MAX),
        pos + enc_opt_str(o).len() <= b.len(),
        b.subrange(pos, pos + enc_opt_str(o).len()) == enc_opt_str(o),
    ensures
        dec_opt_str(b, pos) == Some((o, pos + enc_opt_str(o).len())),
{
    match o {
        None => {
            lemma_dec_enc_u8(b, pos, 0);
        },
        Some(s) => {
            lemma_window_split(b, pos, seq![1u8], enc_str(s));
            lemma_dec_enc_u8(b, pos, 1);
            lemma_dec_enc_str(b, pos + 1, s);
        },
    }
}

// ---------------------------------------------------------------------------
// Executable writers, proved against the specification encoders
// ---------------------------------------------------------------------------

pub fn write_u8(out: &mut Vec<u8>, x: u8)
    ensures
        final(out)@ == old(out)@ + enc_u8(x),
{
    out.push(x);
    assert(out@ =~= old(out)@ + enc_u8(x));
}

pub fn write_u32(out: &mut Vec<u8>, x: u32)
    ensures
        final(out)@ == old(out)@ + enc_u32(x),
{
    out.push((x & 0xff) as u8);
    out.push(((x >> 8) & 0xff) as u8);
    out.push(((x >> 16) & 0xff) as u8);
    out.push(((x >> 24) & 0xff) as u8);
    assert(out@ =~= old(out)@ + enc_u32(x));
}

pub fn write_u64(out: &mut Vec<u8>, x: u64)
    ensures
        final(out)@ == old(out)@ + enc_u64(x),
{
    out.push((x & 0xff) as u8);
    out.push(((x >> 8) & 0xff) as u8);
    out.push(((x >> 16) & 0xff) as u8);
    out.push(((x >> 24) & 0xff) as u8);
    out.push(((x >> 32) & 0xff) as u8);
    out.push(((x >> 40) & 0xff) as u8);
    out.push(((x >> 48) & 0xff) as u8);
    out.push(((x >> 56) & 0xff) as u8);
    assert(out@ =~= old(out)@ + enc_u64(x));
}

pub fn write_bytes(out: &mut Vec<u8>, data: &[u8])
    ensures
        final(out)@ == old(out)@ + enc_bytes(data@),
{
    write_u64(out, data.len() as u64);
    out.extend_from_slice(data);
    assert(out@ =~= old(out)@ + enc_bytes(data@));
}

pub fn write_str(out: &mut Vec<u8>, s: &str)
    ensures
        final(out)@ == old(out)@ + enc_str(s@),
        encode_utf8(s@).len() <= u64::MAX,
{
    let bs = s.as_bytes();
    let n: usize = bs.len();
    assert(encode_utf8(s@).len() == n);
    write_bytes(out, bs);
}

pub fn write_opt_str(out: &mut Vec<u8>, o: &Option<String>)
    ensures
        final(out)@ == old(out)@ + enc_opt_str(o.deep_view()),
        (o.deep_view() matches Some(sv) ==> encode_utf8(sv).len() <= u64::MAX),
{
    match o {
        None => {
            write_u8(out, 0);
        },
        Some(s) => {
            write_u8(out, 1);
            write_str(out, s.as_str());
            assert(out@ =~= old(out)@ + enc_opt_str(o.deep_view()));
        },
    }
}

// ---------------------------------------------------------------------------
// Executable readers, proved equal to the specification decoders
// ---------------------------------------------------------------------------

pub fn read_u8(b: &[u8], pos: usize) -> (r: Option<(u8, usize)>)
    ensures
        match r {
            Some((x, p)) => dec_u8(b@, pos as int) == Some((x, p as int)),
            None => dec_u8(b@, pos as int) is None,
        },
{
    if pos < b.len() {
        Some((*vstd::slice::slice_index_get(b, pos), pos + 1))
    } else {
        None
    }
}

pub fn read_u32(b: &[u8], pos: usize) -> (r: Option<(u32, usize)>)
    ensures
        match r {
            Some((x, p)) => dec_u32(b@, pos as int) == Some((x, p as int)),
            None => dec_u32(b@, pos as int) is None,
        },
{
    if b.len() >= 4 && pos <= b.len() - 4 {
        let b0 = *vstd::slice::slice_index_get(b, pos) as u32;
        let b1 = *vstd::slice::slice_index_get(b, pos + 1) as u32;
        let b2 = *vstd::slice::slice_index_get(b, pos + 2) as u32;
        let b3 = *vstd::slice::slice_index_get(b, pos + 3) as u32;
        Some((b0 | (b1 << 8) | (b2 << 16) | (b3 << 24), pos + 4))
    } else {
        None
    }
}

pub fn read_u64(b: &[u8], pos: usize) -> (r: Option<(u64, usize)>)
    ensures
        match r {
            Some((x, p)) => dec_u64(b@, pos as int) == Some((x, p as int)),
            None => dec_u64(b@, pos as int) is None,
        },
{
    if b.len() >= 8 && pos <= b.len() - 8 {
        let b0 = *vstd::slice::slice_index_get(b, pos) as u64;
        let b1 = *vstd::slice::slice_index_get(b, pos + 1) as u64;
        let b2 = *vstd::slice::slice_index_get(b, pos + 2) as u64;
        let b3 = *vstd::slice::slice_index_get(b, pos + 3) as u64;
        let b4 = *vstd::slice::slice_index_get(b, pos + 4) as u64;
        let b5 = *vstd::slice::slice_index_get(b, pos + 5) as u64;
        let b6 = *vstd::slice::slice_index_get(b, pos + 6) as u64;
        let b7 = *vstd::slice::slice_index_get(b, pos + 7) as u64;
        Some(
            (
                b0 | (b1 << 8) | (b2 << 16) | (b3 << 24) | (b4 << 32) | (b5 << 40) | (b6 << 48) | (
                b7 << 56),
                pos + 8,
            ),
        )
    } else {
        None
    }
}

pub fn read_bytes(b: &[u8], pos: usize) -> (r: Option<(Vec<u8>, usize)>)
    ensures
        match r {
            Some((v, p)) => dec_bytes(b@, pos as int) == Some((v@, p as int)),
            None => dec_bytes(b@, pos as int) is None,
        },
{
    match read_u64(b, pos) {
        None => None,
        Some((len, p)) => {
            let remaining = b.len() - p;
            if len <= remaining as u64 {
                let end = p + (len as usize);
                let sl = slice_subrange(b, p, end);
                Some((slice_to_vec(sl), end))
            } else {
                None
            }
        },
    }
}

pub fn read_str(b: &[u8], pos: usize) -> (r: Option<(String, usize)>)
    ensures
        match r {
            Some((s, p)) => dec_str(b@, pos as int) == Some((s@, p as int)),
            None => dec_str(b@, pos as int) is None,
        },
{
    match read_bytes(b, pos) {
        None => None,
        Some((raw, p)) => match string_from_utf8(raw) {
            None => None,
            Some(s) => Some((s, p)),
        },
    }
}

pub fn read_opt_str(b: &[u8], pos: usize) -> (r: Option<(Option<String>, usize)>)
    ensures
        match r {
            Some((o, p)) => dec_opt_str(b@, pos as int) == Some((o.deep_view(), p as int)),
            None => dec_opt_str(b@, pos as int) is None,
        },
{
    match read_u8(b, pos) {
        None => None,
        Some((tag, p)) => {
            if tag == 0 {
                Some((None, p))
            } else if tag == 1 {
                match read_str(b, p) {
                    None => None,
                    Some((s, q)) => Some((Some(s), q)),
                }
            } else {
                None
            }
        },
    }
}

/// A byte sequence below 0x80 throughout is valid UTF-8 and decodes to the
/// character each byte stands for.
pub proof fn lemma_ascii_decode(bs: Seq<u8>)
    requires
        forall|i: int| 0 <= i < bs.len() ==> (#[trigger] bs[i]) < 128,
    ensures
        valid_utf8(bs),
        decode_utf8(bs) == Seq::new(bs.len(), |i: int| bs[i] as char),
{
    let cs = Seq::new(bs.len(), |i: int| bs[i] as char);
    assert forall|i: int| 0 <= i < cs.len() implies (cs[i] as u32) <= 0x7f by {
        assert(bs[i] < 128);
    }
    assert(vstd::utf8::is_ascii_chars(cs));
    vstd::utf8::is_ascii_chars_encode_utf8(cs);
    assert forall|i: int| 0 <= i < cs.len() implies cs[i] as u8 == bs[i] by {
        assert(bs[i] < 128);
    }
    assert(encode_utf8(cs) =~= bs);
    vstd::utf8::encode_utf8_valid_utf8(cs);
    vstd::utf8::encode_utf8_decode_utf8(cs);
}

/// Relies on `String::from_utf8`: it succeeds exactly on valid UTF-8 input
/// and yields the character sequence that the bytes encode.
#[verifier::external_body]
pub(crate) fn string_from_utf8(bytes: Vec<u8>) -> (r: Option<String>)
    ensures
        r matches Some(s) ==> valid_utf8(bytes@) && s@ == decode_utf8(bytes@),
        r is None ==> !valid_utf8(bytes@),
{
    String::from_utf8(bytes).ok()
}

} // verus!

//! Lowercase hexadecimal rendering of byte strings, verified end to end.
use vstd::prelude::*;

verus! {

use vstd::utf8::{
    encode_utf8, decode_utf8, is_ascii_chars, is_ascii_chars_encode_utf8, encode_utf8_valid_utf8,
    encode_utf8_decode_utf8,
};

/// The lowercase hex digit of a value below 16.
pub open spec fn hex_digit(n: u8) -> char {
    if n < 10 {
        (48 + n) as char  // '0'..'9'
    } else {
        (87 + n) as char  // 'a'..'f'
    }
}

/// The lowercase hex rendering: two digits per byte, high nibble first.
pub open spec fn hex_of(bytes: Seq<u8>) -> Seq<char> {
    Seq::new(
        bytes.len() * 2,
        |i: int|
            if i % 2 == 0 {
                hex_digit(bytes[i / 2] >> 4)
            } else {
                hex_digit(bytes[i / 2] & 0x0f)
            },
    )
}

/// The same digits as bytes, before they are assembled into a string.
pub open spec fn hex_bytes(bytes: Seq<u8>) -> Seq<u8> {
    Seq::new(
        bytes.len() * 2,
        |i: int|
            if i % 2 == 0 {
                hex_digit_byte(bytes[i / 2] >> 4)
            } else {
                hex_digit_byte(bytes[i / 2] & 0x0f)
            },
    )
}

pub open spec fn hex_digit_byte(n: u8) -> u8 {
    if n < 10 {
        (48 + n) as u8
    } else {
        (87 + n) as u8
    }
}

proof fn lemma_hex_digit_ascii(n: u8)
    requires
        n < 16,
    ensures
        hex_digit(n) as u32 == hex_digit_byte(n) as u32,
        hex_digit(n) as u32 <= 0x7f,
        (hex_digit(n) as u8) == hex_digit_byte(n),
{
}

/// The digit bytes are exactly the UTF-8 encoding of the digit characters.
proof fn lemma_hex_bytes_encode(bytes: Seq<u8>)
    ensures
        is_ascii_chars(hex_of(bytes)),
        encode_utf8(hex_of(bytes)) == hex_bytes(bytes),
{
    let cs = hex_of(bytes);
    assert forall|i: int| 0 <= i < cs.len() implies (cs[i] as u32) <= 0x7f by {
        let v = bytes[i / 2];
        assert(v >> 4 < 16 && (v & 0x0f) < 16) by (bit_vector);
        let x: u8 = if i % 2 == 0 {
            v >> 4
        } else {
            v & 0x0f
        };
        lemma_hex_digit_ascii(x);
    }
    assert(is_ascii_chars(cs));
    is_ascii_chars_encode_utf8(cs);
    assert forall|i: int| 0 <= i < cs.len() implies cs[i] as u8 == hex_bytes(bytes)[i] by {
        let v = bytes[i / 2];
        assert(v >> 4 < 16 && (v & 0x0f) < 16) by (bit_vector);
        let x: u8 = if i % 2 == 0 {
            v >> 4
        } else {
            v & 0x0f
        };
        lemma_hex_digit_ascii(x);
    }
    assert(encode_utf8(cs) =~= hex_bytes(bytes));
}

/// Renders bytes as lowercase hex.
pub fn to_hex(data: &[u8]) -> (r: String)
    ensures
        r@ == hex_of(data@),
{
    let mut digits: Vec<u8> = Vec::new();
    let n = data.len();
    for i in 0..n
        invariant
            n == data@.len(),
            digits@ =~= hex_bytes(data@).take(2 * i),
    {
        let b = *vstd::slice::slice_index_get(data, i);
        proof {
            assert(b >> 4 < 16 && (b & 0x0f) < 16) by (bit_vector);
        }
        digits.push(hex_digit_byte_exec(b >> 4));
        digits.push(hex_digit_byte_exec(b & 0x0f));
        proof {
            assert(digits@ =~= hex_bytes(data@).take(2 * (i + 1)));
        }
    }
    assert(digits@ =~= hex_bytes(data@));
    proof {
        lemma_hex_bytes_encode(data@);
        encode_utf8_valid_utf8(hex_of(data@));
        encode_utf8_decode_utf8(hex_of(data@));
    }
    match crate::bytefmt::string_from_utf8(digits) {
        Some(s) => s,
        None => vstd::pervasive::unreached(),
    }
}

fn hex_digit_byte_exec(n: u8) -> (r: u8)
    requires
        n < 16,
    ensures
        r == hex_digit_byte(n),
{
    if n < 10 {
        48 + n
    } else {
        87 + n
    }
}

} // verus!

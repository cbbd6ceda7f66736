//! Random password generation over a configurable character set.
//!
//! Characters are drawn uniformly from the ranges the options enable; the
//! randomness comes from the operating system through `rand`. The generator
//! proves nothing about the drawn values themselves, only that every
//! generated character belongs to the enabled set and that the requested
//! length is met.
use vstd::prelude::*;

use rand::Rng;

verus! {

use crate::bytefmt::{lemma_ascii_decode, string_from_utf8};

/// Whether a character may occur in a password generated with these options.
/// The ranges are, by code point: lowercase letters (0x61-0x7a), uppercase
/// letters (0x41-0x5a), digits (0x30-0x39) and the four ASCII punctuation
/// blocks (0x21-0x2f, 0x3a-0x40, 0x5b-0x60, 0x7b-0x7e).
pub open spec fn char_allowed(
    c: char,
    use_lower: bool,
    use_upper: bool,
    use_numbers: bool,
    use_special: bool,
) -> bool {
    let x = c as u32;
    ||| (use_lower && 0x61 <= x <= 0x7a)
    ||| (use_upper && 0x41 <= x <= 0x5a)
    ||| (use_numbers && 0x30 <= x <= 0x39)
    ||| (use_special && (0x21 <= x <= 0x2f || 0x3a <= x <= 0x40 || 0x5b <= x <= 0x60 || 0x7b <= x
        <= 0x7e))
}

pub struct PasswordGenerator {
    pub size: usize,
    pub use_lower: bool,
    pub use_upper: bool,
    pub use_numbers: bool,
    pub use_special: bool,
}

/// Relies on rand's `OsRng` and `Rng::gen_range`: a number below `n` drawn
/// from the operating system's random source. Nothing else is promised of
/// the value. Aborts only when the operating system's random source fails.
#[verifier::external_body]
fn random_below(n: usize) -> (r: usize)
    requires
        n >= 1,
    ensures
        r < n,
{
    rand::rngs::OsRng.gen_range(0..n)
}

impl PasswordGenerator {
    pub fn new(size: usize, use_lower: bool, use_upper: bool, use_numbers: bool, use_special: bool)
        -> (g: PasswordGenerator)
        ensures
            g.size == size,
            g.use_lower == use_lower,
            g.use_upper == use_upper,
            g.use_numbers == use_numbers,
            g.use_special == use_special,
    {
        PasswordGenerator { size, use_lower, use_upper, use_numbers, use_special }
    }

    /// Draws a password of the configured length whose every character comes
    /// from the enabled ranges. For a non-empty length at least one range
    /// must be enabled; a zero-length password needs none and is empty.
    pub fn generate(&mut self) -> (r: String)
        requires
            old(self).size > 0 ==> (old(self).use_lower || old(self).use_upper || old(
                self,
            ).use_numbers || old(self).use_special),
        ensures
            *final(self) == *old(self),
            r@.len() == old(self).size,
            forall|i: int|
                0 <= i < r@.len() ==> char_allowed(
                    #[trigger] r@[i],
                    old(self).use_lower,
                    old(self).use_upper,
                    old(self).use_numbers,
                    old(self).use_special,
                ),
    {
        if self.size == 0 {
            return String::new();
        }
        let mut charset: Vec<u8> = Vec::new();
        if self.use_lower {
            push_range(&mut charset, 0x61, 0x7a, self);
        }
        if self.use_upper {
            push_range(&mut charset, 0x41, 0x5a, self);
        }
        if self.use_numbers {
            push_range(&mut charset, 0x30, 0x39, self);
        }
        if self.use_special {
            push_range(&mut charset, 0x21, 0x2f, self);
            push_range(&mut charset, 0x3a, 0x40, self);
            push_range(&mut charset, 0x5b, 0x60, self);
            push_range(&mut charset, 0x7b, 0x7e, self);
        }
        let mut picked: Vec<u8> = Vec::new();
        let size = self.size;
        for i in 0..size
            invariant
                charset@.len() >= 1,
                picked@.len() == i,
                forall|j: int|
                    0 <= j < charset@.len() ==> (#[trigger] charset@[j]) < 128 && char_allowed(
                        charset@[j] as char,
                        self.use_lower,
                        self.use_upper,
                        self.use_numbers,
                        self.use_special,
                    ),
                forall|j: int|
                    0 <= j < picked@.len() ==> (#[trigger] picked@[j]) < 128 && char_allowed(
                        picked@[j] as char,
                        self.use_lower,
                        self.use_upper,
                        self.use_numbers,
                        self.use_special,
                    ),
                *self == *old(self),
        {
            let k = random_below(charset.len());
            picked.push(charset[k]);
        }
        proof {
            lemma_ascii_decode(picked@);
        }
        match string_from_utf8(picked) {
            Some(s) => s,
            None => vstd::pervasive::unreached(),
        }
    }
}

/// Appends the inclusive code-point range to the character set.
fn push_range(charset: &mut Vec<u8>, lo: u8, hi: u8, g: &PasswordGenerator)
    requires
        lo <= hi,
        hi < 128,
        forall|x: u32|
            lo <= x <= hi ==> #[trigger] char_allowed(
                x as char,
                g.use_lower,
                g.use_upper,
                g.use_numbers,
                g.use_special,
            ),
        forall|j: int|
            0 <= j < old(charset)@.len() ==> (#[trigger] old(charset)@[j]) < 128 && char_allowed(
                old(charset)@[j] as char,
                g.use_lower,
                g.use_upper,
                g.use_numbers,
                g.use_special,
            ),
    ensures
        final(charset)@.len() > old(charset)@.len(),
        forall|j: int|
            0 <= j < final(charset)@.len() ==> (#[trigger] final(charset)@[j]) < 128
                && char_allowed(
                final(charset)@[j] as char,
                g.use_lower,
                g.use_upper,
                g.use_numbers,
                g.use_special,
            ),
{
    let mut b = lo;
    while b < hi
        invariant
            lo <= b <= hi,
            hi < 128,
            charset@.len() == old(charset)@.len() + (b - lo),
            forall|x: u32|
                lo <= x <= hi ==> #[trigger] char_allowed(
                    x as char,
                    g.use_lower,
                    g.use_upper,
                    g.use_numbers,
                    g.use_special,
                ),
            forall|j: int|
                0 <= j < charset@.len() ==> (#[trigger] charset@[j]) < 128 && char_allowed(
                    charset@[j] as char,
                    g.use_lower,
                    g.use_upper,
                    g.use_numbers,
                    g.use_special,
                ),
        decreases hi - b,
    {
        charset.push(b);
        b = b + 1;
    }
    charset.push(hi);
}

} // verus!

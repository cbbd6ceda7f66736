//! Password strength bands for gating vault creation.
use vstd::prelude::*;

verus! {

/// How strong a candidate passphrase is judged to be.
#[derive(Debug, Clone, Copy, PartialEq, Eq, Structural)]
pub enum Quality {
    Weak,
    Low,
    Medium,
    Good,
    High,
}

/// The band for an external scorer's result: a negative score means the
/// scorer rejected the password, which still rates `Low` when anything was
/// typed at all; otherwise the score is banded at 50 and 75.
pub open spec fn spec_quality(score: i64, length: nat) -> Quality {
    if score < 0 {
        if length > 0 {
            Quality::Low
        } else {
            Quality::Weak
        }
    } else if score < 50 {
        Quality::Medium
    } else if score < 75 {
        Quality::Good
    } else {
        Quality::High
    }
}

/// Maps an external strength score and the password's length to a band.
pub fn quality_from_score(score: i64, length: usize) -> (q: Quality)
    ensures
        q == spec_quality(score, length as nat),
{
    if score < 0 {
        if length > 0 {
            Quality::Low
        } else {
            Quality::Weak
        }
    } else if score < 50 {
        Quality::Medium
    } else if score < 75 {
        Quality::Good
    } else {
        Quality::High
    }
}

} // verus!

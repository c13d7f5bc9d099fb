//! Signed interpretation of 256-bit words: the top bit is the
//! two's-complement sign.

use vstd::prelude::*;

use crate::word::Word;

verus! {

/// The sign of a word read as a two's-complement integer.
#[derive(Clone, Copy, Debug, PartialEq, Eq, Structural)]
pub enum Sign {
    Negative,
    Positive,
}

/// The sign of `val`: negative iff the top bit is set.
pub fn i256_sign(val: &Word) -> (r: Sign)
    ensures
        r == Sign::Negative <==> val.as_int() < 0,
        r == Sign::Positive <==> val.as_int() >= 0,
{
    if val.top_bit() {
        Sign::Negative
    } else {
        Sign::Positive
    }
}

/// Compare two words as two's-complement integers. A negative word is
/// smaller than a non-negative one; words of equal sign compare as their
/// unsigned values.
pub fn i256_cmp(a: &Word, b: &Word) -> (r: core::cmp::Ordering)
    ensures
        r == core::cmp::Ordering::Less <==> a.as_int() < b.as_int(),
        r == core::cmp::Ordering::Equal <==> a.as_int() == b.as_int(),
        r == core::cmp::Ordering::Greater <==> a.as_int() > b.as_int(),
{
    let a_neg = a.top_bit();
    let b_neg = b.top_bit();
    if a_neg != b_neg {
        if a_neg {
            core::cmp::Ordering::Less
        } else {
            core::cmp::Ordering::Greater
        }
    } else if a.lt(b) {
        core::cmp::Ordering::Less
    } else if b.lt(a) {
        core::cmp::Ordering::Greater
    } else {
        proof {
            crate::word::lemma_as_nat_injective(*a, *b);
        }
        core::cmp::Ordering::Equal
    }
}

/// Signed comparison is consistent: "less than" read one way is "greater
/// than" read the other, no word is less than itself, and two distinct
/// words always compare strictly one way or the other.
pub proof fn lemma_signed_comparison_consistency(a: Word, b: Word)
    ensures
        (a.as_int() < b.as_int()) <==> (b.as_int() > a.as_int()),
        !(a.as_int() < a.as_int()),
        a != b ==> ((a.as_int() < b.as_int()) <==> !(b.as_int() < a.as_int())),
{
    if a.as_int() == b.as_int() {
        crate::word::lemma_as_nat_injective(a, b);
    }
}

} // verus!

//! Leading-zero runs of a hash remainder, counted inside a window of a given
//! width.

use vstd::prelude::*;
use vstd::arithmetic::power2::{pow2, lemma2_to64, lemma_pow2_unfold};

verus! {

/// The number of bits needed to write `s`: zero for zero, otherwise the
/// one-based position of the highest set bit counted from the low end.
pub open spec fn bit_length(s: u64) -> nat
    decreases s,
{
    if s == 0 {
        0
    } else {
        1 + bit_length(s / 2)
    }
}

/// The number of zero bits in front of the highest set bit of `s`, when `s`
/// is written in a window of `max_width` bits. A zero `s` fills the whole
/// window with zeros.
pub open spec fn leading_zeros_in(s: u64, max_width: u8) -> int {
    max_width - bit_length(s)
}

/// The one-based position, counted from the high end of the window, of the
/// leftmost set bit of `s`: one more than the run of leading zeros. A zero
/// `s` has no set bit and gets the last position of the window.
pub open spec fn leftmost_one_position(s: u64, max_width: u8) -> int {
    if s == 0 {
        max_width as int
    } else {
        leading_zeros_in(s, max_width) + 1
    }
}

/// A value below `2^n` has at most `n` bits.
pub proof fn lemma_bit_length_fits(s: u64, n: nat)
    requires
        s < pow2(n),
    ensures
        bit_length(s) <= n,
    decreases n,
{
    lemma2_to64();
    if s != 0 {
        lemma_pow2_unfold(n);
        lemma_bit_length_fits(s / 2, (n - 1) as nat);
    }
}

/// Counts the zero bits in front of the highest set bit of `s` in a window of
/// `max_width` bits. The value has to fit in the window.
pub fn count_leading_zeros(s: u64, max_width: u8) -> (lz: u8)
    requires
        bit_length(s) <= max_width,
    ensures
        lz == leading_zeros_in(s, max_width),
{
    let mut rest: u64 = s;
    let mut lz: u8 = max_width;
    while rest != 0
        invariant
            bit_length(rest) <= lz,
            lz - bit_length(rest) == max_width - bit_length(s),
        decreases rest,
    {
        assert(rest >> 1 == rest / 2) by (bit_vector);
        lz -= 1;
        rest >>= 1;
    }
    lz
}

/// The one-based position of the leftmost set bit of `s` in a window of
/// `max_width` bits: one more than the run of leading zeros, and the width
/// of the window where `s` is zero.
pub fn position_of_leftmost_one_bit(s: u64, max_width: u8) -> (position: u8)
    requires
        bit_length(s) <= max_width,
    ensures
        position == leftmost_one_position(s, max_width),
{
    if s == 0 {
        max_width
    } else {
        count_leading_zeros(s, max_width) + 1
    }
}

} // verus!

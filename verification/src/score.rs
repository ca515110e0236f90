//! Scores as integers. A score is a 64-bit binary floating-point number;
//! the library holds it as the 64-bit integer that has the same place
//! among integers as the number has in the total order of such numbers.

use vstd::prelude::*;

verus! {

/// The sign bit.
pub const SIGN: u64 = 0x8000_0000_0000_0000;

/// The score of a number, by the bits of the number: a number whose sign
/// bit is set has all its bits turned over, another has its sign bit set.
pub open spec fn key_of_bits(bits: u64) -> u64 {
    if bits & SIGN != 0 {
        !bits
    } else {
        bits | SIGN
    }
}

/// The bits of the number that has the score `key`.
pub open spec fn bits_of_key(key: u64) -> u64 {
    if key & SIGN != 0 {
        key & !SIGN
    } else {
        !key
    }
}

/// The place of a number in the total order, by its bits: the numbers
/// without sign bit in the order of their other bits, and before all of
/// them the numbers with sign bit, in the reverse order of their other
/// bits.
pub open spec fn place_of_bits(bits: u64) -> int {
    if bits & SIGN != 0 {
        -1 - (bits & !SIGN)
    } else {
        (bits & !SIGN) as int
    }
}

/// The score of the number with these bits.
pub fn score_key(bits: u64) -> (key: u64)
    ensures
        key == key_of_bits(bits),
{
    if bits & SIGN != 0 {
        !bits
    } else {
        bits | SIGN
    }
}

/// The bits of the number with this score.
pub fn score_bits(key: u64) -> (bits: u64)
    ensures
        bits == bits_of_key(key),
{
    if key & SIGN != 0 {
        key & !SIGN
    } else {
        !key
    }
}

/// Every number has one score, and every score is that of one number.
pub proof fn lemma_score_round_trip(x: u64)
    ensures
        bits_of_key(key_of_bits(x)) == x,
        key_of_bits(bits_of_key(x)) == x,
{
    assert(x & 0x8000_0000_0000_0000 != 0 ==> (!x) & 0x8000_0000_0000_0000 == 0 && !(!x) == x)
        by (bit_vector);
    assert(x & 0x8000_0000_0000_0000 == 0 ==> (x | 0x8000_0000_0000_0000) & 0x8000_0000_0000_0000
        != 0 && (x | 0x8000_0000_0000_0000) & !0x8000_0000_0000_0000u64 == x) by (bit_vector);
    assert(x & 0x8000_0000_0000_0000 != 0 ==> (x & !0x8000_0000_0000_0000u64)
        & 0x8000_0000_0000_0000 == 0 && (x & !0x8000_0000_0000_0000u64) | 0x8000_0000_0000_0000
        == x) by (bit_vector);
    assert(x & 0x8000_0000_0000_0000 == 0 ==> (!x) & 0x8000_0000_0000_0000 != 0 && !(!x) == x)
        by (bit_vector);
}

/// Scores are ordered as the numbers are.
pub proof fn lemma_score_order(a: u64, b: u64)
    ensures
        key_of_bits(a) < key_of_bits(b) <==> place_of_bits(a) < place_of_bits(b),
{
    assert(a & 0x8000_0000_0000_0000 == 0 && b & 0x8000_0000_0000_0000 == 0 ==> ((a
        | 0x8000_0000_0000_0000) < (b | 0x8000_0000_0000_0000) <==> (a & !0x8000_0000_0000_0000u64)
        < (b & !0x8000_0000_0000_0000u64))) by (bit_vector);
    assert(a & 0x8000_0000_0000_0000 != 0 && b & 0x8000_0000_0000_0000 != 0 ==> ((!a) < (!b) <==> (
    b & !0x8000_0000_0000_0000u64) < (a & !0x8000_0000_0000_0000u64))) by (bit_vector);
    assert(a & 0x8000_0000_0000_0000 != 0 && b & 0x8000_0000_0000_0000 == 0 ==> (!a) < (b
        | 0x8000_0000_0000_0000)) by (bit_vector);
    assert(a & 0x8000_0000_0000_0000 == 0 && b & 0x8000_0000_0000_0000 != 0 ==> !((a
        | 0x8000_0000_0000_0000) < (!b))) by (bit_vector);
}

} // verus!

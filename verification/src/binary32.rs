//! The order of binary32 values, read off their bit patterns.
//!
//! A pattern is the 32 bits of a value: sign, eight bits of exponent,
//! twenty-three of fraction. With the sign bit cleared, patterns rise with
//! the magnitude they stand for, so that numeric comparison comes down to
//! comparing integers once NaN and the sign are seen to.

use vstd::prelude::*;

verus! {

/// The pattern with its sign bit cleared.
pub open spec fn magnitude(bits: u32) -> int {
    if bits >= 0x8000_0000 {
        bits - 0x8000_0000
    } else {
        bits as int
    }
}

/// Whether the sign bit is set.
pub open spec fn negative(bits: u32) -> bool {
    bits >= 0x8000_0000
}

/// Whether the pattern is a NaN: exponent all ones, fraction not zero.
pub open spec fn is_nan(bits: u32) -> bool {
    magnitude(bits) > 0x7F80_0000
}

/// An integer that rises with the numeric value of a non-NaN pattern.
/// Both zeros map to 0.
pub open spec fn value_rank(bits: u32) -> int {
    if negative(bits) {
        -magnitude(bits)
    } else {
        magnitude(bits)
    }
}

/// Numeric `<=` on two patterns: false as soon as one is a NaN.
pub open spec fn value_le(a: u32, b: u32) -> bool {
    !is_nan(a) && !is_nan(b) && value_rank(a) <= value_rank(b)
}

/// Numeric `<` on two patterns: false as soon as one is a NaN.
pub open spec fn value_lt(a: u32, b: u32) -> bool {
    !is_nan(a) && !is_nan(b) && value_rank(a) < value_rank(b)
}

/// The greater of two patterns by value. A NaN gives way to the other
/// pattern, and of two equal values the first stands.
pub open spec fn greater(a: u32, b: u32) -> u32 {
    if is_nan(a) {
        b
    } else if is_nan(b) {
        a
    } else if value_rank(a) < value_rank(b) {
        b
    } else {
        a
    }
}

/// The lesser of two patterns by value. A NaN gives way to the other
/// pattern, and of two equal values the first stands.
pub open spec fn lesser(a: u32, b: u32) -> u32 {
    if is_nan(a) {
        b
    } else if is_nan(b) {
        a
    } else if value_rank(b) < value_rank(a) {
        b
    } else {
        a
    }
}

/// The pattern of the negated value: the sign bit changed.
pub open spec fn negated(bits: u32) -> u32 {
    if bits >= 0x8000_0000 {
        (bits - 0x8000_0000) as u32
    } else {
        (bits + 0x8000_0000) as u32
    }
}

/// The place of a pattern in the IEEE 754 total order: negative NaNs,
/// negative infinity, negative numbers, negative zero, positive zero,
/// positive numbers, positive infinity, positive NaNs.
pub open spec fn total_rank(bits: u32) -> int {
    if negative(bits) {
        -1 - magnitude(bits)
    } else {
        magnitude(bits)
    }
}

/// Computes the total-order rank of a pattern as a signed integer, so that
/// two values compare in the total order as their ranks do.
pub fn order_key(bits: u32) -> (key: i32)
    ensures
        key == total_rank(bits),
{
    if bits >= 0x8000_0000 {
        let m: u32 = bits - 0x8000_0000;
        -1 - (m as i32)
    } else {
        bits as i32
    }
}

/// Whether a pattern is a NaN.
pub fn nan(bits: u32) -> (answer: bool)
    ensures
        answer == is_nan(bits),
{
    let m: u32 = if bits >= 0x8000_0000 {
        bits - 0x8000_0000
    } else {
        bits
    };
    m > 0x7F80_0000
}

/// The value rank of a pattern, as a machine integer.
fn rank(bits: u32) -> (r: i64)
    ensures
        r == value_rank(bits),
{
    if bits >= 0x8000_0000 {
        let m: u32 = bits - 0x8000_0000;
        -(m as i64)
    } else {
        bits as i64
    }
}

/// Numeric `<` on two patterns.
pub fn less(a: u32, b: u32) -> (answer: bool)
    ensures
        answer == value_lt(a, b),
{
    !nan(a) && !nan(b) && rank(a) < rank(b)
}

/// Numeric `<=` on two patterns.
pub fn at_most(a: u32, b: u32) -> (answer: bool)
    ensures
        answer == value_le(a, b),
{
    !nan(a) && !nan(b) && rank(a) <= rank(b)
}

/// The greater of two patterns by value, a NaN giving way.
pub fn greater_of(a: u32, b: u32) -> (r: u32)
    ensures
        r == greater(a, b),
{
    if nan(a) {
        b
    } else if nan(b) {
        a
    } else if rank(a) < rank(b) {
        b
    } else {
        a
    }
}

/// The lesser of two patterns by value, a NaN giving way.
pub fn lesser_of(a: u32, b: u32) -> (r: u32)
    ensures
        r == lesser(a, b),
{
    if nan(a) {
        b
    } else if nan(b) {
        a
    } else if rank(b) < rank(a) {
        b
    } else {
        a
    }
}

/// Negation turns the order round: the greater of two negated patterns is
/// the negated lesser, the lesser the negated greater, and `<=` holds the
/// other way.
pub proof fn lemma_negation_reverses_order(a: u32, b: u32)
    ensures
        greater(negated(a), negated(b)) == negated(lesser(a, b)),
        lesser(negated(a), negated(b)) == negated(greater(a, b)),
        value_le(negated(a), negated(b)) == value_le(b, a),
        value_lt(negated(a), negated(b)) == value_lt(b, a),
        negated(negated(a)) == a,
{
}

/// What the total order puts first is no greater by value: numbers sorted
/// by their total rank are sorted by value.
pub proof fn lemma_total_rank_refines_value(a: u32, b: u32)
    requires
        !is_nan(a),
        !is_nan(b),
        total_rank(a) <= total_rank(b),
    ensures
        value_le(a, b),
{
}

/// No two patterns share a total rank.
pub proof fn lemma_total_rank_injective(a: u32, b: u32)
    requires
        total_rank(a) == total_rank(b),
    ensures
        a == b,
{
}

} // verus!

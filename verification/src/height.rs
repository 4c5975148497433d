//! Elevations and grid coordinates as IEEE-754 binary32 bit patterns.
//!
//! The mesh that leaves this library is a sequence of 32-bit words that a
//! reader interprets as binary32 numbers. Inside the library an elevation is
//! carried as its bit pattern, and the order of two elevations is read off
//! the patterns with integer arithmetic alone.

use vstd::prelude::*;

verus! {

/// The bit that holds the sign of a binary32 value.
pub const SIGN_BIT: u32 = 0x8000_0000;

/// The pattern of positive infinity. A magnitude above it is not a number.
pub const INFINITY: u32 = 0x7F80_0000;

/// The elevation of the sea: the pattern of `0.0`.
pub const SEA_LEVEL: u32 = 0;

/// The elevation that a river carves its bed to: the pattern of `-0.02`,
/// which is what subtracting `0.02` from the sea level gives in binary32.
pub const RIVER_BED: u32 = 0xBCA3_D70A;

/// One more than the largest integer up to which every integer is a
/// binary32 value.
pub const EXACT_INTEGERS: u32 = 0x100_0000;

/// The pattern without its sign bit.
pub open spec fn magnitude(bits: u32) -> int {
    if bits >= SIGN_BIT {
        bits - SIGN_BIT
    } else {
        bits as int
    }
}

/// Whether the pattern stands for a number (finite or infinite) rather than
/// for a NaN.
pub open spec fn is_number(bits: u32) -> bool {
    magnitude(bits) <= INFINITY
}

/// An integer that orders the numbers as their values do: `a` is below `b`
/// as a binary32 value exactly when `rank(a) < rank(b)`. Both zeros have
/// rank 0.
pub open spec fn rank(bits: u32) -> int {
    if bits >= SIGN_BIT {
        -(bits - SIGN_BIT)
    } else {
        bits as int
    }
}

/// The binary32 comparison `a < b`: false as soon as one side is a NaN.
pub open spec fn lower(a: u32, b: u32) -> bool {
    is_number(a) && is_number(b) && rank(a) < rank(b)
}

/// The binary32 comparison `a <= b`: false as soon as one side is a NaN.
pub open spec fn at_most(a: u32, b: u32) -> bool {
    is_number(a) && is_number(b) && rank(a) <= rank(b)
}

/// 2 to the power `e`.
pub open spec fn two_to(e: nat) -> nat
    decreases e,
{
    if e == 0 {
        1
    } else {
        2 * two_to((e - 1) as nat)
    }
}

/// The position of the highest set bit of `x` (0 for `x < 2`).
pub open spec fn exponent(x: nat) -> nat
    decreases x,
{
    if x < 2 {
        0
    } else {
        exponent(x / 2) + 1
    }
}

/// The binary32 pattern of the integer `x`, for `x` below `EXACT_INTEGERS`:
/// zero is all zeros; otherwise the biased exponent sits above the 23
/// fraction bits, which hold `x` without its leading bit, shifted to the top.
pub open spec fn coord_bits(x: nat) -> int {
    if x == 0 {
        0
    } else {
        let e = exponent(x);
        (127 + e) * two_to(23) + (x - two_to(e)) * two_to((23 - e) as nat)
    }
}

/// Tells whether a pattern is a NaN.
pub fn is_nan(bits: u32) -> (r: bool)
    ensures
        r == !is_number(bits),
{
    let m: u32 = if bits >= SIGN_BIT {
        bits - SIGN_BIT
    } else {
        bits
    };
    m > INFINITY
}

/// Computes the rank of a pattern.
pub fn rank_of(bits: u32) -> (r: i64)
    ensures
        r == rank(bits),
{
    if bits >= SIGN_BIT {
        -((bits - SIGN_BIT) as i64)
    } else {
        bits as i64
    }
}

/// Compares two patterns as binary32 values: `a < b`.
pub fn is_lower(a: u32, b: u32) -> (r: bool)
    ensures
        r == lower(a, b),
{
    !is_nan(a) && !is_nan(b) && rank_of(a) < rank_of(b)
}

/// Compares two patterns as binary32 values: `a <= b`.
pub fn is_at_most(a: u32, b: u32) -> (r: bool)
    ensures
        r == at_most(a, b),
{
    !is_nan(a) && !is_nan(b) && rank_of(a) <= rank_of(b)
}

/// The river bed lies below the sea, and both are numbers.
pub proof fn lemma_bed_below_sea()
    ensures
        is_number(SEA_LEVEL),
        is_number(RIVER_BED),
        lower(RIVER_BED, SEA_LEVEL),
{
}

proof fn lemma_two_to_values()
    ensures
        two_to(0) == 1,
        two_to(23) == 0x80_0000,
        two_to(24) == 0x100_0000,
{
    reveal_with_fuel(two_to, 25);
}

/// An integer between two neighbouring powers of two has the lower one's
/// exponent.
proof fn lemma_exponent_between(x: nat, e: nat)
    requires
        two_to(e) <= x < 2 * two_to(e),
    ensures
        exponent(x) == e,
    decreases e,
{
    if e > 0 {
        lemma_exponent_between(x / 2, (e - 1) as nat);
    }
}

/// Computes the binary32 pattern of a grid coordinate. Every integer below
/// `EXACT_INTEGERS` is a binary32 value, so nothing is rounded.
pub fn coordinate_bits(x: u32) -> (bits: u32)
    requires
        x < EXACT_INTEGERS,
    ensures
        bits == coord_bits(x as nat),
        is_number(bits),
{
    if x == 0 {
        return 0;
    }
    let mut e: u32 = 0;
    let mut low: u32 = 1;
    let mut step: u32 = 0x80_0000;
    proof {
        lemma_two_to_values();
    }
    while low <= x / 2
        invariant
            0 < x < EXACT_INTEGERS,
            e <= 23,
            low == two_to(e as nat),
            step == two_to((23 - e) as nat),
            low * step == 0x80_0000,
            1 <= low <= x,
        decreases x - low,
    {
        proof {
            assert(e < 23) by {
                lemma_two_to_values();
            }
            assert(low * step == (2 * low) * (step / 2)) by (nonlinear_arith)
                requires
                    step == 2 * (step / 2),
            ;
        }
        low = low * 2;
        step = step / 2;
        e = e + 1;
    }
    proof {
        lemma_exponent_between(x as nat, e as nat);
        assert((x - low) * step < 0x80_0000) by (nonlinear_arith)
            requires
                low * step == 0x80_0000,
                low <= x < 2 * low,
                step >= 0,
        ;
        assert((x - low) * step >= 0) by (nonlinear_arith)
            requires
                low <= x,
                step >= 0,
        ;
        lemma_two_to_values();
    }
    (127 + e) * 0x80_0000 + (x - low) * step
}

} // verus!

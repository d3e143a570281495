//! Ordering of join costs given as IEEE-754 single-precision bit patterns.
//!
//! A pattern whose sign bit is clear ranks as its magnitude, one whose sign
//! bit is set ranks as the negated magnitude. Both zeros therefore rank as 0,
//! the infinities rank at the two ends, and among patterns that are numbers
//! the rank orders exactly as the numbers themselves compare.
use vstd::prelude::*;

verus! {

/// The sign bit of a single-precision pattern.
pub const COST_SIGN_BIT: u32 = 0x8000_0000;

/// Magnitude of the infinities: all exponent bits set, mantissa clear. A
/// magnitude above it is not a number.
pub const COST_EXPONENT_MASK: u32 = 0x7f80_0000;

/// The pattern without its sign bit.
pub open spec fn cost_magnitude(bits: u32) -> int {
    if bits >= COST_SIGN_BIT {
        bits - COST_SIGN_BIT
    } else {
        bits as int
    }
}

/// Whether the pattern encodes "not a number".
pub open spec fn is_nan_bits(bits: u32) -> bool {
    cost_magnitude(bits) > COST_EXPONENT_MASK
}

/// The integer by which a cost is ordered.
pub open spec fn cost_rank(bits: u32) -> int {
    if bits >= COST_SIGN_BIT {
        -cost_magnitude(bits)
    } else {
        cost_magnitude(bits)
    }
}

/// Turns a cost pattern into its ordering key, or `None` when the pattern is
/// not a number and so cannot be ordered.
pub fn cost_key(bits: u32) -> (key: Option<i64>)
    ensures
        is_nan_bits(bits) <==> key is None,
        !is_nan_bits(bits) ==> key == Some(cost_rank(bits) as i64),
        !is_nan_bits(bits) ==> -(COST_EXPONENT_MASK as int) <= cost_rank(bits) <= COST_EXPONENT_MASK,
{
    let negative: bool = bits >= COST_SIGN_BIT;
    let magnitude: u32 = if negative {
        bits - COST_SIGN_BIT
    } else {
        bits
    };
    if magnitude > COST_EXPONENT_MASK {
        None
    } else if negative {
        Some(-(magnitude as i64))
    } else {
        Some(magnitude as i64)
    }
}

/// Both zeros rank alike, and every other number keeps the sign of its rank.
pub proof fn lemma_cost_rank_zero(bits: u32)
    ensures
        cost_rank(bits) == 0 <==> (bits == 0 || bits == COST_SIGN_BIT),
        cost_rank(bits) < 0 <==> bits > COST_SIGN_BIT,
{
}

/// Among patterns of one sign the rank follows the magnitude: upwards for
/// the non-negative ones, downwards for the negative ones.
pub proof fn lemma_cost_rank_monotone(a: u32, b: u32)
    ensures
        a < COST_SIGN_BIT && b < COST_SIGN_BIT ==> (cost_rank(a) < cost_rank(b) <==> a < b),
        a >= COST_SIGN_BIT && b >= COST_SIGN_BIT ==> (cost_rank(a) < cost_rank(b) <==> a > b),
        a >= COST_SIGN_BIT && b < COST_SIGN_BIT ==> cost_rank(a) <= cost_rank(b),
{
}

} // verus!

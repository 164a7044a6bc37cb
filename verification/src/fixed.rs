//! Fixed-point arithmetic.
//!
//! Cell intensities, positions, directions and rates are integers counted in
//! units of `1/FX_ONE`; hardware-style truncating division stands in for the
//! rounding of real division.

use vstd::prelude::*;

verus! {

/// One whole unit in fixed-point representation.
pub const FX_ONE: i64 = 65536;

/// Truncating (round-toward-zero) division by a positive divisor, the
/// semantics of machine integer division.
pub open spec fn tdiv(a: int, d: int) -> int
    recommends
        d > 0,
{
    if a >= 0 {
        a / d
    } else {
        -((-a) / d)
    }
}

/// Truncating division of a machine integer by `FX_ONE`.
pub fn div_fx(a: i64) -> (r: i64)
    requires
        -0x4000_0000_0000_0000 < a < 0x4000_0000_0000_0000,
    ensures
        r == tdiv(a as int, FX_ONE as int),
{
    if a >= 0 {
        ((a as u64) / (FX_ONE as u64)) as i64
    } else {
        let m: u64 = (-a) as u64;
        -((m / (FX_ONE as u64)) as i64)
    }
}

/// A value clamped into the closed interval `[lo, hi]`.
pub open spec fn spec_clamp(v: int, lo: int, hi: int) -> int
    recommends
        lo <= hi,
{
    if v < lo {
        lo
    } else if v > hi {
        hi
    } else {
        v
    }
}

/// Clamps a machine value into `[lo, hi]`.
pub fn clamp_i64(v: i64, lo: i64, hi: i64) -> (r: i64)
    requires
        lo <= hi,
    ensures
        r == spec_clamp(v as int, lo as int, hi as int),
{
    if v < lo {
        lo
    } else if v > hi {
        hi
    } else {
        v
    }
}

/// Truncation toward zero keeps a quotient within the bound of its dividend:
/// if `|a| <= b * d` then `|tdiv(a, d)| <= b`.
pub proof fn lemma_tdiv_le(a: int, d: int, b: int)
    requires
        d > 0,
        b >= 0,
        -(b * d) <= a <= b * d,
    ensures
        -b <= tdiv(a, d) <= b,
{
    if a >= 0 {
        vstd::arithmetic::div_mod::lemma_div_pos_is_pos(a, d);
        vstd::arithmetic::div_mod::lemma_div_is_ordered(a, b * d, d);
        vstd::arithmetic::div_mod::lemma_div_by_multiple(b, d);
    } else {
        vstd::arithmetic::div_mod::lemma_div_pos_is_pos(-a, d);
        vstd::arithmetic::div_mod::lemma_div_is_ordered(-a, b * d, d);
        vstd::arithmetic::div_mod::lemma_div_by_multiple(b, d);
    }
}

} // verus!

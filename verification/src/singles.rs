//! Bit patterns of singles: what number a pattern stands for.
//!
//! A pattern is a sign, an exponent and a fraction. Nothing here computes with singles; patterns are only
//! compared with the numbers that they are meant to be.

use vstd::prelude::*;

verus! {

/// The distance between a normal single and its neighbours, in units of 2^-50.
pub open spec fn spacing(bits: u32) -> int {
    vstd::arithmetic::power2::pow2((bits % 0x8000_0000 / 0x80_0000 - 100) as nat) as int
}

/// What a normal single of magnitude 2^-27 or more is worth, in units of 2^-50.
pub open spec fn scaled(bits: u32) -> int {
    let magnitude = (0x80_0000 + bits % 0x80_0000) * spacing(bits);
    if bits < 0x8000_0000 {
        magnitude
    } else {
        -magnitude
    }
}

/// Whether a pattern stands for `p / q`, up to the distance between two neighbouring singles.
pub open spec fn is_nearly(bits: u32, p: int, q: int) -> bool {
    -(q * spacing(bits)) <= scaled(bits) * q - p * 0x4_0000_0000_0000 <= q * spacing(bits)
}

/// A pattern with this significand and this spacing is nearly `p / q` if the product says so.
pub proof fn lemma_nearly(bits: u32, p: int, q: int, significand: int, unit: int)
    requires
        significand == 0x80_0000 + bits % 0x80_0000,
        unit == spacing(bits),
        -(q * unit) <= (if bits < 0x8000_0000 {
            significand * unit * q
        } else {
            -(significand * unit * q)
        }) - p * 0x4_0000_0000_0000 <= q * unit,
    ensures
        is_nearly(bits, p, q),
{
    assert((-(significand * unit)) * q == -(significand * unit * q)) by (nonlinear_arith);
}

} // verus!

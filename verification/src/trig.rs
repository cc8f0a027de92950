//! Trigonometry for the spherical conversion.  The transcendental work is
//! done by the outside CORDIC library on Q32.32 fixed-point numbers; its
//! results are named, not restated, and everything around the calls —
//! scale conversion and clamping to the unit range — is verified.
use vstd::prelude::*;
use crate::fx::{
    clamp_i64, clamp_spec, div_trunc, div_trunc_i128, lemma_div_trunc_mag, SCALE,
};

verus! {

/// One unit (1.0) in the Q32.32 format the trigonometry runs in.
pub const Q32_ONE: i64 = 0x1_0000_0000;

/// Largest angle magnitude, in Q32.32 radians, the trigonometry wrappers
/// accept; wrapped angles stay well inside it.
pub const Q32_ANGLE_MAX: i64 = 0x10_0000_0000;

/// The sine, in Q32.32, that the CORDIC library computes for an angle given
/// in Q32.32 radians.
pub uninterp spec fn sin_q32(bits: int) -> int;

/// The cosine, in Q32.32, that the CORDIC library computes for an angle
/// given in Q32.32 radians.
pub uninterp spec fn cos_q32(bits: int) -> int;

/// Relies on cordic::sin over a Q32.32 fixed-point angle: the result is a
/// function of the angle bits alone.
#[verifier::external_body]
fn cordic_sin(bits: i64) -> (r: i64)
    requires
        -Q32_ANGLE_MAX <= bits <= Q32_ANGLE_MAX,
    ensures
        r == sin_q32(bits as int),
{
    cordic::sin(fixed::types::I32F32::from_bits(bits)).to_bits()
}

/// Relies on cordic::cos over a Q32.32 fixed-point angle: the result is a
/// function of the angle bits alone.
#[verifier::external_body]
fn cordic_cos(bits: i64) -> (r: i64)
    requires
        -Q32_ANGLE_MAX <= bits <= Q32_ANGLE_MAX,
    ensures
        r == cos_q32(bits as int),
{
    cordic::cos(fixed::types::I32F32::from_bits(bits)).to_bits()
}

/// An angle on the decimal grid converted to Q32.32 radians.
pub open spec fn angle_to_q32(a: int) -> int {
    div_trunc(a * Q32_ONE, SCALE as int)
}

/// A Q32.32 trigonometric value brought back to the decimal grid and clamped
/// to the unit range.
pub open spec fn unit_from_q32(r: int) -> int {
    clamp_spec(div_trunc(r * SCALE, Q32_ONE as int), -SCALE as int, SCALE as int)
}

/// The sine of a grid angle, as a grid value in `[-SCALE, SCALE]`.
pub open spec fn sin_fx(a: int) -> int {
    unit_from_q32(sin_q32(angle_to_q32(a)))
}

/// The cosine of a grid angle, as a grid value in `[-SCALE, SCALE]`.
pub open spec fn cos_fx(a: int) -> int {
    unit_from_q32(cos_q32(angle_to_q32(a)))
}

/// Largest angle magnitude, on the decimal grid, the unit-trig functions
/// accept (comfortably above one full turn).
pub const ANGLE_FX_MAX: i64 = 70000;

/// Convert a grid angle to Q32.32 radians.
fn angle_bits(a: i64) -> (r: i64)
    requires
        -ANGLE_FX_MAX <= a <= ANGLE_FX_MAX,
    ensures
        r == angle_to_q32(a as int),
        -Q32_ANGLE_MAX <= r <= Q32_ANGLE_MAX,
{
    proof {
        assert(-(ANGLE_FX_MAX as int) * (Q32_ONE as int) <= (a as int) * (Q32_ONE as int)
            <= (ANGLE_FX_MAX as int) * (Q32_ONE as int)) by (nonlinear_arith)
            requires
                -ANGLE_FX_MAX <= a <= ANGLE_FX_MAX,
        {}
        lemma_div_trunc_mag(
            (a as int) * (Q32_ONE as int),
            SCALE as int,
            7 * (Q32_ONE as int),
        );
    }
    let p: i128 = (a as i128) * (Q32_ONE as i128);
    let q: i128 = div_trunc_i128(p, SCALE as i128);
    q as i64
}

/// Bring a Q32.32 trigonometric value back to the decimal grid, clamped to
/// the unit range.
fn unit_value(r: i64) -> (u: i64)
    ensures
        u == unit_from_q32(r as int),
        -SCALE <= u <= SCALE,
{
    proof {
        lemma_div_trunc_mag(
            (r as int) * (SCALE as int),
            Q32_ONE as int,
            0x7fff_ffff_ffff_ffff,
        );
        assert(-0x7fff_ffff_ffff_ffff * (Q32_ONE as int) <= (r as int) * (SCALE as int)
            <= 0x7fff_ffff_ffff_ffff * (Q32_ONE as int)) by (nonlinear_arith)
            requires
                -0x8000_0000_0000_0000 <= r as int <= 0x7fff_ffff_ffff_ffff,
        {}
    }
    let p: i128 = (r as i128) * (SCALE as i128);
    let q: i128 = div_trunc_i128(p, Q32_ONE as i128);
    clamp_i64(q as i64, -SCALE, SCALE)
}

/// The sine of a grid angle, on the grid, within the unit range.
pub fn sin_unit(a: i64) -> (r: i64)
    requires
        -ANGLE_FX_MAX <= a <= ANGLE_FX_MAX,
    ensures
        r == sin_fx(a as int),
        -SCALE <= r <= SCALE,
{
    let bits = angle_bits(a);
    unit_value(cordic_sin(bits))
}

/// The cosine of a grid angle, on the grid, within the unit range.
pub fn cos_unit(a: i64) -> (r: i64)
    requires
        -ANGLE_FX_MAX <= a <= ANGLE_FX_MAX,
    ensures
        r == cos_fx(a as int),
        -SCALE <= r <= SCALE,
{
    let bits = angle_bits(a);
    unit_value(cordic_cos(bits))
}

} // verus!

//! Decimal fixed-point arithmetic: a raw `i64` value `v` stands for the real
//! number `v / SCALE`.  The decimal scale keeps the controller's constants
//! (0.01, 3.13, 0.1, 0.8, 5.0) exactly representable on the grid.
use vstd::prelude::*;
use vstd::arithmetic::div_mod::{
    lemma_fundamental_div_mod, lemma_fundamental_div_mod_converse, lemma_div_is_ordered,
    lemma_div_multiples_vanish, lemma_div_pos_is_pos, lemma_mod_multiples_basic, lemma_mod_bound,
};
use vstd::arithmetic::mul::{lemma_mul_is_commutative, lemma_mul_unary_negation};
use vstd::arithmetic::power2::{pow2, lemma_pow2_adds, lemma_pow2_pos, lemma2_to64, lemma2_to64_rest};

verus! {

/// One unit (1.0) on the fixed-point grid.
pub const SCALE: i64 = 10000;

/// Truncating division of `p` by a positive divisor `d` (rounds toward zero),
/// matching the behaviour of Rust's `/` on signed integers.
pub open spec fn div_trunc(p: int, d: int) -> int
    recommends
        d > 0,
{
    if p >= 0 {
        p / d
    } else {
        -((-p) / d)
    }
}

/// Fixed-point product: the real product of `a / SCALE` and `b / SCALE`,
/// rounded toward zero onto the grid.
pub open spec fn fx_mul_spec(a: int, b: int) -> int {
    div_trunc(a * b, SCALE as int)
}

/// `v` clamped into `[lo, hi]`.
pub open spec fn clamp_spec(v: int, lo: int, hi: int) -> int {
    if v < lo {
        lo
    } else if v > hi {
        hi
    } else {
        v
    }
}

/// Magnitude of the truncating quotient is bounded by the magnitude bound of
/// the dividend: `|p| <= b * d` gives `|div_trunc(p, d)| <= b`.
pub proof fn lemma_div_trunc_mag(p: int, d: int, b: int)
    requires
        d > 0,
        b >= 0,
        -(b * d) <= p <= b * d,
    ensures
        -b <= div_trunc(p, d) <= b,
{
    lemma_mul_is_commutative(b, d);
    lemma_div_multiples_vanish(b, d);
    if p >= 0 {
        lemma_div_pos_is_pos(p, d);
        lemma_div_is_ordered(p, b * d, d);
    } else {
        lemma_div_pos_is_pos(-p, d);
        lemma_div_is_ordered(-p, b * d, d);
    }
}

/// Truncating division undoes an exact multiple: the quotient times the
/// divisor recovers a dividend that is a multiple of the divisor.
pub proof fn lemma_div_trunc_exact(p: int, d: int)
    requires
        d > 0,
        p % d == 0,
    ensures
        div_trunc(p, d) * d == p,
{
    lemma_fundamental_div_mod(p, d);
    if p < 0 {
        lemma_fundamental_div_mod(-p, d);
        lemma_mul_unary_negation(d, p / d);
        assert(p == d * (p / d));
        assert(-p == d * (-(p / d)) + 0);
        lemma_fundamental_div_mod_converse(-p, d, -(p / d), 0);
        lemma_mul_is_commutative(d, p / d);
        lemma_mul_unary_negation(p / d, d);
    } else {
        lemma_mul_is_commutative(d, p / d);
    }
}

/// The rounding error of truncating division is below one divisor step, and
/// rounding never moves the value away from zero.
pub proof fn lemma_div_trunc_err(p: int, d: int)
    requires
        d > 0,
    ensures
        -d < div_trunc(p, d) * d - p < d,
        p >= 0 ==> div_trunc(p, d) * d <= p,
        p <= 0 ==> div_trunc(p, d) * d >= p,
{
    lemma_fundamental_div_mod(p, d);
    lemma_fundamental_div_mod(-p, d);
    lemma_mod_bound(p, d);
    lemma_mod_bound(-p, d);
    lemma_mul_is_commutative(d, p / d);
    lemma_mul_is_commutative(d, (-p) / d);
    lemma_mul_unary_negation(p / d, d);
    lemma_mul_unary_negation((-p) / d, d);
}

/// Truncating quotients keep the sign of the dividend.
pub proof fn lemma_div_trunc_sign(p: int, d: int)
    requires
        d > 0,
    ensures
        p >= 0 ==> div_trunc(p, d) >= 0,
        p <= 0 ==> div_trunc(p, d) <= 0,
{
    if p >= 0 {
        lemma_div_pos_is_pos(p, d);
    } else {
        lemma_div_pos_is_pos(-p, d);
    }
}

/// Truncating division of an `i128` by a positive divisor.
pub fn div_trunc_i128(p: i128, d: i128) -> (r: i128)
    requires
        d > 0,
    ensures
        r == div_trunc(p as int, d as int),
{
    p / d
}

/// Fixed-point multiply with the product formed at `i128` width, so the only
/// rounding is the final division back onto the grid.
pub fn fx_mul(a: i64, b: i64) -> (r: i64)
    requires
        -(0x7fff_ffff_ffff_ffff * (SCALE as int)) <= (a as int) * (b as int)
            <= 0x7fff_ffff_ffff_ffff * (SCALE as int),
    ensures
        r == fx_mul_spec(a as int, b as int),
{
    proof {
        lemma_div_trunc_mag((a as int) * (b as int), SCALE as int, 0x7fff_ffff_ffff_ffff);
    }
    let p: i128 = (a as i128) * (b as i128);
    let q: i128 = div_trunc_i128(p, SCALE as i128);
    q as i64
}

/// `v` clamped into `[lo, hi]`.
pub fn clamp_i64(v: i64, lo: i64, hi: i64) -> (r: i64)
    requires
        lo <= hi,
    ensures
        r == clamp_spec(v as int, lo as int, hi as int),
{
    if v < lo {
        lo
    } else if v > hi {
        hi
    } else {
        v
    }
}

/// Integer square root: the greatest `r` with `r * r <= n`.
pub fn isqrt(n: u128) -> (r: u64)
    ensures
        (r as int) * (r as int) <= n as int,
        n < ((r as int) + 1) * ((r as int) + 1),
{
    let mut r: u64 = 0;
    let mut step: u64 = 0x8000_0000_0000_0000;
    let ghost mut e: nat = 63;
    proof {
        lemma2_to64();
        lemma2_to64_rest();
        assert((n as int) < (0 + 2 * 0x8000_0000_0000_0000int) * (0 + 2
            * 0x8000_0000_0000_0000int)) by {
            assert(n <= u128::MAX);
            assert((u128::MAX as int) + 1 == 0x1_0000_0000_0000_0000int
                * 0x1_0000_0000_0000_0000int) by (nonlinear_arith);
        }
    }
    while step > 0
        invariant
            (r as int) * (r as int) <= n as int,
            step > 0 ==> step == pow2(e) && e <= 63,
            step > 0 ==> (n as int) < ((r as int) + 2 * (step as int)) * ((r as int) + 2 * (
            step as int)),
            step > 0 ==> (r as int) % (2 * (step as int)) == 0,
            step == 0 ==> (n as int) < ((r as int) + 1) * ((r as int) + 1),
        decreases step,
    {
        let ghost s: int = step as int;
        proof {
            lemma_pow2_pos(e);
            // r is a multiple of 2 * step and 2^64 is too, so the candidate
            // r + step stays below 2^64.
            lemma_pow2_adds(e + 1, (63 - e) as nat);
            lemma2_to64();
            assert(pow2(e + 1) == 2 * pow2(e)) by {
                lemma_pow2_adds(1, e);
            }
            assert(pow2(64) == pow2(e + 1) * pow2((63 - e) as nat));
            lemma_mod_multiples_basic(pow2((63 - e) as nat) as int, 2 * s);
            assert(0x1_0000_0000_0000_0000int % (2 * s) == 0);
            lemma_fundamental_div_mod(r as int, 2 * s);
            let k = (r as int) / (2 * s);
            assert(r as int == (2 * s) * k);
            assert((r as int) + 2 * s <= 0x1_0000_0000_0000_0000int) by (nonlinear_arith)
                requires
                    r as int == (2 * s) * k,
                    (r as int) < 0x1_0000_0000_0000_0000int,
                    0x1_0000_0000_0000_0000int % (2 * s) == 0,
                    s >= 1,
            {}
        }
        let c: u64 = r + step;
        proof {
            assert(((c as u128) as int) * ((c as u128) as int) <= 0xffff_ffff_ffff_ffff
                * 0xffff_ffff_ffff_ffff) by (nonlinear_arith)
                requires
                    0 <= (c as u128) as int <= 0xffff_ffff_ffff_ffff,
            {}
        }
        let csq: u128 = (c as u128) * (c as u128);
        if csq <= n {
            proof {
                let k = (r as int) / (2 * s);
                lemma_fundamental_div_mod(r as int, 2 * s);
                assert((c as int) == (2 * k + 1) * s) by (nonlinear_arith)
                    requires
                        r as int == (2 * s) * k,
                        c as int == r as int + s,
                {}
                lemma_mod_multiples_basic(2 * k + 1, s);
            }
            r = c;
        } else {
            proof {
                let k = (r as int) / (2 * s);
                lemma_fundamental_div_mod(r as int, 2 * s);
                assert((r as int) == (2 * k) * s) by (nonlinear_arith)
                    requires
                        r as int == (2 * s) * k,
                {}
                lemma_mod_multiples_basic(2 * k, s);
            }
        }
        proof {
            if e > 0 {
                assert(pow2(e) == 2 * pow2((e - 1) as nat)) by {
                    lemma_pow2_adds(1, (e - 1) as nat);
                    lemma2_to64();
                }
                e = (e - 1) as nat;
            }
        }
        step = step / 2;
    }
    r
}

/// Floor of the square root, as a specification-level recurrence.
pub open spec fn isqrt_spec(n: nat) -> nat
    decreases n,
{
    if n == 0 {
        0
    } else {
        let r = isqrt_spec((n - 1) as nat);
        if (r + 1) * (r + 1) <= n {
            r + 1
        } else {
            r
        }
    }
}

/// `isqrt_spec` is bracketed by the perfect squares around its argument.
pub proof fn lemma_isqrt_spec_bracket(n: nat)
    ensures
        isqrt_spec(n) * isqrt_spec(n) <= n,
        n < (isqrt_spec(n) + 1) * (isqrt_spec(n) + 1),
    decreases n,
{
    reveal_with_fuel(isqrt_spec, 2);
    if n > 0 {
        lemma_isqrt_spec_bracket((n - 1) as nat);
        let r = isqrt_spec((n - 1) as nat);
        if (r + 1) * (r + 1) <= n {
            assert(isqrt_spec(n) == r + 1);
            assert(n <= (r + 1) * (r + 1));
            assert(n < ((r + 1) + 1) * ((r + 1) + 1)) by (nonlinear_arith)
                requires
                    n <= (r + 1) * (r + 1),
                    r >= 0,
            {}
            assert(isqrt_spec(n) * isqrt_spec(n) <= n);
            assert(n < (isqrt_spec(n) + 1) * (isqrt_spec(n) + 1));
        } else {
            assert(isqrt_spec(n) == r);
            assert(isqrt_spec(n) * isqrt_spec(n) <= n);
            assert(n < (isqrt_spec(n) + 1) * (isqrt_spec(n) + 1));
        }
    } else {
        assert(isqrt_spec(n) == 0);
        assert(isqrt_spec(n) * isqrt_spec(n) <= n) by (nonlinear_arith)
            requires
                n == 0,
                isqrt_spec(n) == 0,
        {}
        assert(n < (isqrt_spec(n) + 1) * (isqrt_spec(n) + 1)) by (nonlinear_arith)
            requires
                n == 0,
                isqrt_spec(n) == 0,
        {}
    }
}

/// Any value bracketed by the squares around `n` is the square root of `n`.
pub proof fn lemma_isqrt_unique(n: nat, r: nat)
    requires
        r * r <= n,
        n < (r + 1) * (r + 1),
    ensures
        r == isqrt_spec(n),
{
    lemma_isqrt_spec_bracket(n);
    let q = isqrt_spec(n);
    assert(r == q) by (nonlinear_arith)
        requires
            r * r <= n < (r + 1) * (r + 1),
            q * q <= n < (q + 1) * (q + 1),
            r >= 0,
            q >= 0,
    {}
}

/// Euclidean remainder of `v` modulo a positive `m`: the result is the
/// mathematical `v % m`, always in `[0, m)`.
pub fn mod_euclid(v: i64, m: i64) -> (r: i64)
    requires
        m > 0,
        v > i64::MIN,
    ensures
        r == (v as int) % (m as int),
        0 <= r < m,
{
    proof {
        lemma_mod_bound(v as int, m as int);
    }
    if v >= 0 {
        v % m
    } else {
        let mm = (-v) % m;
        proof {
            lemma_fundamental_div_mod(-v as int, m as int);
            let q = (-(v as int)) / (m as int);
            lemma_mod_bound(-(v as int), m as int);
            if mm == 0 {
                assert((v as int) == (m as int) * (-q) + 0) by (nonlinear_arith)
                    requires
                        -(v as int) == (m as int) * q + (mm as int),
                        mm == 0,
                {}
                lemma_fundamental_div_mod_converse(v as int, m as int, -q, 0);
            } else {
                assert((v as int) == (m as int) * (-q - 1) + ((m as int) - (mm as int)))
                    by (nonlinear_arith)
                    requires
                        -(v as int) == (m as int) * q + (mm as int),
                {}
                lemma_fundamental_div_mod_converse(
                    v as int,
                    m as int,
                    -q - 1,
                    (m as int) - (mm as int),
                );
            }
        }
        if mm == 0 {
            0
        } else {
            m - mm
        }
    }
}

} // verus!

//! Fixed-point plane arithmetic.
//!
//! A plane coordinate is an `i64` holding the real value times [`SCALE`]
//! (so `SCALE` itself is `1.0`).  Multiplication of two fixed-point numbers
//! divides the exact product by `SCALE`, rounding toward minus infinity;
//! [`fx_mul_spec`] is the mathematical statement of that operation and every
//! executable function here is proved equal to it.

use vstd::prelude::*;
use vstd::arithmetic::div_mod::{
    lemma_div_is_ordered, lemma_div_multiples_vanish, lemma_fundamental_div_mod,
    lemma_fundamental_div_mod_converse_div, lemma_mod_division_less_than_divisor,
};

verus! {

/// The fixed-point unit: the representation of the real number `1.0`.
pub const SCALE: i64 = 16777216;

/// Largest magnitude accepted for the first (small) factor of [`fx_mul`].
pub const FX_A_LIM: i64 = 67108864;

/// Largest magnitude accepted for the second (wide) factor of [`fx_mul`].
pub const FX_B_LIM: i64 = 36028797018963968;

/// Largest magnitude a [`fx_mul`] result can reach under the factor limits.
pub const FX_R_LIM: i64 = 144115188075855872;

/// Quotient of the exact product of two fixed-point values by the unit,
/// rounded toward minus infinity: the mathematical meaning of fixed-point
/// multiplication.
pub open spec fn fx_mul_spec(a: int, b: int) -> int {
    (a * b) / (SCALE as int)
}

/// Divide `p` by the positive divisor `q`, rounding toward minus infinity
/// (the rounding of spec-level `/`), entirely in executable code.
pub fn fx_floor_div(p: i128, q: i64) -> (r: i64)
    requires
        1 <= q <= 16777216,
        -4611686018427387904 * (q as int) <= p as int <= 4611686018427387904 * (q as int),
    ensures
        r as int == p as int / q as int,
        -4611686018427387904 <= r <= 4611686018427387904,
{
    proof {
        lemma_div_is_ordered(p as int, 4611686018427387904 * (q as int), q as int);
        lemma_div_is_ordered(-4611686018427387904 * (q as int), p as int, q as int);
        lemma_div_multiples_vanish(4611686018427387904, q as int);
        lemma_div_multiples_vanish(-4611686018427387904, q as int);
        assert(4611686018427387904 * (q as int) == (q as int) * 4611686018427387904) by (nonlinear_arith);
        assert(-4611686018427387904 * (q as int) == (q as int) * -4611686018427387904) by (nonlinear_arith);
    }
    let qq: u128 = q as u128;
    if p >= 0 {
        let m: u128 = p as u128;
        let d: u128 = m / qq;
        proof {
            assert(d as int == p as int / q as int);
        }
        d as i64
    } else {
        let m: u128 = (-p) as u128;
        let d: u128 = m / qq;
        let rem: u128 = m % qq;
        proof {
            lemma_fundamental_div_mod(m as int, q as int);
            if rem == 0 {
                assert(p as int == (q as int) * (-(d as int)) + 0) by (nonlinear_arith)
                    requires m as int == (q as int) * (d as int) + (rem as int),
                        p as int == -(m as int), rem as int == 0;
                lemma_fundamental_div_mod_converse_div(p as int, q as int, -(d as int), 0);
            } else {
                assert(p as int == (q as int) * (-(d as int) - 1) + ((q as int) - (rem as int)))
                    by (nonlinear_arith)
                    requires m as int == (q as int) * (d as int) + (rem as int),
                        p as int == -(m as int);
                lemma_fundamental_div_mod_converse_div(
                    p as int, q as int, -(d as int) - 1, (q as int) - (rem as int));
            }
        }
        if rem == 0 {
            -(d as i64)
        } else {
            -((d as i64) + 1)
        }
    }
}

/// Fixed-point multiplication: computes [`fx_mul_spec`] of the two factors.
/// The first factor must be small (a zoom fraction or an iterate component),
/// while the second may span the whole coordinate range.
pub fn fx_mul(a: i64, b: i64) -> (r: i64)
    requires
        -FX_A_LIM <= a <= FX_A_LIM,
        -FX_B_LIM <= b <= FX_B_LIM,
    ensures
        r as int == fx_mul_spec(a as int, b as int),
        -FX_R_LIM <= r <= FX_R_LIM,
{
    proof {
        assert(-2417851639229258349412352 <= (a as int) * (b as int)
            <= 2417851639229258349412352) by (nonlinear_arith)
            requires -FX_A_LIM <= a <= FX_A_LIM, -FX_B_LIM <= b <= FX_B_LIM;
    }
    let p: i128 = (a as i128) * (b as i128);
    proof {
        assert(4611686018427387904 * (SCALE as int) == 77371252455336267181195264);
        lemma_div_is_ordered(p as int, 2417851639229258349412352, SCALE as int);
        lemma_div_is_ordered(-2417851639229258349412352, p as int, SCALE as int);
        assert(2417851639229258349412352 == (SCALE as int) * 144115188075855872);
        lemma_div_multiples_vanish(144115188075855872, SCALE as int);
        lemma_div_multiples_vanish(-144115188075855872, SCALE as int);
        assert(-2417851639229258349412352 == (SCALE as int) * -144115188075855872);
    }
    fx_floor_div(p, SCALE)
}

/// Scaling by `s1` and then by `s2` agrees with scaling once by the
/// fixed-point product `s1 * s2` up to the rounding the three products
/// discard: the two results differ by at least `-1` and by at most one more
/// than the value's own magnitude in whole units.
pub proof fn lemma_scale_compose(s1: int, s2: int, d: int)
    requires
        0 <= s1 <= SCALE,
        0 <= s2 <= SCALE,
        0 <= d,
    ensures
        -1 <= fx_mul_spec(s2, fx_mul_spec(s1, d)) - fx_mul_spec(fx_mul_spec(s1, s2), d),
        fx_mul_spec(s2, fx_mul_spec(s1, d)) - fx_mul_spec(fx_mul_spec(s1, s2), d)
            <= d / (SCALE as int) + 1,
{
    let s = SCALE as int;
    let a = fx_mul_spec(s1, d);
    let two = fx_mul_spec(s2, a);
    let b = fx_mul_spec(s1, s2);
    let one = fx_mul_spec(b, d);
    let r1 = (s1 * d) % s;
    let r2 = (s2 * a) % s;
    let r3 = (s1 * s2) % s;
    let r4 = (b * d) % s;
    lemma_fundamental_div_mod(s1 * d, s);
    lemma_fundamental_div_mod(s2 * a, s);
    lemma_fundamental_div_mod(s1 * s2, s);
    lemma_fundamental_div_mod(b * d, s);
    lemma_mod_division_less_than_divisor(s1 * d, s);
    lemma_mod_division_less_than_divisor(s2 * a, s);
    lemma_mod_division_less_than_divisor(s1 * s2, s);
    lemma_mod_division_less_than_divisor(b * d, s);
    assert(s * (s2 * a) == s * s * two + s * r2) by (nonlinear_arith)
        requires s2 * a == s * two + r2;
    assert(s * (s2 * a) == s2 * (s * a)) by (nonlinear_arith);
    assert(s2 * (s * a) == s2 * (s1 * d) - s2 * r1) by (nonlinear_arith)
        requires s1 * d == s * a + r1;
    assert(s2 * (s1 * d) == s1 * s2 * d) by (nonlinear_arith);
    assert(s * s * two == s1 * s2 * d - s2 * r1 - s * r2);
    assert(s * (b * d) == s * s * one + s * r4) by (nonlinear_arith)
        requires b * d == s * one + r4;
    assert(s * (b * d) == (s * b) * d) by (nonlinear_arith);
    assert((s * b) * d == s1 * s2 * d - r3 * d) by (nonlinear_arith)
        requires s1 * s2 == s * b + r3;
    assert(s * s * one == s1 * s2 * d - r3 * d - s * r4);
    assert(s * s * (two - one) == s * r4 + r3 * d - s * r2 - s2 * r1) by (nonlinear_arith)
        requires
            s * s * two == s1 * s2 * d - s2 * r1 - s * r2,
            s * s * one == s1 * s2 * d - r3 * d - s * r4;
    assert(0 <= r3 * d) by (nonlinear_arith)
        requires 0 <= r3, 0 <= d;
    assert(s2 * r1 < s * s) by (nonlinear_arith)
        requires 0 <= s2 <= s, 0 <= r1 < s, 0 < s;
    assert(s * r2 < s * s) by (nonlinear_arith)
        requires 0 <= r2 < s, 0 < s;
    assert(two - one >= -1) by (nonlinear_arith)
        requires
            s * s * (two - one) == s * r4 + r3 * d - s * r2 - s2 * r1,
            0 <= s * r4,
            0 <= r3 * d,
            s2 * r1 < s * s,
            s * r2 < s * s,
            0 < s;
    let q = d / s;
    lemma_fundamental_div_mod(d, s);
    lemma_mod_division_less_than_divisor(d, s);
    assert(r3 * d <= s * d) by (nonlinear_arith)
        requires 0 <= r3 < s, 0 <= d;
    assert(s * r4 < s * s) by (nonlinear_arith)
        requires 0 <= r4 < s, 0 < s;
    assert(two - one <= q + 1) by (nonlinear_arith)
        requires
            s * s * (two - one) == s * r4 + r3 * d - s * r2 - s2 * r1,
            s * r4 < s * s,
            r3 * d <= s * d,
            0 <= s * r2,
            0 <= s2 * r1,
            d == s * q + d % s,
            0 <= d % s < s,
            0 < s;
}

} // verus!

//! Fixed-point trigonometry for the formation paths. Angles are carried in
//! milliradians and sine/cosine values in thousandths, using a rational
//! approximation of the sine on a half period extended by symmetry. The
//! engine's flight paths are defined over exactly these functions, so the
//! approximation error changes no stated property: targets computed from
//! them always stay within the ellipse's bounding rectangle.

use vstd::arithmetic::div_mod::{
    lemma_div_is_ordered, lemma_div_multiples_vanish, lemma_fundamental_div_mod,
    lemma_fundamental_div_mod_converse_mod, lemma_mod_bound, lemma_mod_division_less_than_divisor,
};
use vstd::prelude::*;

verus! {

/// Half a turn, in milliradians.
pub const PI_MILLI: i64 = 3142;

/// A full turn, in milliradians.
pub const TWO_PI_MILLI: i64 = 6284;

/// A quarter turn, in milliradians. The angular-speed normalisation of the
/// formation integrator divides by this tuned constant.
pub const HALF_PI_MILLI: i64 = 1571;

/// The fixed-point value of one: sine and cosine range over
/// `[-TRIG_ONE, TRIG_ONE]`.
pub const TRIG_ONE: i64 = 1000;

/// Rational sine approximation on the first half period, in thousandths:
/// `16000 x (p - x) / (5 p^2 - 4 x (p - x))` for `x` in `[0, p]` with `p`
/// one half turn.
pub open spec fn half_wave(x: int) -> int {
    (16000 * x * (PI_MILLI - x)) / (5 * PI_MILLI * PI_MILLI - 4 * x * (PI_MILLI - x))
}

/// Sine of an angle in milliradians, in thousandths: the angle is reduced
/// to one turn and the second half period mirrors the first.
pub open spec fn sin_milli(a: int) -> int {
    let r = a % (TWO_PI_MILLI as int);
    if r <= PI_MILLI {
        half_wave(r)
    } else {
        -half_wave(r - PI_MILLI)
    }
}

/// Cosine of an angle in milliradians, in thousandths: the sine shifted by
/// a quarter turn.
pub open spec fn cos_milli(a: int) -> int {
    sin_milli(a + HALF_PI_MILLI)
}

/// The approximation written over a shared subterm `u = x (p - x)`.
pub proof fn lemma_half_wave_formula(x: int)
    requires
        0 <= x <= PI_MILLI,
    ensures
        half_wave(x) == (16000 * (x * (PI_MILLI - x))) / (5 * PI_MILLI * PI_MILLI - 4 * (x * (
        PI_MILLI - x))),
{
    let p = PI_MILLI as int;
    let u = x * (p - x);
    assert(16000 * x * (p - x) == 16000 * u && 4 * x * (p - x) == 4 * u) by (nonlinear_arith)
        requires
            u == x * (p - x),
    ;
}

/// The half-wave approximation stays within `[0, TRIG_ONE]` on its domain.
pub proof fn lemma_half_wave_range(x: int)
    requires
        0 <= x <= PI_MILLI,
    ensures
        0 <= half_wave(x) <= TRIG_ONE,
{
    let p = PI_MILLI as int;
    let u = x * (p - x);
    lemma_half_wave_formula(x);
    assert(0 <= 4 * u && 4 * u <= p * p) by (nonlinear_arith)
        requires
            0 <= x <= p,
            u == x * (p - x),
    ;
    let num = 16000 * u;
    let den = 5 * p * p - 4 * u;
    assert(half_wave(x) == num / den);
    assert(den >= 4 * p * p);
    assert(num >= 0);
    assert(num <= 1000 * den);
    lemma_div_is_ordered(0, num, den);
    lemma_div_is_ordered(num, 1000 * den, den);
    assert((1000 * den) / den == 1000) by {
        lemma_div_multiples_vanish(1000, den);
        assert(1000 * den == den * 1000) by (nonlinear_arith);
    };
}

/// Sine and cosine stay within `[-TRIG_ONE, TRIG_ONE]`.
pub proof fn lemma_sin_range(a: int)
    ensures
        -TRIG_ONE <= sin_milli(a) <= TRIG_ONE,
{
    let m = TWO_PI_MILLI as int;
    lemma_mod_bound(a, m);
    let r = a % m;
    if r <= PI_MILLI {
        lemma_half_wave_range(r);
    } else {
        lemma_half_wave_range(r - PI_MILLI);
    }
}

pub proof fn lemma_cos_range(a: int)
    ensures
        -TRIG_ONE <= cos_milli(a) <= TRIG_ONE,
{
    lemma_sin_range(a + HALF_PI_MILLI);
}

/// Reduce an angle to `[0, TWO_PI_MILLI)`, agreeing with the mathematical
/// (Euclidean) remainder.
fn norm_angle(a: i64) -> (r: i64)
    requires
        a > i64::MIN,
    ensures
        r == (a as int) % (TWO_PI_MILLI as int),
        0 <= r < TWO_PI_MILLI,
{
    let m: i64 = TWO_PI_MILLI;
    proof {
        lemma_mod_bound(a as int, m as int);
    }
    if a >= 0 {
        proof {
            lemma_fundamental_div_mod(a as int, m as int);
        }
        a % m
    } else {
        let n: i64 = -a;
        let k: i64 = n % m;
        proof {
            lemma_fundamental_div_mod(n as int, m as int);
            lemma_mod_division_less_than_divisor(n as int, m as int);
            let q = n as int / m as int;
            if k == 0 {
                lemma_fundamental_div_mod_converse_mod(a as int, m as int, -q, 0);
            } else {
                assert(a as int == (-q - 1) * (m as int) + ((m - k) as int)) by (nonlinear_arith)
                    requires
                        a as int == -(n as int),
                        n as int == q * (m as int) + (k as int),
                ;
                lemma_fundamental_div_mod_converse_mod(
                    a as int,
                    m as int,
                    -q - 1,
                    (m - k) as int,
                );
            }
        }
        if k == 0 {
            0
        } else {
            m - k
        }
    }
}

/// Fixed-point sine of an angle in milliradians, in thousandths.
pub fn sin_fp(a: i64) -> (r: i64)
    requires
        a > i64::MIN,
    ensures
        r == sin_milli(a as int),
        -TRIG_ONE <= r <= TRIG_ONE,
{
    let n = norm_angle(a);
    proof {
        lemma_sin_range(a as int);
    }
    if n <= PI_MILLI {
        half_wave_fp(n)
    } else {
        -half_wave_fp(n - PI_MILLI)
    }
}

/// Fixed-point cosine of an angle in milliradians, in thousandths.
pub fn cos_fp(a: i64) -> (r: i64)
    requires
        a > i64::MIN,
        a <= i64::MAX - HALF_PI_MILLI,
    ensures
        r == cos_milli(a as int),
        -TRIG_ONE <= r <= TRIG_ONE,
{
    sin_fp(a + HALF_PI_MILLI)
}

/// Evaluate the half-wave approximation.
fn half_wave_fp(x: i64) -> (r: i64)
    requires
        0 <= x <= PI_MILLI,
    ensures
        r == half_wave(x as int),
        0 <= r <= TRIG_ONE,
{
    proof {
        lemma_half_wave_range(x as int);
        lemma_half_wave_formula(x as int);
        assert(0 <= x * (PI_MILLI - x) <= PI_MILLI * PI_MILLI) by (nonlinear_arith)
            requires
                0 <= x <= PI_MILLI,
        ;
    }
    let u: i64 = x * (PI_MILLI - x);
    let num: i64 = 16000 * u;
    let den: i64 = 5 * PI_MILLI * PI_MILLI - 4 * u;
    num / den
}

} // verus!

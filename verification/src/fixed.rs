//! Fixed-point arithmetic core: natural logarithm and exponential function
//! at scale 2^48, with exact specifications of the computed values.
//!
//! `ln` is computed as `k*ln(2) + ln(m)` after normalising the argument to a
//! mantissa `m` in `[1, 2)`, using the series `ln(m) = 2*atanh(z)` with
//! `z = (m-1)/(m+1)`, so `z < 1/3` and the series converges geometrically.
//! `exp` is a Taylor series, used only on the tiny domain `[0, ln(1.0219)]`.

use vstd::arithmetic::div_mod::{
    lemma_div_denominator, lemma_div_is_ordered, lemma_div_is_ordered_by_denominator,
    lemma_div_multiples_vanish, lemma_fundamental_div_mod, lemma_multiply_divide_le,
    lemma_multiply_divide_lt,
};
use vstd::arithmetic::mul::{
    lemma_mul_inequality, lemma_mul_strict_inequality, lemma_mul_upper_bound,
};
use vstd::arithmetic::power2::{lemma_pow2_strictly_increases, pow2};
use vstd::prelude::*;

verus! {

/// The value 1.0 in the 2^48 fixed-point scale used for logarithms and
/// root-Hermite factors.
pub const FIX_ONE: u64 = 281474976710656;

/// The value 1.0 in the 2^32 fixed-point scale used for the noise width
/// sigma.
pub const SIGMA_ONE: u64 = 4294967296;

/// ln(2) at scale 2^48, rounded to the nearest unit.
pub const LN2_FIX: u64 = 195103586505167;

/// ln(2*pi*e) at scale 2^48, rounded to the nearest unit. This is the
/// Gaussian-heuristic constant of the root-Hermite-factor model.
pub const LN_2PI_E_FIX: u64 = 798791381175275;

/// ln(1.0219) at scale 2^48, rounded to the nearest unit; 1.0219 is the
/// best root-Hermite factor of the model (attained at block size 2), so no
/// exponential of a larger value is ever needed.
pub const EXP_ARG_MAX: u64 = 6097772462019;

/// An upper bound on the mantissa logarithm: 25*(FIX_ONE-1)/36, slightly
/// above ln(2) at scale 2^48.
pub const LN_MANT_MAX: u64 = 195468733826843;

/// An upper bound on `ln_fix`: 63*LN2_FIX + LN_MANT_MAX.
pub const LN_FIX_MAX: u64 = 12486994683652364;

/// Number of series terms taken after the first in the atanh series.
pub const LN_TERMS: u64 = 15;

/// Highest factorial denominator used in the exp Taylor series.
pub const EXP_TERMS: u64 = 8;

/// State `(term, partial sum)` of the atanh series after `i` refinement
/// steps: `sum_{j<=i} z^(2j+1)/(2j+1)`, with every product and quotient
/// floored at scale `FIX_ONE` exactly as the executable loop floors it.
pub open spec fn ln_series_state(z: int, z2: int, i: nat) -> (int, int)
    decreases i,
{
    if i == 0 {
        (z, z)
    } else {
        let prev = ln_series_state(z, z2, (i - 1) as nat);
        let t = prev.0 * z2 / (FIX_ONE as int);
        (t, prev.1 + t / (2 * (i as int) + 1))
    }
}

/// The fixed-point logarithm of a mantissa `m` in `[FIX_ONE, 2*FIX_ONE)`,
/// i.e. `ln(m/2^48)` at scale 2^48: `2*atanh(z)` with `z = (m-1)/(m+1)`.
pub open spec fn spec_ln_mant(m: int) -> int {
    let z = (m - FIX_ONE) * (FIX_ONE as int) / (m + FIX_ONE);
    let z2 = z * z / (FIX_ONE as int);
    2 * ln_series_state(z, z2, LN_TERMS as nat).1
}

/// Floor of log2 of `x` (0 for `x < 2`).
pub open spec fn spec_log2(x: int) -> nat
    decreases x,
{
    if x < 2 {
        0
    } else {
        1 + spec_log2(x / 2)
    }
}

/// The fixed-point logarithm of an integer `x >= 1`, at scale 2^48:
/// `k*ln(2) + ln(mantissa)` with `k = floor(log2 x)`.
pub open spec fn spec_ln(x: int) -> int {
    let k = spec_log2(x);
    let m = x * (FIX_ONE as int) / (pow2(k) as int);
    k * LN2_FIX + spec_ln_mant(m)
}

/// State `(term, partial sum)` of the exp Taylor series through the `1/k!`
/// term, with every quotient floored exactly as the executable loop floors
/// it.
pub open spec fn exp_series_state(x: int, k: nat) -> (int, int)
    decreases k,
{
    if k <= 1 {
        (x, FIX_ONE + x)
    } else {
        let prev = exp_series_state(x, (k - 1) as nat);
        let t = prev.0 * x / (k * FIX_ONE);
        (t, prev.1 + t)
    }
}

/// The fixed-point exponential of `x` at scale 2^48, for small `x >= 0`.
pub open spec fn spec_exp(x: int) -> int {
    exp_series_state(x, EXP_TERMS as nat).1
}

/// Fixed-point logarithm of a mantissa in `[1, 2)` at scale 2^48.
pub fn ln_mant(m: u64) -> (r: u64)
    requires
        FIX_ONE <= m < 2 * FIX_ONE,
    ensures
        r as int == spec_ln_mant(m as int),
        r <= LN_MANT_MAX,
{
    let one: u128 = FIX_ONE as u128;
    let mu: u128 = m as u128;
    let z: u128 = ((mu - one) * one) / (mu + one);
    proof {
        lemma_mul_inequality(mu - one as int, one - 1, one as int);
        // 3*z < one: 3*(m-1)*1 < (m+1)*1 at this scale because m < 2
        assert(3 * ((mu - one) * one) < (mu + one) * (one as int)) by (nonlinear_arith)
            requires
                one == FIX_ONE,
                FIX_ONE <= mu < 2 * FIX_ONE,
        ;
        lemma_mul_hoist3(z as int, (mu - one) * one, mu + one as int);
        lemma_multiply_divide_lt(3 * ((mu - one) * one), mu + one as int, one as int);
    }
    assert(3 * z < one);
    proof {
        lemma_mul_upper_bound(z as int, 281474976710655, z as int, 281474976710655);
    }
    let z2: u128 = (z * z) / one;
    proof {
        lemma_fundamental_div_mod((z * z) as int, one as int);
        // 9*z2 < one, from (3z)^2 < one^2
        assert(9 * z2 < one) by (nonlinear_arith)
            requires
                one == FIX_ONE,
                3 * z < one,
                z >= 0,
                z2 >= 0,
                (z * z) == (one as int) * (z2 as int) + (z * z) % (one as int),
                0 <= (z * z) % (one as int),
        ;
    }
    assert(9 * z2 < one);
    let ghost zi: int = z as int;
    let ghost z2i: int = z2 as int;
    let mut t: u128 = z;
    let mut s: u128 = z;
    let mut k: u64 = 1;
    while k <= LN_TERMS
        invariant
            1 <= k <= LN_TERMS + 1,
            one == FIX_ONE,
            3 * z < one,
            9 * z2 < one,
            zi == z,
            z2i == z2,
            t <= z,
            24 * s + t <= 25 * z,
            t as int == ln_series_state(zi, z2i, (k - 1) as nat).0,
            s as int == ln_series_state(zi, z2i, (k - 1) as nat).1,
        decreases LN_TERMS + 1 - k,
    {
        proof {
            lemma_mul_upper_bound(t as int, 281474976710655, z2 as int, 281474976710655);
        }
        let tn: u128 = (t * z2) / one;
        proof {
            lemma_fundamental_div_mod((t * z2) as int, one as int);
            assert(9 * tn <= t) by (nonlinear_arith)
                requires
                    (t * z2) == (one as int) * (tn as int) + (t * z2) % (one as int),
                    0 <= (t * z2) % (one as int),
                    9 * z2 < one,
                    t >= 0,
                    tn >= 0,
                    one > 0,
            ;
            lemma_div_is_ordered_by_denominator(tn as int, 3, 2 * (k as int) + 1);
            lemma_fundamental_div_mod(tn as int, 3);
        }
        t = tn;
        s = s + t / (2 * (k as u128) + 1);
        k = k + 1;
    }
    proof {
        assert(2 * s <= LN_MANT_MAX);
    }
    (2 * s) as u64
}

/// `a/b*3 <= (3a)/b` style hoisting: `c == a/b` implies `3*c <= (3*a)/b`
/// for nonnegative values; used to push a constant into a quotient.
proof fn lemma_mul_hoist3(c: int, a: int, b: int)
    requires
        b > 0,
        a >= 0,
        c == a / b,
    ensures
        3 * c <= (3 * a) / b,
{
    lemma_fundamental_div_mod(a, b);
    lemma_fundamental_div_mod(3 * a, b);
    assert(3 * c <= (3 * a) / b) by (nonlinear_arith)
        requires
            b > 0,
            a == b * (a / b) + a % b,
            0 <= a % b < b,
            3 * a == b * ((3 * a) / b) + (3 * a) % b,
            0 <= (3 * a) % b < b,
            c == a / b,
    ;
}

/// Fixed-point natural logarithm of an integer `x >= 1`, at scale 2^48.
pub fn ln_fix(x: u64) -> (r: u64)
    requires
        x >= 1,
    ensures
        r as int == spec_ln(x as int),
        spec_log2(x as int) * LN2_FIX <= r <= spec_log2(x as int) * LN2_FIX + LN_MANT_MAX,
        r <= LN_FIX_MAX,
{
    let mut y: u64 = x;
    let mut k: u64 = 0;
    let mut p: u64 = 1;
    proof {
        vstd::arithmetic::power2::lemma2_to64();
    }
    while y >= 2
        invariant
            1 <= y,
            1 <= p,
            x >= 1,
            p == pow2(k as nat),
            y == x / p,
            p <= x,
            spec_log2(x as int) == k + spec_log2(y as int),
            k <= 63,
        decreases y,
    {
        proof {
            lemma_fundamental_div_mod(x as int, p as int);
            assert(2 * p <= x) by (nonlinear_arith)
                requires
                    x == p * (x as int / p as int) + x as int % p as int,
                    0 <= x as int % p as int,
                    x as int / p as int >= 2,
                    p >= 1,
            ;
            if k + 1 >= 64 {
                vstd::arithmetic::power2::lemma2_to64_rest();
                if k + 1 > 64 {
                    lemma_pow2_strictly_increases(64, (k + 1) as nat);
                }
                assert(false);
            }
            lemma_div_denominator(x as int, p as int, 2);
            assert(pow2((k + 1) as nat) == 2 * pow2(k as nat)) by {
                vstd::arithmetic::power2::lemma_pow2_unfold((k + 1) as nat);
            }
        }
        y = y / 2;
        k = k + 1;
        p = p * 2;
    }
    proof {
        assert(y == 1);
        lemma_fundamental_div_mod(x as int, p as int);
        assert(x < 2 * p);
        assert(spec_log2(x as int) == k);
    }
    proof {
        lemma_mul_upper_bound(x as int, 0xffff_ffff_ffff_ffff, FIX_ONE as int, 281474976710656);
    }
    let m128: u128 = ((x as u128) * (FIX_ONE as u128)) / (p as u128);
    proof {
        lemma_mul_inequality(p as int, x as int, FIX_ONE as int);
        lemma_div_is_ordered(p as int * FIX_ONE as int, x as int * FIX_ONE as int, p as int);
        lemma_div_multiples_vanish(FIX_ONE as int, p as int);
        assert(m128 >= FIX_ONE);
        lemma_mul_strict_inequality(x as int, 2 * p, FIX_ONE as int);
        assert(x as int * FIX_ONE < p as int * (2 * FIX_ONE)) by (nonlinear_arith)
            requires
                x as int * FIX_ONE < (2 * p as int) * FIX_ONE,
        ;
        lemma_multiply_divide_lt(x as int * FIX_ONE as int, p as int, 2 * FIX_ONE as int);
        assert(m128 < 2 * FIX_ONE);
    }
    let m: u64 = m128 as u64;
    let lm: u64 = ln_mant(m);
    proof {
        lemma_mul_inequality(k as int, 63, LN2_FIX as int);
    }
    k * LN2_FIX + lm
}

/// Fixed-point exponential of `x` at scale 2^48, for `x` at most
/// ln(1.0219); the result lies in `[1, 1.0219]` at that scale.
pub fn exp_fix(x: u64) -> (r: u64)
    requires
        x <= EXP_ARG_MAX,
    ensures
        r as int == spec_exp(x as int),
        FIX_ONE + x <= r <= FIX_ONE + 8 * x,
{
    let one: u128 = FIX_ONE as u128;
    let xu: u128 = x as u128;
    let mut t: u128 = xu;
    let mut s: u128 = one + xu;
    let mut k: u64 = 2;
    while k <= EXP_TERMS
        invariant
            2 <= k <= EXP_TERMS + 1,
            one == FIX_ONE,
            xu == x,
            x <= EXP_ARG_MAX,
            t <= xu,
            one + xu <= s,
            s <= one + (k - 1) * xu,
            t as int == exp_series_state(x as int, (k - 1) as nat).0,
            s as int == exp_series_state(x as int, (k - 1) as nat).1,
        decreases EXP_TERMS + 1 - k,
    {
        let ghost k0: u64 = k;
        let ghost t0: u128 = t;
        let ghost s0: u128 = s;
        proof {
            lemma_mul_upper_bound(t as int, 6097772462019, xu as int, 6097772462019);
            assert(t * xu <= (k as int * one) * t) by (nonlinear_arith)
                requires
                    t >= 0,
                    xu < one,
                    k >= 2,
                    one > 0,
            ;
            assert(k as int * one <= 8 * one);
            lemma_multiply_divide_le(t as int * xu as int, k as int * one as int, t as int);
        }
        t = (t * xu) / ((k as u128) * one);
        proof {
            assert(t <= t0);
            assert(s0 + t <= one + (k0 as int) * xu) by (nonlinear_arith)
                requires
                    s0 <= one + (k0 as int - 1) * xu,
                    t <= xu,
                    k0 >= 2,
                    xu >= 0,
            ;
            lemma_mul_inequality(k0 as int, 8, xu as int);
        }
        s = s + t;
        k = k + 1;
    }
    s as u64
}

} // verus!

//! Root-Hermite-factor model of BKZ lattice reduction, and its inverse
//! search.
//!
//! `delta_0` maps a block size to the root Hermite factor the reduction
//! achieves, at scale 2^48: a calibrated linear interpolation below block
//! size 40, and the Gaussian-heuristic closed form
//! `(beta/(2*pi*e))^(1/(2*beta-2))` from 40 upward, evaluated as
//! `exp((ln beta - ln 2*pi*e)/(2*beta - 2))` in fixed point.
//! `beta_from_delta` finds a block size achieving a target factor by binary
//! search over `[40, 10000]`, with 2 returned for trivially large targets
//! and the sentinel 10000 for unreachable ones.

use crate::fixed::{
    exp_fix, exp_series_state, ln_fix, ln_series_state, spec_exp, spec_ln, spec_log2,
    EXP_ARG_MAX, FIX_ONE, LN2_FIX, LN_2PI_E_FIX, LN_MANT_MAX,
};
use vstd::arithmetic::div_mod::{
    lemma_div_by_self, lemma_div_is_ordered, lemma_fundamental_div_mod,
    lemma_fundamental_div_mod_converse_div, lemma_multiply_divide_le,
};
use vstd::arithmetic::mul::{lemma_mul_inequality, lemma_mul_strict_inequality};
use vstd::arithmetic::power2::{
    lemma2_to64, lemma_pow2_strictly_increases, lemma_pow2_unfold, pow2,
};
use vstd::prelude::*;

verus! {

/// The root Hermite factor at block size 2, i.e. 1.0219 at scale 2^48: the
/// best (largest) factor of the model.
pub const DELTA_BETA2_FIX: u64 = 287639278700619;

/// Slope of the small-block-size linear interpolation, i.e.
/// (1.0219 - 1.0126)/48 at scale 2^48, rounded to the nearest unit.
pub const DELTA_STEP_FIX: u64 = 54535776738;

/// `pow2(spec_log2(x))` brackets `x`: the floor of log2 is exact.
pub proof fn lemma_log2_bounds(x: int)
    requires
        x >= 1,
    ensures
        pow2(spec_log2(x)) <= x < 2 * pow2(spec_log2(x)),
    decreases x,
{
    lemma2_to64();
    if x < 2 {
        assert(spec_log2(x) == 0);
    } else {
        lemma_log2_bounds(x / 2);
        let k = spec_log2(x / 2);
        lemma_pow2_unfold((k + 1) as nat);
        lemma_fundamental_div_mod(x, 2);
    }
}

/// For a block size at least 32 (log2 at least 5) the log-domain argument
/// handed to `exp_fix` never exceeds ln(1.0219): the bound on the fixed
/// logarithm grows linearly in the exponent while the denominator `2*beta-2`
/// doubles with it.
pub proof fn lemma_exp_arg_bound(k: nat)
    requires
        k >= 5,
    ensures
        (k as int) * LN2_FIX + LN_MANT_MAX <= LN_2PI_E_FIX + (2 * pow2(k) - 2) * EXP_ARG_MAX,
    decreases k,
{
    lemma2_to64();
    if k == 5 {
        assert(pow2(5) == 32);
    } else {
        lemma_exp_arg_bound((k - 1) as nat);
        lemma_pow2_unfold(k);
        if k - 1 > 5 {
            lemma_pow2_strictly_increases(5, (k - 1) as nat);
        }
        assert((2 * pow2(k) - 2) * EXP_ARG_MAX >= (2 * pow2((k - 1) as nat) - 2) * EXP_ARG_MAX
            + LN2_FIX) by (nonlinear_arith)
            requires
                pow2(k) == 2 * pow2((k - 1) as nat),
                pow2((k - 1) as nat) >= 32,
                EXP_ARG_MAX == 6097772462019,
                LN2_FIX == 195103586505167,
        ;
        assert((k as int) * LN2_FIX == ((k - 1) as int) * LN2_FIX + LN2_FIX) by (nonlinear_arith);
    }
}

/// The root Hermite factor achieved by BKZ with block size `beta`, at scale
/// 2^48: linear interpolation between the calibration anchors 1.0219 (at 2)
/// and 1.0126 (at 50) below 40, the Gaussian-heuristic closed form from 40
/// upward.
pub open spec fn spec_delta0(beta: int) -> int {
    if beta < 40 {
        DELTA_BETA2_FIX - (beta - 2) * DELTA_STEP_FIX
    } else {
        spec_exp((spec_ln(beta) - LN_2PI_E_FIX) / (2 * beta - 2))
    }
}

/// Root Hermite factor achievable by BKZ reduction with block size `beta`,
/// at scale 2^48; strictly above 1 throughout the modelled range.
pub fn delta_0(beta: usize) -> (r: u64)
    requires
        beta >= 2,
    ensures
        r as int == spec_delta0(beta as int),
        beta <= 10000 ==> FIX_ONE < r,
{
    if beta < 40 {
        let off: u64 = (beta as u64 - 2) * DELTA_STEP_FIX;
        proof {
            lemma_mul_inequality(beta as int - 2, 37, DELTA_STEP_FIX as int);
        }
        DELTA_BETA2_FIX - off
    } else {
        let lb: u64 = ln_fix(beta as u64);
        proof {
            let k = spec_log2(beta as int);
            lemma_log2_bounds(beta as int);
            lemma2_to64();
            if k < 5 {
                if k < 4 {
                    lemma_pow2_strictly_increases(k, 4);
                }
                assert(pow2(k) <= 16);
                assert(false);
            }
            lemma_mul_inequality(5, k as int, LN2_FIX as int);
            lemma_exp_arg_bound(k);
            lemma_mul_inequality(
                2 * pow2(k) - 2,
                2 * (beta as int) - 2,
                EXP_ARG_MAX as int,
            );
        }
        let num: u64 = lb - LN_2PI_E_FIX;
        let den: u128 = 2 * (beta as u128) - 2;
        proof {
            lemma_multiply_divide_le(num as int, den as int, EXP_ARG_MAX as int);
            if beta <= 10000 {
                lemma_div_is_ordered(den as int, num as int, den as int);
                lemma_div_by_self(den as int);
            }
        }
        let xq: u64 = ((num as u128) / den) as u64;
        exp_fix(xq)
    }
}

/// The quality of block size 40, the first point of the closed-form
/// branch, evaluated by unfolding the series on its concrete argument.
proof fn lemma_delta0_at_40()
    ensures
        spec_delta0(40) == 284562763185053,
{
    lemma2_to64();
    reveal_with_fuel(spec_log2, 7);
    assert(spec_log2(40) == 5);
    lemma_fundamental_div_mod_converse_div(11258999068426240int, 32, 351843720888320, 0);
    assert(40 * (FIX_ONE as int) / (pow2(5) as int) == 351843720888320);
    lemma_fundamental_div_mod_converse_div(19807040628566084398385987584int, 633318697598976, 31274997412295, 70368744177664);
    lemma_fundamental_div_mod_converse_div(978125463139058946217167025int, 281474976710656, 3474999712477, 59074995112113);
    assert((351843720888320 - FIX_ONE) * (FIX_ONE as int) / (351843720888320 + FIX_ONE) == 31274997412295);
    assert(31274997412295int * 31274997412295 / (FIX_ONE as int) == 3474999712477);
    assert(ln_series_state(31274997412295, 3474999712477, 0) == (31274997412295int, 31274997412295int));
    lemma_fundamental_div_mod_converse_div(108680607015444044024704715int, 281474976710656, 386111079164, 30888886333131);
    lemma_fundamental_div_mod_converse_div(386111079164int, 3, 128703693054, 2);
    assert(ln_series_state(31274997412295, 3474999712477, 1) == (386111079164int, 31403701105349int));
    lemma_fundamental_div_mod_converse_div(1341735889079084185529228int, 281474976710656, 4766803446, 131959419808652);
    lemma_fundamental_div_mod_converse_div(4766803446int, 5, 953360689, 1);
    assert(ln_series_state(31274997412295, 3474999712477, 2) == (4766803446int, 31404654466038int));
    lemma_fundamental_div_mod_converse_div(16564640604284372795742int, 281474976710656, 58849425, 72973875822942);
    lemma_fundamental_div_mod_converse_div(58849425int, 7, 8407060, 5);
    assert(ln_series_state(31274997412295, 3474999712477, 3) == (58849425int, 31404662873098int));
    lemma_fundamental_div_mod_converse_div(204501734954436775725int, 281474976710656, 726536, 31274983608109);
    lemma_fundamental_div_mod_converse_div(726536int, 9, 80726, 2);
    assert(ln_series_state(31274997412295, 3474999712477, 4) == (726536int, 31404662953824int));
    lemma_fundamental_div_mod_converse_div(2524712391104189672int, 281474976710656, 8969, 163324986316008);
    lemma_fundamental_div_mod_converse_div(8969int, 11, 815, 4);
    assert(ln_series_state(31274997412295, 3474999712477, 5) == (8969int, 31404662954639int));
    lemma_fundamental_div_mod_converse_div(31167272421206213int, 281474976710656, 110, 205024983034053);
    lemma_fundamental_div_mod_converse_div(110int, 13, 8, 6);
    assert(ln_series_state(31274997412295, 3474999712477, 6) == (110int, 31404662954647int));
    lemma_fundamental_div_mod_converse_div(382249968372470int, 281474976710656, 1, 100774991661814);
    lemma_fundamental_div_mod_converse_div(1int, 15, 0, 1);
    assert(ln_series_state(31274997412295, 3474999712477, 7) == (1int, 31404662954647int));
    lemma_fundamental_div_mod_converse_div(3474999712477int, 281474976710656, 0, 3474999712477);
    lemma_fundamental_div_mod_converse_div(0int, 17, 0, 0);
    assert(ln_series_state(31274997412295, 3474999712477, 8) == (0int, 31404662954647int));
    lemma_fundamental_div_mod_converse_div(0int, 281474976710656, 0, 0);
    lemma_fundamental_div_mod_converse_div(0int, 19, 0, 0);
    assert(ln_series_state(31274997412295, 3474999712477, 9) == (0int, 31404662954647int));
    lemma_fundamental_div_mod_converse_div(0int, 281474976710656, 0, 0);
    lemma_fundamental_div_mod_converse_div(0int, 21, 0, 0);
    assert(ln_series_state(31274997412295, 3474999712477, 10) == (0int, 31404662954647int));
    lemma_fundamental_div_mod_converse_div(0int, 281474976710656, 0, 0);
    lemma_fundamental_div_mod_converse_div(0int, 23, 0, 0);
    assert(ln_series_state(31274997412295, 3474999712477, 11) == (0int, 31404662954647int));
    lemma_fundamental_div_mod_converse_div(0int, 281474976710656, 0, 0);
    lemma_fundamental_div_mod_converse_div(0int, 25, 0, 0);
    assert(ln_series_state(31274997412295, 3474999712477, 12) == (0int, 31404662954647int));
    lemma_fundamental_div_mod_converse_div(0int, 281474976710656, 0, 0);
    lemma_fundamental_div_mod_converse_div(0int, 27, 0, 0);
    assert(ln_series_state(31274997412295, 3474999712477, 13) == (0int, 31404662954647int));
    lemma_fundamental_div_mod_converse_div(0int, 281474976710656, 0, 0);
    lemma_fundamental_div_mod_converse_div(0int, 29, 0, 0);
    assert(ln_series_state(31274997412295, 3474999712477, 14) == (0int, 31404662954647int));
    lemma_fundamental_div_mod_converse_div(0int, 281474976710656, 0, 0);
    lemma_fundamental_div_mod_converse_div(0int, 31, 0, 0);
    assert(ln_series_state(31274997412295, 3474999712477, 15) == (0int, 31404662954647int));
    assert(crate::fixed::spec_ln_mant(351843720888320) == 62809325909294);
    assert(spec_ln(40) == 1038327258435129);
    lemma_fundamental_div_mod_converse_div(239535877259854int, 78, 3070972785382, 58);
    assert((spec_ln(40) - LN_2PI_E_FIX) / 78 == 3070972785382);
    assert(exp_series_state(3070972785382, 1) == (3070972785382int, 284545949496038int));
    lemma_fundamental_div_mod_converse_div(9430873848556879432885924int, 562949953421312, 16752597262, 227980489238180);
    assert(exp_series_state(3070972785382, 2) == (16752597262int, 284562702093300int));
    lemma_fundamental_div_mod_converse_div(51446770276067006824084int, 844424930131968, 60925214, 700841808182932);
    assert(exp_series_state(3070972785382, 3) == (60925214int, 284562763018514int));
    lemma_fundamental_div_mod_converse_div(187099674137574421748int, 1125899906842624, 166177, 1005318187693300);
    assert(exp_series_state(3070972785382, 4) == (166177int, 284562763184691int));
    lemma_fundamental_div_mod_converse_div(510325044556424614int, 1407374883553280, 362, 855336710137254);
    assert(exp_series_state(3070972785382, 5) == (362int, 284562763185053int));
    lemma_fundamental_div_mod_converse_div(1111692148308284int, 1688849860263936, 0, 1111692148308284);
    assert(exp_series_state(3070972785382, 6) == (0int, 284562763185053int));
    lemma_fundamental_div_mod_converse_div(0int, 1970324836974592, 0, 0);
    assert(exp_series_state(3070972785382, 7) == (0int, 284562763185053int));
    lemma_fundamental_div_mod_converse_div(0int, 2251799813685248, 0, 0);
    assert(exp_series_state(3070972785382, 8) == (0int, 284562763185053int));
    assert(spec_exp(3070972785382) == 284562763185053);
}

/// Up to and into the branch switch at 40 the quality function is
/// strictly decreasing: a larger block size gives a strictly smaller root
/// Hermite factor. Nothing more is claimed here: past the switch the
/// closed form itself rises slightly from 40 to about 46 before falling,
/// so the model is not monotone there.
pub proof fn lemma_delta0_strictly_decreasing_small(b1: int, b2: int)
    requires
        2 <= b1 < b2 <= 40,
    ensures
        spec_delta0(b2) < spec_delta0(b1),
{
    if b2 == 40 {
        lemma_delta0_at_40();
        if b1 < 39 {
            lemma_mul_strict_inequality(b1 - 2, 37, DELTA_STEP_FIX as int);
        }
    } else {
        lemma_mul_strict_inequality(b1 - 2, b2 - 2, DELTA_STEP_FIX as int);
    }
}

/// Whether block size `beta` reaches the target: its root Hermite factor is
/// at most `target`.
pub open spec fn spec_feasible(beta: int, target: int) -> bool {
    spec_delta0(beta) <= target
}

/// The binary search of `beta_from_delta` on the interval `[lo, hi]`,
/// mirrored step by step.
pub open spec fn spec_bsearch(lo: int, hi: int, target: int) -> int
    decreases hi - lo,
{
    if lo >= hi {
        lo
    } else {
        let mid = (lo + hi) / 2;
        if spec_feasible(mid, target) {
            spec_bsearch(lo, mid, target)
        } else {
            spec_bsearch(mid + 1, hi, target)
        }
    }
}

/// The block size `beta_from_delta` returns for a target factor at scale
/// 2^48.
pub open spec fn spec_beta_from_delta(target: int) -> int {
    if target >= DELTA_BETA2_FIX {
        2
    } else if target <= FIX_ONE {
        10000
    } else {
        spec_bsearch(40, 10000, target)
    }
}

/// Wherever feasibility is monotone in the block size at a target (every
/// block size above a feasible one is feasible too), the two local facts
/// `beta_from_delta` establishes — its result is feasible and the
/// predecessor is not — make the result the least feasible block size in
/// `[40, 10000]`.
pub proof fn lemma_inverse_search_minimal(target: int, r: int)
    requires
        40 <= r <= 10000,
        r > 40 ==> !spec_feasible(r - 1, target),
        forall|b1: int, b2: int|
            #![trigger spec_feasible(b1, target), spec_feasible(b2, target)]
            40 <= b1 <= b2 <= 10000 && spec_feasible(b1, target) ==> spec_feasible(b2, target),
    ensures
        forall|b: int| 40 <= b < r ==> !spec_feasible(b, target),
{
    assert forall|b: int| 40 <= b < r implies !spec_feasible(b, target) by {
        if spec_feasible(b, target) {
            assert(spec_feasible(r - 1, target));
        }
    }
}

/// The block size needed to reach a target root Hermite factor (scale
/// 2^48): 2 when the target is at least 1.0219 (a trivial block size
/// suffices), the sentinel 10000 when the target is at most 1 (no finite
/// block size reaches it), and otherwise a binary search over [40, 10000]
/// whose result is feasible and whose predecessor is not.
pub fn beta_from_delta(target_delta: u64) -> (r: usize)
    ensures
        r as int == spec_beta_from_delta(target_delta as int),
        2 <= r <= 10000,
        target_delta >= DELTA_BETA2_FIX ==> r == 2,
        target_delta <= FIX_ONE ==> r == 10000,
        FIX_ONE < target_delta < DELTA_BETA2_FIX ==> 40 <= r,
        FIX_ONE < target_delta < DELTA_BETA2_FIX && r < 10000 ==> spec_feasible(
            r as int,
            target_delta as int,
        ),
        FIX_ONE < target_delta < DELTA_BETA2_FIX && r > 40 ==> !spec_feasible(
            r as int - 1,
            target_delta as int,
        ),
{
    if target_delta >= DELTA_BETA2_FIX {
        return 2;
    }
    if target_delta <= FIX_ONE {
        return 10000;
    }
    let mut lo: usize = 40;
    let mut hi: usize = 10000;
    while lo < hi
        invariant
            40 <= lo <= hi <= 10000,
            spec_bsearch(lo as int, hi as int, target_delta as int) == spec_bsearch(
                40,
                10000,
                target_delta as int,
            ),
            hi < 10000 ==> spec_feasible(hi as int, target_delta as int),
            lo > 40 ==> !spec_feasible(lo as int - 1, target_delta as int),
        decreases hi - lo,
    {
        let mid: usize = (lo + hi) / 2;
        if delta_0(mid) <= target_delta {
            hi = mid;
        } else {
            lo = mid + 1;
        }
    }
    lo
}

} // verus!

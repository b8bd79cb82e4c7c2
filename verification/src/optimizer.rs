//! Attack optimizer for the primal uSVP attack: the worst-case search over
//! the sample count `m`.
//!
//! For each candidate `m` the lattice has dimension `d = m + n`, and the
//! attack succeeds once the reduction quality reaches
//! `exp((ln sigma + ln(d)/2 - (m/d) ln q)/d)`. Multiplying through by `d^2`
//! keeps everything in integers: the numerator
//! `d*ln(sigma) + d*ln(d)/2 - m*ln(q)` (scale 2^48) is positive exactly
//! when the geometry is feasible, and the attacker's block size for this
//! `m` follows from the inverse Hermite search. The defender must assume
//! the attacker picks the `m` minimising the block size.

use crate::fixed::{exp_fix, ln_fix, spec_exp, spec_ln, EXP_ARG_MAX, LN2_FIX, LN_FIX_MAX};
use crate::hermite::{beta_from_delta, spec_beta_from_delta};
use vstd::prelude::*;

verus! {

/// Largest supported LWE dimension: keeps every intermediate product of
/// the scan (up to `d^2 * ln`-values at scale 2^48) inside 128-bit
/// arithmetic.
pub const N_MAX: usize = 1048576;

/// ln(sigma) at scale 2^48, for sigma given at scale 2^32.
pub open spec fn spec_ln_sigma(sigma: int) -> int {
    spec_ln(sigma) - 32 * LN2_FIX
}

/// First sample count of the scan: `max(1, n/2)`.
pub open spec fn spec_m_start(n: int) -> int {
    if n / 2 >= 1 {
        n / 2
    } else {
        1
    }
}

/// The feasibility numerator for sample count `m`:
/// `d^2` times the log of the root-Hermite ceiling, at scale 2^48.
pub open spec fn spec_geom_num(n: int, q: int, sigma: int, m: int) -> int {
    let d = m + n;
    d * spec_ln_sigma(sigma) + d * spec_ln(d) / 2 - m * spec_ln(q)
}

/// The block size the attack needs at sample count `m`, or `None` when the
/// geometry is infeasible for that `m`.
pub open spec fn spec_candidate_beta(n: int, q: int, sigma: int, m: int) -> Option<int> {
    let d = m + n;
    let num = spec_geom_num(n, q, sigma, m);
    if num <= 0 {
        None
    } else {
        let ldm = num / (d * d);
        if ldm >= EXP_ARG_MAX {
            Some(2)
        } else {
            Some(spec_beta_from_delta(spec_exp(ldm)))
        }
    }
}

/// The scan of `primal_usvp` from sample count `m` up to `8n`, carrying the
/// best `(beta, m, d)` seen so far and keeping the first minimiser.
pub open spec fn spec_scan(n: int, q: int, sigma: int, m: int, best: (int, int, int)) -> (
    int,
    int,
    int,
)
    decreases 8 * n - m,
{
    if m >= 8 * n {
        best
    } else {
        let next = match spec_candidate_beta(n, q, sigma, m) {
            Some(b) => if b < best.0 {
                (b, m, m + n)
            } else {
                best
            },
            None => best,
        };
        spec_scan(n, q, sigma, m + 1, next)
    }
}

/// The full optimizer result: the scan over `[max(1, n/2), 8n)` started
/// from the degenerate `(10000, n, 2n)`.
pub open spec fn spec_primal(n: int, q: int, sigma: int) -> (int, int, int) {
    spec_scan(n, q, sigma, spec_m_start(n), (10000int, n, 2 * n))
}

/// Optimal primal-uSVP attack parameters `(beta, m, d)` for an LWE instance
/// `(n, q, sigma)` with sigma at scale 2^32: the smallest block size over
/// all sample counts in `[max(1, n/2), 8n)`, with the first minimising `m`
/// and `d == m + n`; the degenerate `(10000, n, 2n)` when no sample count
/// is feasible.
pub fn primal_usvp(n: usize, q: u64, sigma: u64) -> (r: (usize, usize, usize))
    requires
        1 <= n <= N_MAX,
        q >= 2,
        sigma >= 1,
    ensures
        (r.0 as int, r.1 as int, r.2 as int) == spec_primal(n as int, q as int, sigma as int),
        r.2 == r.1 + n,
        2 <= r.0 <= 10000,
        forall|mm: int|
            #![trigger spec_candidate_beta(n as int, q as int, sigma as int, mm)]
            spec_m_start(n as int) <= mm < 8 * (n as int) ==> match spec_candidate_beta(
                n as int,
                q as int,
                sigma as int,
                mm,
            ) {
                Some(b) => r.0 as int <= b,
                None => true,
            },
        r.0 == 10000 ==> r.1 == n && r.2 == 2 * n,
        r.0 < 10000 ==> exists|mm: int|
            #![trigger spec_candidate_beta(n as int, q as int, sigma as int, mm)]
            spec_m_start(n as int) <= mm < 8 * (n as int) && spec_candidate_beta(
                n as int,
                q as int,
                sigma as int,
                mm,
            ) == Some(r.0 as int) && r.1 as int == mm,
{
    let mut best_beta: usize = 10000;
    let mut best_m: usize = n;
    let mut best_d: usize = 2 * n;

    let ln_q: u64 = ln_fix(q);
    let ln_sigma: i64 = (ln_fix(sigma) as i64) - 32 * (LN2_FIX as i64);

    let m_start: usize = if n / 2 >= 1 {
        n / 2
    } else {
        1
    };
    let m_end: usize = 8 * n;
    let mut m: usize = m_start;

    while m < m_end
        invariant
            1 <= n <= N_MAX,
            q >= 2,
            sigma >= 1,
            m_start == spec_m_start(n as int),
            m_end == 8 * n,
            m_start <= m <= m_end,
            ln_q as int == spec_ln(q as int),
            ln_q <= LN_FIX_MAX,
            ln_sigma as int == spec_ln_sigma(sigma as int),
            -(LN_FIX_MAX as int) <= ln_sigma as int <= LN_FIX_MAX as int,
            2 <= best_beta <= 10000,
            best_d == best_m + n,
            best_m <= m_end,
            spec_scan(
                n as int,
                q as int,
                sigma as int,
                m as int,
                (best_beta as int, best_m as int, best_d as int),
            ) == spec_primal(n as int, q as int, sigma as int),
            forall|mm: int|
                #![trigger spec_candidate_beta(n as int, q as int, sigma as int, mm)]
                m_start <= mm < m ==> match spec_candidate_beta(
                    n as int,
                    q as int,
                    sigma as int,
                    mm,
                ) {
                    Some(b) => best_beta as int <= b,
                    None => true,
                },
            best_beta == 10000 ==> best_m == n && best_d == 2 * n,
            best_beta < 10000 ==> exists|mm: int|
                #![trigger spec_candidate_beta(n as int, q as int, sigma as int, mm)]
                m_start <= mm < m && spec_candidate_beta(n as int, q as int, sigma as int, mm)
                    == Some(best_beta as int) && best_m as int == mm,
        decreases m_end - m,
    {
        let d: usize = m + n;
        let ln_d: u64 = ln_fix(d as u64);
        proof {
            assert((d as int) * (ln_sigma as int) <= 9437184 * 12486994683652364int
                && (d as int) * (ln_sigma as int) >= -(9437184 * 12486994683652364int))
                by (nonlinear_arith)
                requires
                    0 <= d <= 9437184,
                    -12486994683652364 <= ln_sigma as int <= 12486994683652364,
            ;
            assert((d as int) * (ln_d as int) <= 9437184 * 12486994683652364int)
                by (nonlinear_arith)
                requires
                    0 <= d <= 9437184,
                    0 <= ln_d as int <= 12486994683652364,
            ;
            assert((m as int) * (ln_q as int) <= 9437184 * 12486994683652364int)
                by (nonlinear_arith)
                requires
                    0 <= m <= 9437184,
                    0 <= ln_q as int <= 12486994683652364,
            ;
        }
        let t1: i128 = (d as i128) * (ln_sigma as i128);
        let t2: i128 = (((d as u128) * (ln_d as u128)) / 2) as i128;
        let t3: i128 = (m as i128) * (ln_q as i128);
        let num: i128 = t1 + t2 - t3;
        if num > 0 {
            proof {
                assert(1 <= (d as int) * (d as int) <= 9437184 * 9437184int) by (nonlinear_arith)
                    requires
                        1 <= d <= 9437184,
                ;
            }
            let dd: u128 = (d as u128) * (d as u128);
            let ldm128: u128 = (num as u128) / dd;
            let beta: usize;
            if ldm128 >= EXP_ARG_MAX as u128 {
                beta = 2;
            } else {
                beta = beta_from_delta(exp_fix(ldm128 as u64));
            }
            assert(Some(beta as int) == spec_candidate_beta(
                n as int,
                q as int,
                sigma as int,
                m as int,
            ));
            if beta < best_beta {
                best_beta = beta;
                best_m = m;
                best_d = d;
            }
        } else {
            assert(spec_candidate_beta(n as int, q as int, sigma as int, m as int) is None);
        }
        m = m + 1;
    }
    (best_beta, best_m, best_d)
}

} // verus!

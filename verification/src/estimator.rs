//! Parameter validation and orchestration: the estimator runs the attack
//! optimizer and the cost model and assembles the security-estimate record.

use crate::cost::{bkz_cost, spec_bkz_cost};
use crate::hermite::spec_delta0;
use crate::optimizer::{primal_usvp, spec_candidate_beta, spec_m_start, spec_primal, N_MAX};
use vstd::prelude::*;

verus! {

/// The only failure of the library: a parameter bound was violated at
/// construction or estimation entry.
#[derive(Clone, Copy, Debug, PartialEq, Eq, Structural)]
pub enum EstimateError {
    InvalidArgument,
}

/// LWE problem parameters: dimension `n`, modulus `q`, and noise standard
/// deviation `sigma` at scale 2^32. Validated once at construction and
/// immutable thereafter.
#[derive(Clone, Debug)]
pub struct LweParams {
    pub n: usize,
    pub q: u64,
    pub sigma: u64,
}

impl LweParams {
    /// The validated-parameter invariant: positive dimension within the
    /// supported range, modulus at least 2, positive noise width.
    pub open spec fn wf(self) -> bool {
        1 <= self.n <= N_MAX && self.q >= 2 && self.sigma >= 1
    }

    /// Validates and constructs LWE parameters; fails with
    /// `InvalidArgument` exactly when `n` is zero, `q` is below 2, or
    /// `sigma` is zero.
    pub fn new(n: usize, q: u64, sigma: u64) -> (r: Result<LweParams, EstimateError>)
        requires
            n <= N_MAX,
        ensures
            r is Ok <==> (n >= 1 && q >= 2 && sigma >= 1),
            r matches Ok(p) ==> p.n == n && p.q == q && p.sigma == sigma && p.wf(),
            r matches Err(e) ==> e == EstimateError::InvalidArgument,
    {
        if n == 0 {
            return Err(EstimateError::InvalidArgument);
        }
        if q < 2 {
            return Err(EstimateError::InvalidArgument);
        }
        if sigma == 0 {
            return Err(EstimateError::InvalidArgument);
        }
        Ok(LweParams { n, q, sigma })
    }
}

/// Security estimation result: classical cost in millibits (`None` for
/// infeasible/unbounded), block size, attack label, lattice dimension `d`,
/// sample count `m`, and the original parameters for display.
#[derive(Clone, Debug)]
pub struct SecurityEstimate {
    pub classical_millibits: Option<u64>,
    pub beta: usize,
    pub attack: String,
    pub d: usize,
    pub m: usize,
    pub n: usize,
    pub q: u64,
    pub sigma: u64,
}

/// What `estimate_core` promises of its result for validated input
/// `(n, q, sigma)`: the fields carry the optimizer's `(beta, m, d)` and the
/// cost model's value for that block size, `d == m + n`, the block size is
/// in `[2, 10000]`, and the cost is unbounded (`None`) exactly at the
/// sentinel block size 10000.
pub open spec fn estimate_matches(r: SecurityEstimate, n: int, q: int, sigma: int, sieving: bool) -> bool {
    &&& (r.beta as int, r.m as int, r.d as int) == spec_primal(n, q, sigma)
    &&& r.classical_millibits == spec_bkz_cost(r.beta as int, sieving)
    &&& r.d == r.m + n
    &&& 2 <= r.beta <= 10000
    &&& (r.beta == 10000 <==> r.classical_millibits is None)
    &&& r.attack@ == "primal_usvp"@
    &&& r.n == n
    &&& r.q == q
    &&& r.sigma == sigma
}

/// Runs the attack optimizer and the cost model and assembles the result
/// record; pure and total over validated input. The returned block size is
/// minimal over every feasible sample count of the scan.
pub fn estimate_core(n: usize, q: u64, sigma: u64, sieving: bool) -> (r: SecurityEstimate)
    requires
        1 <= n <= N_MAX,
        q >= 2,
        sigma >= 1,
    ensures
        estimate_matches(r, n as int, q as int, sigma as int, sieving),
        forall|mm: int|
            #![trigger spec_candidate_beta(n as int, q as int, sigma as int, mm)]
            spec_m_start(n as int) <= mm < 8 * (n as int) ==> match spec_candidate_beta(
                n as int,
                q as int,
                sigma as int,
                mm,
            ) {
                Some(b) => r.beta as int <= b,
                None => true,
            },
{
    let (beta, m, d) = primal_usvp(n, q, sigma);
    let bits = bkz_cost(beta, sieving);
    let attack = "primal_usvp".to_string();
    proof {
        vstd::string::to_string_from_display_ensures_for_str("primal_usvp", attack);
    }
    SecurityEstimate { classical_millibits: bits, beta, attack, d, m, n, q, sigma }
}

/// Estimates plain LWE security from raw parameters, validating them
/// first; fails with `InvalidArgument` exactly when `n` is zero, `q` is
/// below 2, or `sigma` is zero.
pub fn estimate_lwe(n: usize, q: u64, sigma: u64, sieving: bool) -> (r: Result<
    SecurityEstimate,
    EstimateError,
>)
    requires
        n <= N_MAX,
    ensures
        r is Ok <==> (n >= 1 && q >= 2 && sigma >= 1),
        r matches Ok(e) ==> estimate_matches(e, n as int, q as int, sigma as int, sieving),
        r matches Err(e) ==> e == EstimateError::InvalidArgument,
{
    if n == 0 {
        return Err(EstimateError::InvalidArgument);
    }
    if q < 2 {
        return Err(EstimateError::InvalidArgument);
    }
    if sigma == 0 {
        return Err(EstimateError::InvalidArgument);
    }
    Ok(estimate_core(n, q, sigma, sieving))
}

/// Estimates security from an already validated `LweParams` value.
pub fn estimate(params: &LweParams, sieving: bool) -> (r: SecurityEstimate)
    requires
        params.wf(),
    ensures
        estimate_matches(r, params.n as int, params.q as int, params.sigma as int, sieving),
{
    estimate_core(params.n, params.q, params.sigma, sieving)
}

/// Root Hermite factor for a BKZ block size, at scale 2^48.
pub fn get_delta(beta: usize) -> (r: u64)
    requires
        beta >= 2,
    ensures
        r as int == spec_delta0(beta as int),
{
    crate::hermite::delta_0(beta)
}

/// BKZ block size needed for a target root Hermite factor at scale 2^48.
pub fn get_beta(target_delta: u64) -> (r: usize)
    ensures
        r as int == crate::hermite::spec_beta_from_delta(target_delta as int),
        2 <= r <= 10000,
{
    crate::hermite::beta_from_delta(target_delta)
}

/// BKZ cost in millibits; `None` for the infeasible sentinel range.
pub fn get_bkz_cost(beta: usize, sieving: bool) -> (r: Option<u64>)
    ensures
        r == spec_bkz_cost(beta as int, sieving),
        r is None <==> beta >= 10000,
{
    bkz_cost(beta, sieving)
}

} // verus!

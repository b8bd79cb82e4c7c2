use cryptoparam::{
    beta_from_delta, delta_0, estimate, estimate_core, estimate_lwe, get_beta, get_bkz_cost,
    get_delta, EstimateError, LweParams, FIX_ONE, SIGMA_ONE,
};

fn bits_of(millibits: Option<u64>) -> f64 {
    match millibits {
        Some(mb) => mb as f64 / 1000.0,
        None => f64::INFINITY,
    }
}

fn delta_as_float(beta: usize) -> f64 {
    delta_0(beta) as f64 / FIX_ONE as f64
}

#[test]
fn test_delta_values() {
    assert!((delta_as_float(50) - 1.011).abs() < 0.002);
    assert!((delta_as_float(100) - 1.009).abs() < 0.002);
    assert!((delta_as_float(200) - 1.0062).abs() < 0.002);
}

#[test]
fn test_monotonicity() {
    let mut prev: f64 = 0.0;
    for n in [64usize, 128, 256, 512] {
        let r = estimate_core(n, 12289, 8 * SIGMA_ONE, false);
        assert!(bits_of(r.classical_millibits) > prev || r.beta >= 10000);
        prev = bits_of(r.classical_millibits);
    }
}

#[test]
fn test_sigma_sensitivity() {
    let mut prev: f64 = f64::INFINITY;
    for sigma in [2u64, 4, 8, 16] {
        let r = estimate_core(256, 7681, sigma * SIGMA_ONE, false);
        assert!(bits_of(r.classical_millibits) < prev || prev == f64::INFINITY);
        prev = bits_of(r.classical_millibits);
    }
}

#[test]
fn test_matches_python() {
    // These should match the reference outputs exactly
    let r = estimate_core(256, 7681, 8 * SIGMA_ONE, false);
    assert_eq!(r.beta, 250);
    assert!((bits_of(r.classical_millibits) - 73.0).abs() < 1.0);

    let r = estimate_core(512, 12289, 10 * SIGMA_ONE, false);
    assert_eq!(r.beta, 533);
    assert!((bits_of(r.classical_millibits) - 155.6).abs() < 1.0);
}

#[test]
fn quality_strictly_decreasing_outside_branch_switch() {
    // Strict decrease everywhere except the window 41..=45, where the
    // closed form itself rises before falling again.
    for b in 3usize..=10000 {
        if (41..=45).contains(&b) {
            assert!(delta_0(b) >= delta_0(b - 1));
        } else {
            assert!(delta_0(b) < delta_0(b - 1));
        }
    }
}

#[test]
fn block_size_round_trip() {
    // Inverting the quality of a block size returns that block size on the
    // whole closed-form range past the non-monotone window.
    for b in 47usize..=10000 {
        assert_eq!(beta_from_delta(delta_0(b)), b);
    }
}

#[test]
fn inverse_search_edges() {
    let a = cryptoparam::hermite::DELTA_BETA2_FIX;
    assert_eq!(get_beta(a), 2);
    assert_eq!(get_beta(a + 12345), 2);
    assert_eq!(get_beta(FIX_ONE), 10000);
    assert_eq!(get_beta(FIX_ONE - 1), 10000);
    assert_eq!(get_beta(FIX_ONE + 1), 10000);
    assert_eq!(get_beta(a - 1), 40);
}

#[test]
fn cost_model_values() {
    assert_eq!(get_bkz_cost(0, false), Some(0));
    assert_eq!(get_bkz_cost(1, true), Some(0));
    assert_eq!(get_bkz_cost(2, false), Some(584));
    assert_eq!(get_bkz_cost(2, true), Some(530));
    assert_eq!(get_bkz_cost(250, false), Some(73000));
    assert_eq!(get_bkz_cost(250, true), Some(66250));
    assert_eq!(get_bkz_cost(10000, false), None);
    assert_eq!(get_bkz_cost(10000, true), None);
    assert_eq!(get_bkz_cost(12345, false), None);
}

#[test]
fn invalid_arguments_rejected() {
    assert_eq!(
        LweParams::new(0, 7681, 8 * SIGMA_ONE).unwrap_err(),
        EstimateError::InvalidArgument
    );
    assert_eq!(
        LweParams::new(256, 1, 8 * SIGMA_ONE).unwrap_err(),
        EstimateError::InvalidArgument
    );
    assert_eq!(
        LweParams::new(256, 7681, 0).unwrap_err(),
        EstimateError::InvalidArgument
    );
    assert!(estimate_lwe(0, 7681, 8 * SIGMA_ONE, false).is_err());
    assert!(estimate_lwe(256, 1, 8 * SIGMA_ONE, false).is_err());
    assert!(estimate_lwe(256, 7681, 0, false).is_err());
}

#[test]
fn valid_construction_and_estimate() {
    let p = LweParams::new(256, 7681, 8 * SIGMA_ONE).unwrap();
    assert_eq!(p.n, 256);
    assert_eq!(p.q, 7681);
    assert_eq!(p.sigma, 8 * SIGMA_ONE);

    let r = estimate(&p, false);
    assert_eq!(r.beta, 250);
    assert_eq!(r.d, r.m + r.n);
    assert_eq!(r.attack, "primal_usvp");
    assert_eq!(r.n, 256);
    assert_eq!(r.q, 7681);
    assert_eq!(r.sigma, 8 * SIGMA_ONE);

    let ok = estimate_lwe(256, 7681, 8 * SIGMA_ONE, false).unwrap();
    assert_eq!(ok.beta, r.beta);
    assert_eq!(ok.m, r.m);
    assert_eq!(ok.d, r.d);
}

#[test]
fn sieving_variant_is_cheaper() {
    let conservative = estimate_core(256, 7681, 8 * SIGMA_ONE, false);
    let aggressive = estimate_core(256, 7681, 8 * SIGMA_ONE, true);
    assert_eq!(conservative.beta, aggressive.beta);
    assert_eq!(aggressive.classical_millibits, Some(66250));
    assert_eq!(conservative.classical_millibits, Some(73000));
}

#[test]
fn infeasible_instance_hits_sentinel() {
    // A tiny dimension with a huge modulus and tiny noise: every sample
    // count is geometrically infeasible, so the degenerate result comes
    // back and the cost is unbounded.
    let r = estimate_core(1, u64::MAX, 1, false);
    assert_eq!(r.beta, 10000);
    assert_eq!(r.m, 1);
    assert_eq!(r.d, 2);
    assert_eq!(r.classical_millibits, None);
}

#[test]
fn forwarders_match_components() {
    assert_eq!(get_delta(77), delta_0(77));
    assert_eq!(get_beta(delta_0(100)), beta_from_delta(delta_0(100)));
    assert_eq!(get_bkz_cost(100, false), Some(29200));
}

use rand::SeedableRng;
use rand::rngs::StdRng;
use rand_distr::{Distribution, StandardNormal};
use tolling_agreement_valuation::errors::ValuationError;
use tolling_agreement_valuation::fixed::SCALE;
use tolling_agreement_valuation::gbm::GeometricBrownianMotionTransformer;
use tolling_agreement_valuation::jump::JumpDiffusionProcessTransformer;
use tolling_agreement_valuation::sqrt::fp_sqrt;

fn normal_row_zero_start(rng: &mut StdRng, n: usize) -> Vec<i64> {
    let mut row = Vec::with_capacity(n);
    row.push(0);
    for _ in 1..n {
        let z: f64 = StandardNormal.sample(rng);
        row.push((z * SCALE as f64) as i64);
    }
    row
}

#[test]
fn zero_volatility_gas_path_is_the_forward_curve() {
    let mut rng = StdRng::seed_from_u64(3);
    let n = 48;
    let f: Vec<i64> = (0..n).map(|i| (20 + (i as i64 % 5)) * SCALE).collect();
    let eps = normal_row_zero_start(&mut rng, n);
    let path = GeometricBrownianMotionTransformer::transform_to_gbm(&f, 0, &eps).unwrap();
    assert_eq!(path, f);
}

#[test]
fn gas_path_is_anchored_at_the_first_forward_price() {
    let mut rng = StdRng::seed_from_u64(5);
    let n = 48;
    let f: Vec<i64> = vec![20 * SCALE; n];
    let eps = normal_row_zero_start(&mut rng, n);
    let sigma = 500_000; // 0.5
    let path = GeometricBrownianMotionTransformer::transform_to_gbm(&f, sigma, &eps).unwrap();
    assert_eq!(path[0], f[0]);
    assert_ne!(path, f);
}

#[test]
fn gbm_length_mismatch_is_rejected() {
    let f = vec![20 * SCALE; 24];
    let eps = vec![0; 48];
    assert_eq!(
        GeometricBrownianMotionTransformer::transform_to_gbm(&f, 0, &eps),
        Err(ValuationError::CurveLengthMismatch)
    );
}

#[test]
fn gas_paths_average_back_to_the_forward_curve() {
    // martingale check: the Monte Carlo mean at a fixed future index
    // converges to the forward value as 1/sqrt(num_paths)
    let mut rng = StdRng::seed_from_u64(23);
    let n = 48;
    let forward = 20.0f64;
    let f: Vec<i64> = vec![(forward * SCALE as f64) as i64; n];
    let sigma = 400_000; // 0.4
    let num_paths = 20_000;
    let mut sum_last = 0f64;
    for _ in 0..num_paths {
        let eps = normal_row_zero_start(&mut rng, n);
        let path = GeometricBrownianMotionTransformer::transform_to_gbm(&f, sigma, &eps).unwrap();
        sum_last += path[n - 1] as f64 / SCALE as f64;
    }
    let mean = sum_last / num_paths as f64;
    // standard error is about forward * sigma / sqrt(num_paths) ~ 0.057
    assert!(
        (mean - forward).abs() < 0.25,
        "martingale mean {mean} strayed from {forward}"
    );
}

#[test]
fn cumulative_sum_accumulates_the_row() {
    let eps = vec![1, 2, 3, -4];
    let w = GeometricBrownianMotionTransformer::cumulative_sum(&eps).unwrap();
    assert_eq!(w, vec![1, 3, 6, 2]);
}

#[test]
fn no_jumps_and_no_volatility_reproduce_the_power_curve() {
    let n = 48;
    let f: Vec<i64> = (0..n).map(|i| (25 + (i as i64 % 3)) * SCALE).collect();
    let eps = vec![0i64; n];
    let counts = vec![0u32; n];
    let zs = vec![0i64; n];
    let path = JumpDiffusionProcessTransformer::transform_path_to_jdp(
        &f, 0, 2 * SCALE, 0, SCALE, SCALE, &eps, &counts, &zs,
    )
    .unwrap();
    assert_eq!(path, f);
}

#[test]
fn no_jumps_reduce_to_the_continuous_diffusion() {
    // with zero intensity and no jump draws, the log-deviation path is the
    // plain mean-reverting recurrence, reproduced here step by step
    let mut rng = StdRng::seed_from_u64(31);
    let n = 48;
    let sigma_p = 300_000i64; // 0.3
    let kappa = 2 * SCALE;
    let eps = normal_row_zero_start(&mut rng, n);
    let counts = vec![0u32; n];
    let zs = vec![0i64; n];
    let dt = SCALE / n as i64;
    let dt_sqrt = fp_sqrt(dt);
    let v = JumpDiffusionProcessTransformer::transform_path_to_ou(
        sigma_p, kappa, 0, 0, dt, dt_sqrt, 0, &eps, &counts, &zs,
    )
    .unwrap();
    let scale = SCALE as i128;
    let mut expected = vec![0i64];
    for t in 1..n {
        let p = expected[t - 1] as i128;
        let decay = (kappa as i128 * p / scale) * (dt as i128) / scale;
        let dw = eps[t] as i128 * dt_sqrt as i128 / scale;
        let vol = sigma_p as i128 * dw / scale;
        expected.push((p + (-decay + vol)) as i64);
    }
    assert_eq!(v, expected);
    assert_eq!(v[0], 0);
}

#[test]
fn jump_terms_are_inert_while_intensity_is_zero() {
    let mut rng = StdRng::seed_from_u64(37);
    let n = 48;
    let f: Vec<i64> = vec![25 * SCALE; n];
    let eps = normal_row_zero_start(&mut rng, n);
    let counts = vec![0u32; n];
    let zs = vec![0i64; n];
    let a = JumpDiffusionProcessTransformer::transform_path_to_jdp(
        &f, 300_000, SCALE, 0, SCALE, SCALE, &eps, &counts, &zs,
    )
    .unwrap();
    let b = JumpDiffusionProcessTransformer::transform_path_to_jdp(
        &f, 300_000, SCALE, 0, -3 * SCALE, 2 * SCALE, &eps, &counts, &zs,
    )
    .unwrap();
    assert_eq!(a, b);
}

#[test]
fn negative_jump_intensity_is_rejected() {
    let n = 24;
    let f = vec![25 * SCALE; n];
    let eps = vec![0i64; n];
    let counts = vec![0u32; n];
    let zs = vec![0i64; n];
    assert_eq!(
        JumpDiffusionProcessTransformer::transform_path_to_jdp(
            &f, 0, 0, -1, 0, 0, &eps, &counts, &zs,
        ),
        Err(ValuationError::NegativeJumpIntensity)
    );
}

#[test]
fn mismatched_jump_draws_are_rejected() {
    let n = 24;
    let f = vec![25 * SCALE; n];
    let eps = vec![0i64; n];
    let counts = vec![0u32; n - 1];
    let zs = vec![0i64; n];
    assert_eq!(
        JumpDiffusionProcessTransformer::transform_path_to_jdp(
            &f, 0, 0, 0, 0, 0, &eps, &counts, &zs,
        ),
        Err(ValuationError::MalformedDraws)
    );
}

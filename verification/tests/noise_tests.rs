use rand::SeedableRng;
use rand::rngs::StdRng;
use rand_distr::{Distribution, StandardNormal};
use tolling_agreement_valuation::errors::ValuationError;
use tolling_agreement_valuation::fixed::SCALE;
use tolling_agreement_valuation::noise::{cholesky_lower, correlate_pair};

fn normal_row(rng: &mut StdRng, n: usize) -> Vec<i64> {
    let mut row = Vec::with_capacity(n);
    for _ in 0..n {
        let z: f64 = StandardNormal.sample(rng);
        row.push((z * SCALE as f64) as i64);
    }
    row
}

fn sample_correlation(a: &[i64], b: &[i64]) -> f64 {
    let n = a.len() as f64;
    let xs: Vec<f64> = a.iter().map(|&v| v as f64).collect();
    let ys: Vec<f64> = b.iter().map(|&v| v as f64).collect();
    let mx = xs.iter().sum::<f64>() / n;
    let my = ys.iter().sum::<f64>() / n;
    let cov = xs.iter().zip(&ys).map(|(x, y)| (x - mx) * (y - my)).sum::<f64>() / n;
    let vx = xs.iter().map(|x| (x - mx) * (x - mx)).sum::<f64>() / n;
    let vy = ys.iter().map(|y| (y - my) * (y - my)).sum::<f64>() / n;
    cov / (vx.sqrt() * vy.sqrt())
}

#[test]
fn cholesky_rejects_invalid_correlation() {
    assert_eq!(
        cholesky_lower(SCALE + 1),
        Err(ValuationError::InvalidCorrelation)
    );
    assert_eq!(
        cholesky_lower(-SCALE - 1),
        Err(ValuationError::InvalidCorrelation)
    );
}

#[test]
fn cholesky_diagonal_is_exact_at_the_corners() {
    assert_eq!(cholesky_lower(0), Ok((0, SCALE)));
    assert_eq!(cholesky_lower(SCALE), Ok((SCALE, 0)));
    assert_eq!(cholesky_lower(-SCALE), Ok((-SCALE, 0)));
    // sqrt(1 - 0.5^2) = 0.866025...
    assert_eq!(cholesky_lower(500_000), Ok((500_000, 866_025)));
}

#[test]
fn zero_correlation_passes_draws_through_within_sampling_error() {
    let mut rng = StdRng::seed_from_u64(7);
    let n = 20_001;
    let zg = normal_row(&mut rng, n);
    let zp = normal_row(&mut rng, n);
    let (l21, l22) = cholesky_lower(0).unwrap();
    let (cg, cp) = correlate_pair(l21, l22, &zg, &zp).unwrap();
    // exactly the independent draws, so the sample correlation is tiny
    assert_eq!(&cp[1..], &zp[1..]);
    let corr = sample_correlation(&cg[1..], &cp[1..]);
    assert!(corr.abs() < 0.03, "sample correlation {corr} not near 0");
}

#[test]
fn moderate_correlation_is_reproduced_within_sampling_error() {
    let mut rng = StdRng::seed_from_u64(11);
    let n = 20_001;
    let zg = normal_row(&mut rng, n);
    let zp = normal_row(&mut rng, n);
    let (l21, l22) = cholesky_lower(500_000).unwrap();
    let (cg, cp) = correlate_pair(l21, l22, &zg, &zp).unwrap();
    let corr = sample_correlation(&cg[1..], &cp[1..]);
    assert!((corr - 0.5).abs() < 0.03, "sample correlation {corr} not near 0.5");
}

#[test]
fn perfect_correlation_mixes_to_exact_equality() {
    let mut rng = StdRng::seed_from_u64(13);
    let n = 500;
    let zg = normal_row(&mut rng, n);
    let zp = normal_row(&mut rng, n);
    let (l21, l22) = cholesky_lower(SCALE).unwrap();
    let (cg, cp) = correlate_pair(l21, l22, &zg, &zp).unwrap();
    assert_eq!(cg, cp);
}

#[test]
fn perfect_anticorrelation_mixes_to_exact_negation() {
    let mut rng = StdRng::seed_from_u64(17);
    let n = 500;
    let zg = normal_row(&mut rng, n);
    let zp = normal_row(&mut rng, n);
    let (l21, l22) = cholesky_lower(-SCALE).unwrap();
    let (cg, cp) = correlate_pair(l21, l22, &zg, &zp).unwrap();
    for i in 0..n {
        assert_eq!(cp[i], -cg[i]);
    }
}

#[test]
fn wiener_start_is_zeroed_on_both_rows() {
    let zg = vec![123_456, 1];
    let zp = vec![-654_321, 2];
    let (l21, l22) = cholesky_lower(250_000).unwrap();
    let (cg, cp) = correlate_pair(l21, l22, &zg, &zp).unwrap();
    assert_eq!(cg[0], 0);
    assert_eq!(cp[0], 0);
}

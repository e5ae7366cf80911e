use rand::SeedableRng;
use rand::rngs::StdRng;
use rand_distr::{Distribution, Poisson, StandardNormal};
use tolling_agreement_valuation::errors::ValuationError;
use tolling_agreement_valuation::fixed::SCALE;
use tolling_agreement_valuation::params::{ModelParameters, UnitParameter};
use tolling_agreement_valuation::profit::ProfitCalculator;
use tolling_agreement_valuation::simulation_result::{SimulationResult, TollingAssetIndex};
use tolling_agreement_valuation::simulator::{PathDraws, Simulator};

fn zero_draws(num_paths: usize, n: usize) -> Vec<PathDraws> {
    (0..num_paths)
        .map(|_| PathDraws {
            gas: vec![0; n],
            power: vec![0; n],
            jump_counts: vec![0; n],
            jump_z: vec![0; n],
        })
        .collect()
}

fn random_draws(seed: u64, num_paths: usize, n: usize, lambda_dt: f64) -> Vec<PathDraws> {
    let mut out = Vec::with_capacity(num_paths);
    for p in 0..num_paths {
        let mut rng = StdRng::seed_from_u64(seed.wrapping_add(p as u64));
        let mut gas = Vec::with_capacity(n);
        let mut power = Vec::with_capacity(n);
        let mut jump_counts = Vec::with_capacity(n);
        let mut jump_z = Vec::with_capacity(n);
        for _ in 0..n {
            let a: f64 = StandardNormal.sample(&mut rng);
            let b: f64 = StandardNormal.sample(&mut rng);
            let c: f64 = StandardNormal.sample(&mut rng);
            gas.push((a * SCALE as f64) as i64);
            power.push((b * SCALE as f64) as i64);
            jump_z.push((c * SCALE as f64) as i64);
            if lambda_dt > 0.0 {
                let k: f64 = Poisson::new(lambda_dt).unwrap().sample(&mut rng);
                jump_counts.push(k as u32);
            } else {
                jump_counts.push(0);
            }
        }
        out.push(PathDraws { gas, power, jump_counts, jump_z });
    }
    out
}

fn flat_parameters() -> ModelParameters {
    ModelParameters::new(0, 0, 0, 0, 0, 0, 0, 0)
}

#[test]
fn two_flat_days_value_to_the_exact_spark_spread() {
    // gas 20.0 and power 25.0 for 48 hours, one unit of heat rate 0.1,
    // capacity 10 and no start-up costs, no volatility, no discounting:
    // (25 - 0.1*20) * 10 * 24 = 5520 a day, 11040 over two days.
    let n = 48;
    let gas_curve = vec![20 * SCALE; n];
    let power_curve = vec![25 * SCALE; n];
    let mp = flat_parameters();
    let draws = zero_draws(1, n);
    let res = Simulator::simulate(&gas_curve, &power_curve, &mp, 1, &draws).unwrap();
    let unit = UnitParameter::new(100_000, 10 * SCALE, 0);
    let npv = ProfitCalculator::calculate_profit(&res, &vec![unit], &0).unwrap();
    assert_eq!(npv, 11_040 * SCALE);
}

#[test]
fn surface_dimensions_and_flat_prices_are_exact() {
    let n = 48;
    let gas_curve = vec![20 * SCALE; n];
    let power_curve = vec![25 * SCALE; n];
    let mp = flat_parameters();
    let draws = zero_draws(3, n);
    let res = Simulator::simulate(&gas_curve, &power_curve, &mp, 3, &draws).unwrap();
    assert_eq!(res.num_paths(), 3);
    assert_eq!(res.num_points(), n);
    let gas = res.gas_prices();
    let power = res.power_prices();
    assert_eq!(gas.len(), 3 * n);
    assert_eq!(power.len(), 3 * n);
    for p in 0..3 {
        for t in 0..n {
            assert_eq!(gas[p * n + t], 20 * SCALE);
            assert_eq!(power[p * n + t], 25 * SCALE);
            assert_eq!(res.price(p, 0, t), 20 * SCALE);
            assert_eq!(res.price(p, 1, t), 25 * SCALE);
        }
    }
}

#[test]
fn asset_axis_positions_are_fixed() {
    assert_eq!(TollingAssetIndex::Gas.idx(), 0);
    assert_eq!(TollingAssetIndex::Power.idx(), 1);
    // one path: 24 gas prices followed by 24 power prices
    let data = [vec![20 * SCALE; 24], vec![25 * SCALE; 24]].concat();
    let res = SimulationResult::new(data, 1, 24);
    let gas = res.get_asset_data(TollingAssetIndex::Gas.idx());
    let power = res.get_asset_data(TollingAssetIndex::Power.idx());
    assert_eq!(gas, vec![20 * SCALE; 24]);
    assert_eq!(power, vec![25 * SCALE; 24]);
}

#[test]
fn configuration_errors_fail_fast_in_order() {
    let mp = flat_parameters();
    let d = zero_draws(1, 48);
    assert!(matches!(
        Simulator::simulate(&vec![SCALE; 48], &vec![SCALE; 24], &mp, 1, &d),
        Err(ValuationError::CurveLengthMismatch)
    ));
    assert!(matches!(
        Simulator::simulate(&vec![SCALE; 23], &vec![SCALE; 23], &mp, 1, &zero_draws(1, 23)),
        Err(ValuationError::CurveLengthNotWholeDays)
    ));
    assert!(matches!(
        Simulator::simulate(&vec![SCALE; 48], &vec![SCALE; 48], &mp, 0, &d),
        Err(ValuationError::NoPaths)
    ));
    assert!(matches!(
        Simulator::simulate(&vec![SCALE; 48], &vec![SCALE; 48], &mp, 2, &d),
        Err(ValuationError::MalformedDraws)
    ));
    let bad_rho = ModelParameters::new(0, 0, 0, 0, 0, 0, 2 * SCALE, 0);
    assert!(matches!(
        Simulator::simulate(&vec![SCALE; 48], &vec![SCALE; 48], &bad_rho, 1, &d),
        Err(ValuationError::InvalidCorrelation)
    ));
    let bad_lambda = ModelParameters::new(0, 0, 0, -SCALE, 0, 0, 0, 0);
    assert!(matches!(
        Simulator::simulate(&vec![SCALE; 48], &vec![SCALE; 48], &bad_lambda, 1, &d),
        Err(ValuationError::NegativeJumpIntensity)
    ));
}

#[test]
fn identical_seeds_reproduce_the_surface_and_npv_bit_for_bit() {
    let n = 48;
    let gas_curve = vec![20 * SCALE; n];
    let power_curve = vec![25 * SCALE; n];
    let mp = ModelParameters::new(
        400_000, 600_000, 2 * SCALE, SCALE / 2, 300_000, 200_000, 300_000, 30_000,
    );
    let num_paths = 50;
    let d1 = random_draws(99, num_paths, n, 0.5 / n as f64);
    let d2 = random_draws(99, num_paths, n, 0.5 / n as f64);
    let r1 = Simulator::simulate(&gas_curve, &power_curve, &mp, num_paths, &d1).unwrap();
    let r2 = Simulator::simulate(&gas_curve, &power_curve, &mp, num_paths, &d2).unwrap();
    for p in 0..num_paths {
        for a in 0..2 {
            for t in 0..n {
                assert_eq!(r1.price(p, a, t), r2.price(p, a, t));
            }
        }
    }
    let unit = UnitParameter::new(100_000, 10 * SCALE, 2_000 * SCALE);
    let n1 = ProfitCalculator::calculate_profit(&r1, &vec![unit], &mp.r).unwrap();
    let n2 = ProfitCalculator::calculate_profit(&r2, &vec![unit], &mp.r).unwrap();
    assert_eq!(n1, n2);
}

#[test]
fn empty_facility_values_to_zero() {
    let n = 48;
    let mp = flat_parameters();
    let draws = zero_draws(2, n);
    let res = Simulator::simulate(&vec![20 * SCALE; n], &vec![25 * SCALE; n], &mp, 2, &draws)
        .unwrap();
    let npv = ProfitCalculator::calculate_profit(&res, &vec![], &0).unwrap();
    assert_eq!(npv, 0);
}

#[test]
fn zero_paths_are_rejected_before_the_reduction() {
    let res = SimulationResult::new(vec![], 0, 24);
    let unit = UnitParameter::new(100_000, 10 * SCALE, 0);
    assert_eq!(
        ProfitCalculator::calculate_profit(&res, &vec![unit], &0),
        Err(ValuationError::NoPaths)
    );
}

#[test]
fn hopeless_units_contribute_exactly_nothing() {
    // the second unit's start-up costs exceed any possible daily margin, so
    // the facility is worth exactly what the first unit alone is worth
    let n = 48;
    let mp = flat_parameters();
    let draws = zero_draws(1, n);
    let res = Simulator::simulate(&vec![20 * SCALE; n], &vec![25 * SCALE; n], &mp, 1, &draws)
        .unwrap();
    let good = UnitParameter::new(100_000, 10 * SCALE, 0);
    let dead = UnitParameter::new(100_000, 10 * SCALE, 1_000_000 * SCALE);
    let with_dead = ProfitCalculator::calculate_profit(&res, &vec![good, dead], &0).unwrap();
    let alone = ProfitCalculator::calculate_profit(&res, &vec![good], &0).unwrap();
    assert_eq!(with_dead, alone);
    assert_eq!(ProfitCalculator::calculate_profit(&res, &vec![dead], &0).unwrap(), 0);
}

#[test]
fn larger_capacity_never_lowers_the_value() {
    let n = 48;
    let gas_curve = vec![20 * SCALE; n];
    let power_curve = vec![25 * SCALE; n];
    let mp = ModelParameters::new(200_000, 300_000, SCALE, 0, 0, 0, 400_000, 50_000);
    let draws = random_draws(41, 20, n, 0.0);
    let res = Simulator::simulate(&gas_curve, &power_curve, &mp, 20, &draws).unwrap();
    let small = UnitParameter::new(0, 10 * SCALE, 100 * SCALE);
    let large = UnitParameter::new(0, 20 * SCALE, 100 * SCALE);
    let v_small = ProfitCalculator::calculate_profit(&res, &vec![small], &mp.r).unwrap();
    let v_large = ProfitCalculator::calculate_profit(&res, &vec![large], &mp.r).unwrap();
    assert!(v_small <= v_large, "{v_small} > {v_large}");
}

#[test]
fn pathological_volatility_is_reported_as_degeneracy() {
    // a gas volatility so extreme that its square cannot be represented:
    // the run aborts with numeric degeneracy instead of producing a value
    let n = 24;
    let mp = ModelParameters::new(
        1_000_000_000_000_000_000, 0, 0, 0, 0, 0, 0, 0,
    );
    let draws = zero_draws(1, n);
    assert!(matches!(
        Simulator::simulate(&vec![20 * SCALE; n], &vec![25 * SCALE; n], &mp, 1, &draws),
        Err(ValuationError::NumericDegeneracy)
    ));
}

#[test]
fn zero_rate_means_undiscounted_and_positive_rates_discount() {
    let n = 48;
    let mp = flat_parameters();
    let draws = zero_draws(1, n);
    let res = Simulator::simulate(&vec![20 * SCALE; n], &vec![25 * SCALE; n], &mp, 1, &draws)
        .unwrap();
    let unit = UnitParameter::new(100_000, 10 * SCALE, 0);
    let undiscounted = ProfitCalculator::calculate_profit(&res, &vec![unit], &0).unwrap();
    assert_eq!(undiscounted, 11_040 * SCALE);
    let rate = SCALE / 20; // 5% a year
    let discounted = ProfitCalculator::calculate_profit(&res, &vec![unit], &rate).unwrap();
    assert!(discounted < undiscounted);
    assert!(discounted > 11_000 * SCALE);
}

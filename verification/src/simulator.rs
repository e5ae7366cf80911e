//! Per-path orchestration: correlate one path's innovations, transform the
//! gas row by geometric Brownian motion and the power row by the jump
//! diffusion, and assemble all paths into the price surface.
//!
//! Randomness enters only through [`PathDraws`]: one independent stream of
//! standard-normal innovations and Poisson jump draws per path, supplied by
//! the caller. The simulation itself is a pure function of curves, parameters
//! and draws, so identical inputs reproduce identical surfaces bit for bit.

use vstd::prelude::*;
use rayon::iter::{IntoParallelRefIterator, ParallelIterator};
use crate::errors::ValuationError;
use crate::fixed::{SCALE, in_range};
use crate::gbm::{GeometricBrownianMotionTransformer, gbm_point};
use crate::jump::{JumpDiffusionProcessTransformer, jdp_point};
use crate::noise::{cholesky_lower, correlate_pair, chol_l22, mixed_row, mixed_row_ok, zeroed_row};
use crate::params::{ModelParameters, curve_wf};
use crate::simulation_result::SimulationResult;

verus! {

/// One path's random draws: a standard-normal innovation for each asset and
/// time point, and a Poisson jump count with one standard-normal jump-size
/// draw for each time step.
pub struct PathDraws {
    pub gas: Vec<i64>,
    pub power: Vec<i64>,
    pub jump_counts: Vec<u32>,
    pub jump_z: Vec<i64>,
}

impl PathDraws {
    /// All four streams cover the `n` time points and every real-valued draw
    /// is representable.
    pub open spec fn wf(&self, n: int) -> bool {
        &&& self.gas@.len() == n
        &&& self.power@.len() == n
        &&& self.jump_counts@.len() == n
        &&& self.jump_z@.len() == n
        &&& forall|i: int| 0 <= i < n ==> in_range(#[trigger] self.gas@[i] as int)
        &&& forall|i: int| 0 <= i < n ==> in_range(#[trigger] self.power@[i] as int)
        &&& forall|i: int| 0 <= i < n ==> in_range(#[trigger] self.jump_z@[i] as int)
    }
}

/// Every checked step of one path's simulation is defined: the mixed noise
/// row, each gas point and each power point.
pub open spec fn path_ok(
    gas_curve: Seq<i64>,
    power_curve: Seq<i64>,
    mp: ModelParameters,
    l22: i64,
    draws: PathDraws,
) -> bool {
    let n = gas_curve.len() as int;
    &&& mixed_row_ok(mp.rho, l22, draws.gas@, draws.power@)
    &&& forall|i: int|
        0 <= i < n ==> #[trigger] gbm_point(
            gas_curve,
            mp.sigma_g,
            zeroed_row(draws.gas@),
            i,
            n,
        ) is Some
    &&& forall|i: int|
        0 <= i < n ==> #[trigger] jdp_point(
            power_curve,
            mixed_row(mp.rho, l22, draws.gas@, draws.power@),
            draws.jump_counts@,
            draws.jump_z@,
            mp.sigma_p,
            mp.kappa,
            mp.lambda_j,
            mp.mu_j,
            mp.sigma_j,
            i,
            n,
        ) is Some
}

/// What `simulate_path` promises of one path's result.
pub open spec fn path_result_post(
    gas_curve: Seq<i64>,
    power_curve: Seq<i64>,
    mp: ModelParameters,
    l22: i64,
    draws: PathDraws,
    r: Result<(Vec<i64>, Vec<i64>), ValuationError>,
) -> bool {
    &&& (r is Ok <==> path_ok(gas_curve, power_curve, mp, l22, draws))
    &&& (r matches Err(e) ==> e == ValuationError::NumericDegeneracy)
    &&& (r matches Ok(paths) ==> {
        let n = gas_curve.len() as int;
        &&& paths.0@.len() == n
        &&& paths.1@.len() == n
        &&& forall|i: int|
            0 <= i < n ==> Some(#[trigger] paths.0@[i]) == gbm_point(
                gas_curve,
                mp.sigma_g,
                zeroed_row(draws.gas@),
                i,
                n,
            )
        &&& forall|i: int|
            0 <= i < n ==> Some(#[trigger] paths.1@[i]) == jdp_point(
                power_curve,
                mixed_row(mp.rho, l22, draws.gas@, draws.power@),
                draws.jump_counts@,
                draws.jump_z@,
                mp.sigma_p,
                mp.kappa,
                mp.lambda_j,
                mp.mu_j,
                mp.sigma_j,
                i,
                n,
            )
        &&& forall|i: int| 0 <= i < n ==> in_range(#[trigger] paths.0@[i] as int)
        &&& forall|i: int| 0 <= i < n ==> in_range(#[trigger] paths.1@[i] as int)
    })
}

/// Simulate one path: correlate the innovations, then apply both transforms.
/// Fails only with numeric degeneracy, exactly when `path_ok` does not hold.
pub fn simulate_path(
    gas_curve: &Vec<i64>,
    power_curve: &Vec<i64>,
    mp: &ModelParameters,
    l22: i64,
    draws: &PathDraws,
) -> (r: Result<(Vec<i64>, Vec<i64>), ValuationError>)
    requires
        curve_wf(gas_curve@),
        curve_wf(power_curve@),
        gas_curve@.len() == power_curve@.len(),
        mp.wf(),
        mp.lambda_j >= 0,
        -SCALE <= mp.rho <= SCALE,
        0 <= l22 <= SCALE,
        draws.wf(gas_curve@.len() as int),
    ensures
        path_result_post(gas_curve@, power_curve@, *mp, l22, *draws, r),
{
    let (noise_gas, noise_power) = match correlate_pair(mp.rho, l22, &draws.gas, &draws.power) {
        Ok(pair) => pair,
        Err(_) => {
            return Err(ValuationError::NumericDegeneracy);
        },
    };
    let gas_path = match GeometricBrownianMotionTransformer::transform_to_gbm(
        gas_curve,
        mp.sigma_g,
        &noise_gas,
    ) {
        Ok(p) => p,
        Err(_) => {
            return Err(ValuationError::NumericDegeneracy);
        },
    };
    let power_path = match JumpDiffusionProcessTransformer::transform_path_to_jdp(
        power_curve,
        mp.sigma_p,
        mp.kappa,
        mp.lambda_j,
        mp.mu_j,
        mp.sigma_j,
        &noise_power,
        &draws.jump_counts,
        &draws.jump_z,
    ) {
        Ok(p) => p,
        Err(_) => {
            return Err(ValuationError::NumericDegeneracy);
        },
    };
    Ok((gas_path, power_path))
}

/// What `Simulator::simulate` promises of its result: the configuration
/// errors in their checking order, and for valid inputs a surface whose every
/// price equals the corresponding checked transform point.
pub open spec fn simulate_post(
    gas_curve: Seq<i64>,
    power_curve: Seq<i64>,
    mp: ModelParameters,
    num_paths: int,
    draws: Seq<PathDraws>,
    r: Result<SimulationResult, ValuationError>,
) -> bool {
    let n = gas_curve.len() as int;
    &&& (gas_curve.len() != power_curve.len() ==> r == Err::<SimulationResult, ValuationError>(
        ValuationError::CurveLengthMismatch,
    ))
    &&& (gas_curve.len() == power_curve.len() && (n % 24 != 0 || n < 24) ==> r == Err::<
        SimulationResult,
        ValuationError,
    >(ValuationError::CurveLengthNotWholeDays))
    &&& (gas_curve.len() == power_curve.len() && n % 24 == 0 && n >= 24 && num_paths == 0 ==> r
        == Err::<SimulationResult, ValuationError>(ValuationError::NoPaths))
    &&& (gas_curve.len() == power_curve.len() && n % 24 == 0 && n >= 24 && num_paths >= 1
        && draws.len() != num_paths ==> r == Err::<SimulationResult, ValuationError>(
        ValuationError::MalformedDraws,
    ))
    &&& (gas_curve.len() == power_curve.len() && n % 24 == 0 && n >= 24 && num_paths >= 1
        && draws.len() == num_paths && !(-SCALE <= mp.rho <= SCALE) ==> r == Err::<
        SimulationResult,
        ValuationError,
    >(ValuationError::InvalidCorrelation))
    &&& (gas_curve.len() == power_curve.len() && n % 24 == 0 && n >= 24 && num_paths >= 1
        && draws.len() == num_paths && -SCALE <= mp.rho <= SCALE && mp.lambda_j < 0 ==> r == Err::<
        SimulationResult,
        ValuationError,
    >(ValuationError::NegativeJumpIntensity))
    &&& (gas_curve.len() == power_curve.len() && n % 24 == 0 && n >= 24 && num_paths >= 1
        && draws.len() == num_paths && -SCALE <= mp.rho <= SCALE && mp.lambda_j >= 0 ==> {
        let l22 = chol_l22(mp.rho as int);
        &&& (r is Ok <==> (forall|p: int|
            0 <= p < num_paths ==> path_ok(gas_curve, power_curve, mp, l22 as i64, #[trigger] draws[p])))
        &&& (r matches Err(e) ==> e == ValuationError::NumericDegeneracy)
        &&& (r matches Ok(res) ==> {
            &&& res.wf()
            &&& res.spec_num_paths() == num_paths
            &&& res.spec_num_points() == n
            &&& forall|p: int, i: int|
                0 <= p < num_paths && 0 <= i < n ==> Some(#[trigger] res.price_spec(p, 0, i))
                    == gbm_point(gas_curve, mp.sigma_g, zeroed_row(draws[p].gas@), i, n)
            &&& forall|p: int, i: int|
                0 <= p < num_paths && 0 <= i < n ==> Some(#[trigger] res.price_spec(p, 1, i))
                    == jdp_point(
                    power_curve,
                    mixed_row(mp.rho, l22 as i64, draws[p].gas@, draws[p].power@),
                    draws[p].jump_counts@,
                    draws[p].jump_z@,
                    mp.sigma_p,
                    mp.kappa,
                    mp.lambda_j,
                    mp.mu_j,
                    mp.sigma_j,
                    i,
                    n,
                )
        })
    })
}

/// The preconditions of `Simulator::simulate`, over views: machine limits on
/// lengths and representability of every supplied value.
pub open spec fn simulate_pre(
    gas_curve: Seq<i64>,
    power_curve: Seq<i64>,
    mp: ModelParameters,
    num_paths: int,
    draws: Seq<PathDraws>,
) -> bool {
    &&& mp.wf()
    &&& gas_curve.len() <= 0x7fff_ffff
    &&& (forall|i: int| 0 <= i < gas_curve.len() ==> in_range(#[trigger] gas_curve[i] as int))
    &&& (forall|i: int| 0 <= i < power_curve.len() ==> in_range(#[trigger] power_curve[i] as int))
    &&& (forall|p: int| 0 <= p < draws.len() ==> #[trigger] draws[p].wf(gas_curve.len() as int))
    &&& num_paths * 2 * gas_curve.len() <= usize::MAX
}

/// Relies on rayon's `par_iter().map(..).collect()` on a `Vec`: it applies
/// the closure to every element and collects one result per element in input
/// order, exactly as the sequential map would. The closure only calls
/// `simulate_path`, whose contract is verified; the paths share nothing
/// mutable, so the parallel schedule cannot change any result.
#[verifier::external_body]
fn simulate_paths_parallel(
    gas_curve: &Vec<i64>,
    power_curve: &Vec<i64>,
    mp: &ModelParameters,
    l22: i64,
    draws: &Vec<PathDraws>,
) -> (r: Vec<Result<(Vec<i64>, Vec<i64>), ValuationError>>)
    requires
        curve_wf(gas_curve@),
        curve_wf(power_curve@),
        gas_curve@.len() == power_curve@.len(),
        mp.wf(),
        mp.lambda_j >= 0,
        -SCALE <= mp.rho <= SCALE,
        0 <= l22 <= SCALE,
        forall|p: int| 0 <= p < draws@.len() ==> #[trigger] draws@[p].wf(gas_curve@.len() as int),
    ensures
        r@.len() == draws@.len(),
        forall|p: int|
            0 <= p < draws@.len() ==> path_result_post(
                gas_curve@,
                power_curve@,
                *mp,
                l22,
                #[trigger] draws@[p],
                r@[p],
            ),
{
    draws
        .par_iter()
        .map(|d| simulate_path(gas_curve, power_curve, mp, l22, d))
        .collect()
}

/// Orchestrates the whole simulation: validation, the Cholesky factor, one
/// transform pair per path, and the assembled surface.
pub struct Simulator;

impl Simulator {
    /// Simulate `num_paths` correlated gas and power price paths anchored to
    /// the two forward curves, one independent draw stream per path.
    ///
    /// Fails fast on configuration errors before any path is simulated:
    /// curve length mismatch, a horizon that is not a positive whole number
    /// of days, zero paths, draws not matching the requested shape, an
    /// invalid correlation, or a negative jump intensity.
    pub fn simulate(
        forward_curve_gas: &Vec<i64>,
        forward_curve_power: &Vec<i64>,
        model_parameters: &ModelParameters,
        num_paths: usize,
        draws: &Vec<PathDraws>,
    ) -> (r: Result<SimulationResult, ValuationError>)
        requires
            simulate_pre(
                forward_curve_gas@,
                forward_curve_power@,
                *model_parameters,
                num_paths as int,
                draws@,
            ),
        ensures
            simulate_post(
                forward_curve_gas@,
                forward_curve_power@,
                *model_parameters,
                num_paths as int,
                draws@,
                r,
            ),
    {
        let n = forward_curve_gas.len();
        if forward_curve_power.len() != n {
            return Err(ValuationError::CurveLengthMismatch);
        }
        if n % 24 != 0 || n < 24 {
            return Err(ValuationError::CurveLengthNotWholeDays);
        }
        if num_paths == 0 {
            return Err(ValuationError::NoPaths);
        }
        if draws.len() != num_paths {
            return Err(ValuationError::MalformedDraws);
        }
        let l22 = match cholesky_lower(model_parameters.rho) {
            Ok(l) => l.1,
            Err(e) => {
                return Err(e);
            },
        };
        if model_parameters.lambda_j < 0 {
            return Err(ValuationError::NegativeJumpIntensity);
        }
        let ghost nn = n as int;
        let ghost mp = *model_parameters;
        let results = simulate_paths_parallel(
            forward_curve_gas,
            forward_curve_power,
            model_parameters,
            l22,
            draws,
        );
        let mut data: Vec<i64> = Vec::new();
        let mut p: usize = 0;
        while p < num_paths
            invariant
                results@.len() == num_paths,
                forall|q: int|
                    0 <= q < num_paths ==> path_result_post(
                        forward_curve_gas@,
                        forward_curve_power@,
                        mp,
                        l22,
                        #[trigger] draws@[q],
                        results@[q],
                    ),
                n == forward_curve_gas@.len(),
                nn == n as int,
                forward_curve_gas@.len() == forward_curve_power@.len(),
                curve_wf(forward_curve_gas@),
                curve_wf(forward_curve_power@),
                mp == *model_parameters,
                mp.wf(),
                mp.lambda_j >= 0,
                -SCALE <= mp.rho <= SCALE,
                0 <= l22 <= SCALE,
                l22 == chol_l22(mp.rho as int),
                num_paths >= 1,
                draws@.len() == num_paths,
                forall|q: int| 0 <= q < draws@.len() ==> #[trigger] draws@[q].wf(nn),
                num_paths * 2 * forward_curve_gas@.len() <= usize::MAX,
                p <= num_paths,
                forall|q: int|
                    0 <= q < p ==> path_ok(
                        forward_curve_gas@,
                        forward_curve_power@,
                        mp,
                        l22,
                        #[trigger] draws@[q],
                    ),
                data@.len() == p * (2 * n),
                forall|q: int, i: int|
                    0 <= q < p && 0 <= i < nn ==> Some(#[trigger] data@[q * (2 * nn) + i])
                        == gbm_point(
                        forward_curve_gas@,
                        mp.sigma_g,
                        zeroed_row(draws@[q].gas@),
                        i,
                        nn,
                    ),
                forall|q: int, i: int|
                    0 <= q < p && 0 <= i < nn ==> Some(#[trigger] data@[q * (2 * nn) + nn + i])
                        == jdp_point(
                        forward_curve_power@,
                        mixed_row(mp.rho, l22, draws@[q].gas@, draws@[q].power@),
                        draws@[q].jump_counts@,
                        draws@[q].jump_z@,
                        mp.sigma_p,
                        mp.kappa,
                        mp.lambda_j,
                        mp.mu_j,
                        mp.sigma_j,
                        i,
                        nn,
                    ),
                forall|k: int| 0 <= k < data@.len() ==> in_range(#[trigger] data@[k] as int),
            decreases num_paths - p,
        {
            proof {
                assert(path_result_post(
                    forward_curve_gas@,
                    forward_curve_power@,
                    mp,
                    l22,
                    draws@[p as int],
                    results@[p as int],
                ));
            }
            let pair = match &results[p] {
                Ok(pr) => pr,
                Err(_) => {
                    return Err(ValuationError::NumericDegeneracy);
                },
            };
            let gas_path = &pair.0;
            let power_path = &pair.1;
            proof {
                lemma_stride_bound(p as int, num_paths as int, nn);
            }
            let ghost data0 = data@;
            append_row(&mut data, gas_path);
            append_row(&mut data, power_path);
            proof {
                assert forall|q: int, i: int|
                    0 <= q < p + 1 && 0 <= i < nn implies Some(
                    #[trigger] data@[q * (2 * nn) + i],
                ) == gbm_point(
                    forward_curve_gas@,
                    mp.sigma_g,
                    zeroed_row(draws@[q].gas@),
                    i,
                    nn,
                ) by {
                    lemma_stride_bound(q, num_paths as int, nn);
                    if q < p {
                        assert(q * (2 * nn) + 2 * nn <= p * (2 * nn)) by (nonlinear_arith)
                            requires
                                0 <= q < p,
                                nn >= 1,
                        ;
                        assert(data@[q * (2 * nn) + i] == data0[q * (2 * nn) + i]);
                    } else {
                        assert(data@[q * (2 * nn) + i] == gas_path@[i]);
                    }
                };
                assert forall|q: int, i: int|
                    0 <= q < p + 1 && 0 <= i < nn implies Some(
                    #[trigger] data@[q * (2 * nn) + nn + i],
                ) == jdp_point(
                    forward_curve_power@,
                    mixed_row(mp.rho, l22, draws@[q].gas@, draws@[q].power@),
                    draws@[q].jump_counts@,
                    draws@[q].jump_z@,
                    mp.sigma_p,
                    mp.kappa,
                    mp.lambda_j,
                    mp.mu_j,
                    mp.sigma_j,
                    i,
                    nn,
                ) by {
                    lemma_stride_bound(q, num_paths as int, nn);
                    if q < p {
                        assert(q * (2 * nn) + 2 * nn <= p * (2 * nn)) by (nonlinear_arith)
                            requires
                                0 <= q < p,
                                nn >= 1,
                        ;
                        assert(data@[q * (2 * nn) + nn + i] == data0[q * (2 * nn) + nn + i]);
                    } else {
                        assert(data@[q * (2 * nn) + nn + i] == power_path@[i]);
                    }
                };
                assert((p + 1) * (2 * nn) == p * (2 * nn) + 2 * nn) by (nonlinear_arith);
            }
            p = p + 1;
        }
        proof {
            assert(data@.len() == num_paths * 2 * n) by (nonlinear_arith)
                requires
                    data@.len() == num_paths * (2 * (n as int)),
            ;
        }
        let result = SimulationResult::new(data, num_paths, n);
        proof {
            assert forall|q: int, i: int|
                0 <= q < num_paths && 0 <= i < nn implies Some(
                #[trigger] result.price_spec(q, 0, i),
            ) == gbm_point(forward_curve_gas@, mp.sigma_g, zeroed_row(draws@[q].gas@), i, nn) by {
                assert(q * 2 * nn + 0 * nn + i == q * (2 * nn) + i) by (nonlinear_arith);
                assert(result.price_spec(q, 0, i) == data@[q * 2 * nn + 0 * nn + i]);
            };
            assert forall|q: int, i: int|
                0 <= q < num_paths && 0 <= i < nn implies Some(
                #[trigger] result.price_spec(q, 1, i),
            ) == jdp_point(
                forward_curve_power@,
                mixed_row(mp.rho, l22, draws@[q].gas@, draws@[q].power@),
                draws@[q].jump_counts@,
                draws@[q].jump_z@,
                mp.sigma_p,
                mp.kappa,
                mp.lambda_j,
                mp.mu_j,
                mp.sigma_j,
                i,
                nn,
            ) by {
                assert(q * 2 * nn + 1 * nn + i == q * (2 * nn) + nn + i) by (nonlinear_arith);
                assert(result.price_spec(q, 1, i) == data@[q * 2 * nn + 1 * nn + i]);
            };
        }
        Ok(result)
    }
}

/// Append one row to the flat surface buffer.
fn append_row(data: &mut Vec<i64>, row: &Vec<i64>)
    requires
        old(data)@.len() + row@.len() <= usize::MAX,
    ensures
        final(data)@ == old(data)@ + row@,
{
    let mut i: usize = 0;
    while i < row.len()
        invariant
            old(data)@.len() + row@.len() <= usize::MAX,
            i <= row@.len(),
            data@ == old(data)@ + row@.subrange(0, i as int),
        decreases row@.len() - i,
    {
        data.push(row[i]);
        proof {
            assert(data@ =~= old(data)@ + row@.subrange(0, i + 1));
        }
        i = i + 1;
    }
    proof {
        assert(row@.subrange(0, row@.len() as int) =~= row@);
    }
}

/// One path's block of `2 * n` values stays inside the whole buffer.
proof fn lemma_stride_bound(p: int, num_paths: int, n: int)
    requires
        0 <= p < num_paths,
        1 <= n,
    ensures
        0 <= p * (2 * n),
        p * (2 * n) + 2 * n <= num_paths * (2 * n),
        num_paths * (2 * n) == num_paths * 2 * n,
{
    assert(0 <= p * (2 * n) && p * (2 * n) + 2 * n <= num_paths * (2 * n) && num_paths * (2 * n)
        == num_paths * 2 * n) by (nonlinear_arith)
        requires
            0 <= p < num_paths,
            1 <= n,
    ;
}

} // verus!

//! The two operations the core exposes to its collaborators: the raw price
//! surface and the NPV scalar, each over already-loaded plain values.

use vstd::prelude::*;
use crate::errors::ValuationError;
use crate::fixed::in_range;
use crate::params::{ModelParameters, UnitParameter};
use crate::profit::{ProfitCalculator, npv_spec, total_npv};
use crate::simulation_result::SimulationResult;
use crate::simulator::{PathDraws, Simulator, simulate_post, simulate_pre};

verus! {

pub struct SamplePathsArgs {
    pub gas_curve: Vec<i64>,
    pub power_curve: Vec<i64>,
    pub model_params: ModelParameters,
    pub num_paths: usize,
    pub draws: Vec<PathDraws>,
}

pub struct CalculateProfitArgs {
    pub gas_curve: Vec<i64>,
    pub power_curve: Vec<i64>,
    pub model_params: ModelParameters,
    pub unit_params: Vec<UnitParameter>,
    pub num_paths: usize,
    pub draws: Vec<PathDraws>,
}

/// Simulate the price surface and hand it to the caller.
pub fn sample_paths(args: SamplePathsArgs) -> (r: Result<SimulationResult, ValuationError>)
    requires
        simulate_pre(
            args.gas_curve@,
            args.power_curve@,
            args.model_params,
            args.num_paths as int,
            args.draws@,
        ),
    ensures
        simulate_post(
            args.gas_curve@,
            args.power_curve@,
            args.model_params,
            args.num_paths as int,
            args.draws@,
            r,
        ),
{
    Simulator::simulate(
        &args.gas_curve,
        &args.power_curve,
        &args.model_params,
        args.num_paths,
        &args.draws,
    )
}

/// Simulate the price surface and reduce it to the expected NPV.
pub fn calculate_profit(args: CalculateProfitArgs) -> (r: Result<i64, ValuationError>)
    requires
        simulate_pre(
            args.gas_curve@,
            args.power_curve@,
            args.model_params,
            args.num_paths as int,
            args.draws@,
        ),
        forall|j: int| 0 <= j < args.unit_params@.len() ==> (#[trigger] args.unit_params@[j]).wf(),
        in_range(args.model_params.r as int),
    ensures
        r matches Ok(v) ==> exists|res: SimulationResult|
            {
                &&& #[trigger] res.wf()
                &&& simulate_post(
                    args.gas_curve@,
                    args.power_curve@,
                    args.model_params,
                    args.num_paths as int,
                    args.draws@,
                    Ok(res),
                )
                &&& Some(v) == npv_spec(res, args.unit_params@, args.model_params.r)
            },
        r matches Err(e) ==> (exists|res: SimulationResult|
            {
                &&& #[trigger] res.wf()
                &&& simulate_post(
                    args.gas_curve@,
                    args.power_curve@,
                    args.model_params,
                    args.num_paths as int,
                    args.draws@,
                    Ok(res),
                )
                &&& total_npv(res, args.unit_params@, args.model_params.r) is None
                &&& e == ValuationError::NumericDegeneracy
            }) || simulate_post(
            args.gas_curve@,
            args.power_curve@,
            args.model_params,
            args.num_paths as int,
            args.draws@,
            Err(e),
        ),
{
    let prices = match Simulator::simulate(
        &args.gas_curve,
        &args.power_curve,
        &args.model_params,
        args.num_paths,
        &args.draws,
    ) {
        Ok(res) => res,
        Err(e) => {
            return Err(e);
        },
    };
    let rate = args.model_params.r;
    match ProfitCalculator::calculate_profit(&prices, &args.unit_params, &rate) {
        Ok(v) => {
            proof {
                assert(prices.wf());
            }
            Ok(v)
        },
        Err(e) => {
            proof {
                assert(prices.wf());
                assert(prices.spec_num_paths() >= 1);
            }
            Err(e)
        },
    }
}

} // verus!

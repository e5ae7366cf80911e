use tolling_agreement_valuation::data_reader::DataReader;
use tolling_agreement_valuation::fixed::SCALE;
use tolling_agreement_valuation::params::{ModelParameters, UnitParameter};
use tolling_agreement_valuation::services::{
    CalculateProfitArgs, SamplePathsArgs, calculate_profit, sample_paths,
};
use tolling_agreement_valuation::simulator::PathDraws;

fn zero_draws(num_paths: usize, n: usize) -> Vec<PathDraws> {
    (0..num_paths)
        .map(|_| PathDraws {
            gas: vec![0; n],
            power: vec![0; n],
            jump_counts: vec![0; n],
            jump_z: vec![0; n],
        })
        .collect()
}

#[test]
fn sample_paths_returns_the_flat_surface() {
    let n = 24;
    let args = SamplePathsArgs {
        gas_curve: vec![20 * SCALE; n],
        power_curve: vec![25 * SCALE; n],
        model_params: ModelParameters::new(0, 0, 0, 0, 0, 0, 0, 0),
        num_paths: 2,
        draws: zero_draws(2, n),
    };
    let res = sample_paths(args).unwrap();
    assert_eq!(res.num_paths(), 2);
    assert_eq!(res.num_points(), n);
    assert_eq!(res.price(1, 0, 5), 20 * SCALE);
    assert_eq!(res.price(1, 1, 5), 25 * SCALE);
}

#[test]
fn calculate_profit_runs_the_whole_pipeline() {
    let n = 48;
    let args = CalculateProfitArgs {
        gas_curve: vec![20 * SCALE; n],
        power_curve: vec![25 * SCALE; n],
        model_params: ModelParameters::new(0, 0, 0, 0, 0, 0, 0, 0),
        unit_params: vec![UnitParameter::new(100_000, 10 * SCALE, 0)],
        num_paths: 1,
        draws: zero_draws(1, n),
    };
    assert_eq!(calculate_profit(args).unwrap(), 11_040 * SCALE);
}

#[test]
fn data_reader_records_the_input_locations() {
    let reader = DataReader::new("gas.csv", "power.csv", "model.json", "units.json");
    assert_eq!(reader.gas_forward_curve_path, "gas.csv");
    assert_eq!(reader.power_forward_curve_path, "power.csv");
    assert_eq!(reader.model_parameter_path, "model.json");
    assert_eq!(reader.unit_parameter_path, Some("units.json".to_owned()));

    let slim = DataReader::new_without_unit("gas.csv", "power.csv", "model.json");
    assert_eq!(slim.unit_parameter_path, None);
}

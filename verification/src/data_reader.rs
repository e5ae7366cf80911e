//! Where the run's inputs live on disk. The reader itself only records the
//! paths; loading and parsing the files is the collaborators' work, outside
//! the verified core.

use vstd::prelude::*;

verus! {

/// The file locations of the two forward curves, the model parameters and,
/// optionally, the unit parameters.
pub struct DataReader {
    pub gas_forward_curve_path: String,
    pub power_forward_curve_path: String,
    pub model_parameter_path: String,
    pub unit_parameter_path: Option<String>,
}

impl DataReader {
    pub fn new(gas_path: &str, power_path: &str, model_path: &str, unit_path: &str) -> (r: Self)
        ensures
            r.gas_forward_curve_path@ == gas_path@,
            r.power_forward_curve_path@ == power_path@,
            r.model_parameter_path@ == model_path@,
            r.unit_parameter_path matches Some(u) && u@ == unit_path@,
    {
        DataReader {
            gas_forward_curve_path: gas_path.to_owned(),
            power_forward_curve_path: power_path.to_owned(),
            model_parameter_path: model_path.to_owned(),
            unit_parameter_path: Some(unit_path.to_owned()),
        }
    }

    pub fn new_without_unit(gas_path: &str, power_path: &str, model_path: &str) -> (r: Self)
        ensures
            r.gas_forward_curve_path@ == gas_path@,
            r.power_forward_curve_path@ == power_path@,
            r.model_parameter_path@ == model_path@,
            r.unit_parameter_path is None,
    {
        DataReader {
            gas_forward_curve_path: gas_path.to_owned(),
            power_forward_curve_path: power_path.to_owned(),
            model_parameter_path: model_path.to_owned(),
            unit_parameter_path: None,
        }
    }
}

} // verus!

//! Error taxonomy of the valuation core. Every error is fatal to the
//! requested operation; nothing is silently recovered.

use vstd::prelude::*;

verus! {

#[derive(Clone, Copy, Debug, PartialEq, Eq, Structural)]
pub enum ValuationError {
    /// The correlation matrix `[[1, rho], [rho, 1]]` is not positive
    /// semi-definite, i.e. `|rho| > 1`.
    InvalidCorrelation,
    /// The jump intensity `lambda_j` is negative, so `lambda_j * dt` is not a
    /// valid Poisson rate.
    NegativeJumpIntensity,
    /// The gas and power forward curves differ in length.
    CurveLengthMismatch,
    /// A forward curve's length is not a positive multiple of 24 hours.
    CurveLengthNotWholeDays,
    /// `num_paths == 0`: the Monte Carlo average would divide by zero.
    NoPaths,
    /// The supplied random draws do not match the requested number of paths
    /// and time points.
    MalformedDraws,
    /// An intermediate value left the representable fixed-point range.
    NumericDegeneracy,
}

impl ValuationError {
    /// A short description, for callers that print errors.
    pub fn describe(&self) -> (r: &'static str) {
        match self {
            ValuationError::InvalidCorrelation => "correlation must lie in [-1, 1]",
            ValuationError::NegativeJumpIntensity => "jump intensity must be non-negative",
            ValuationError::CurveLengthMismatch => "forward curves must have equal length",
            ValuationError::CurveLengthNotWholeDays => {
                "forward curve length must be a positive multiple of 24"
            },
            ValuationError::NoPaths => "at least one simulation path is required",
            ValuationError::MalformedDraws => "random draws do not match the requested shape",
            ValuationError::NumericDegeneracy => "a value left the representable numeric range",
        }
    }
}

} // verus!

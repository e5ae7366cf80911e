//! Immutable model and facility inputs, in fixed point.

use vstd::prelude::*;
use crate::fixed::in_range;

verus! {

/// Parameters of the two-factor risk-neutral price model. Every field is a
/// fixed-point value (a multiple of `1 / SCALE`).
#[derive(Clone, Copy, Debug, PartialEq, Eq, Structural)]
pub struct ModelParameters {
    /// Gas volatility.
    pub sigma_g: i64,
    /// Power volatility.
    pub sigma_p: i64,
    /// Mean-reversion speed of the power log-deviation.
    pub kappa: i64,
    /// Jump intensity, in jumps per day.
    pub lambda_j: i64,
    /// Mean jump size.
    pub mu_j: i64,
    /// Jump size standard deviation.
    pub sigma_j: i64,
    /// Gas-power correlation; meaningful only in [-1, 1].
    pub rho: i64,
    /// Risk-free interest rate.
    pub r: i64,
}

impl ModelParameters {
    /// All fields representable.
    pub open spec fn wf(&self) -> bool {
        &&& in_range(self.sigma_g as int)
        &&& in_range(self.sigma_p as int)
        &&& in_range(self.kappa as int)
        &&& in_range(self.lambda_j as int)
        &&& in_range(self.mu_j as int)
        &&& in_range(self.sigma_j as int)
        &&& in_range(self.rho as int)
        &&& in_range(self.r as int)
    }

    pub fn new(
        sigma_g: i64,
        sigma_p: i64,
        kappa: i64,
        lambda_j: i64,
        mu_j: i64,
        sigma_j: i64,
        rho: i64,
        r: i64,
    ) -> (result: Self)
        requires
            in_range(sigma_g as int),
            in_range(sigma_p as int),
            in_range(kappa as int),
            in_range(lambda_j as int),
            in_range(mu_j as int),
            in_range(sigma_j as int),
            in_range(rho as int),
            in_range(r as int),
        ensures
            result == (ModelParameters { sigma_g, sigma_p, kappa, lambda_j, mu_j, sigma_j, rho, r }),
            result.wf(),
    {
        ModelParameters { sigma_g, sigma_p, kappa, lambda_j, mu_j, sigma_j, rho, r }
    }
}

/// One dispatchable generation unit of the facility.
#[derive(Clone, Copy, Debug, PartialEq, Eq, Structural)]
pub struct UnitParameter {
    /// Fuel needed per unit of power produced.
    pub heat_rate: i64,
    /// Rated output, in MW.
    pub capacity: i64,
    /// Cost of starting the unit up for one day.
    pub start_up_costs: i64,
}

impl UnitParameter {
    /// All fields representable.
    pub open spec fn wf(&self) -> bool {
        &&& in_range(self.heat_rate as int)
        &&& in_range(self.capacity as int)
        &&& in_range(self.start_up_costs as int)
    }

    pub fn new(heat_rate: i64, capacity: i64, start_up_costs: i64) -> (result: Self)
        requires
            in_range(heat_rate as int),
            in_range(capacity as int),
            in_range(start_up_costs as int),
        ensures
            result == (UnitParameter { heat_rate, capacity, start_up_costs }),
            result.wf(),
    {
        UnitParameter { heat_rate, capacity, start_up_costs }
    }
}

/// A forward curve usable by the simulator: hourly prices covering whole days,
/// more than one point, all values representable.
pub open spec fn curve_wf(curve: Seq<i64>) -> bool {
    &&& curve.len() % 24 == 0
    &&& curve.len() >= 24
    &&& curve.len() <= 0x7fff_ffff
    &&& forall|i: int| 0 <= i < curve.len() ==> in_range(#[trigger] curve[i] as int)
}

} // verus!

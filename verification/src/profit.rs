//! Dispatch profit and net present value.
//!
//! Each day a unit either runs all 24 hours or stays off: its gross margin is
//! the hourly spark spread `(power - heat_rate * gas) * capacity` summed over
//! the day, its net is gross minus the start-up costs, and it contributes
//! `max(net, 0)`. Day totals are discounted by `exp(-r * (day+1)/365)` and
//! accumulated per path; the NPV estimate is the average over paths. Every
//! arithmetic step is checked.

use vstd::prelude::*;
use rayon::iter::{IntoParallelIterator, ParallelIterator};
use crate::errors::ValuationError;
use crate::exp::{exp_fp, exp_spec};
use crate::fixed::{
    in_range, tdiv, spec_add, spec_mul, spec_mul_int, fp_add, fp_mul, fp_mul_int, fp_sub,
    fp_div_int, lemma_tdiv_magnitude,
};
use crate::params::UnitParameter;
use crate::simulation_result::SimulationResult;

verus! {

/// Checked sum of a sequence of checked terms: undefined as soon as one term
/// or one partial sum is.
pub open spec fn checked_sum(terms: Seq<Option<i64>>) -> Option<i64>
    decreases terms.len(),
{
    if terms.len() == 0 {
        Option::Some(0i64)
    } else {
        match checked_sum(terms.drop_last()) {
            Option::None => Option::None,
            Option::Some(a) => match terms.last() {
                Option::None => Option::None,
                Option::Some(v) => spec_add(a as int, v as int),
            },
        }
    }
}

/// A sum with an undefined term is undefined.
pub proof fn lemma_checked_sum_none(terms: Seq<Option<i64>>, i: int)
    requires
        0 <= i < terms.len(),
        terms[i] is None,
    ensures
        checked_sum(terms) is None,
    decreases terms.len(),
{
    if terms.len() > 0 {
        if i == terms.len() - 1 {
        } else {
            lemma_checked_sum_none(terms.drop_last(), i);
        }
    }
}

/// A defined sum is itself representable.
pub proof fn lemma_checked_sum_in_range(terms: Seq<Option<i64>>)
    requires
        checked_sum(terms) is Some,
    ensures
        in_range(checked_sum(terms)->Some_0 as int),
    decreases terms.len(),
{
    if terms.len() > 0 {
        lemma_checked_sum_in_range(terms.drop_last());
    }
}

/// In a defined sum every term is defined.
pub proof fn lemma_checked_sum_some(terms: Seq<Option<i64>>, i: int)
    requires
        0 <= i < terms.len(),
        checked_sum(terms) is Some,
    ensures
        terms[i] is Some,
    decreases terms.len(),
{
    if i < terms.len() - 1 {
        lemma_checked_sum_some(terms.drop_last(), i);
    }
}

/// Raising terms cannot lower a defined sum.
pub proof fn lemma_checked_sum_monotone(t1: Seq<Option<i64>>, t2: Seq<Option<i64>>)
    requires
        t1.len() == t2.len(),
        checked_sum(t1) is Some,
        checked_sum(t2) is Some,
        forall|i: int|
            0 <= i < t1.len() ==> (#[trigger] t1[i])->Some_0 <= (#[trigger] t2[i])->Some_0,
    ensures
        checked_sum(t1)->Some_0 <= checked_sum(t2)->Some_0,
    decreases t1.len(),
{
    if t1.len() > 0 {
        lemma_checked_sum_monotone(t1.drop_last(), t2.drop_last());
        lemma_checked_sum_some(t1, t1.len() - 1);
        lemma_checked_sum_some(t2, t2.len() - 1);
    }
}

/// A term that is exactly zero neither changes the sum nor whether it is
/// defined.
pub proof fn lemma_checked_sum_skip_zero(terms: Seq<Option<i64>>, k: int)
    requires
        0 <= k < terms.len(),
        terms[k] == Some(0i64),
    ensures
        checked_sum(terms) == checked_sum(terms.remove(k)),
    decreases terms.len(),
{
    if k == terms.len() - 1 {
        assert(terms.remove(k) =~= terms.drop_last());
        if checked_sum(terms.drop_last()) is Some {
            lemma_checked_sum_in_range(terms.drop_last());
        }
    } else {
        assert(terms.drop_last().remove(k) =~= terms.remove(k).drop_last());
        lemma_checked_sum_skip_zero(terms.drop_last(), k);
        assert(terms.remove(k).last() == terms.last());
    }
}

/// The discount factor of a (zero-indexed) day: `exp(-r * (day+1)/365)`,
/// discounting to the end of the day.
pub open spec fn discount_factor(r: i64, day: int) -> Option<i64> {
    match spec_mul_int(r as int, day + 1) {
        Option::None => Option::None,
        Option::Some(x) => match exp_spec(-tdiv(x as int, 365)) {
            Option::None => Option::None,
            Option::Some(e) => Option::Some(e as i64),
        },
    }
}

/// One unit's margin in one hour: `(power - heat_rate * gas) * capacity`.
pub open spec fn unit_hour(res: SimulationResult, u: UnitParameter, path: int, h: int) -> Option<
    i64,
> {
    match spec_mul(u.heat_rate as int, res.price_spec(path, 0, h) as int) {
        Option::None => Option::None,
        Option::Some(fuel) => match spec_add(res.price_spec(path, 1, h) as int, -(fuel as int)) {
            Option::None => Option::None,
            Option::Some(margin) => spec_mul(margin as int, u.capacity as int),
        },
    }
}

/// One unit's 24 hourly margins of one day.
pub open spec fn hour_terms(res: SimulationResult, u: UnitParameter, path: int, day: int) -> Seq<
    Option<i64>,
> {
    Seq::new(24, |h: int| unit_hour(res, u, path, day * 24 + h))
}

/// One unit's gross dispatch profit for one day.
pub open spec fn unit_day_gross(res: SimulationResult, u: UnitParameter, path: int, day: int) -> Option<
    i64,
> {
    checked_sum(hour_terms(res, u, path, day))
}

/// One unit's contribution to one day: `max(gross - start_up_costs, 0)` —
/// the unit runs that day only if its net profit is non-negative.
pub open spec fn unit_day_profit(res: SimulationResult, u: UnitParameter, path: int, day: int) -> Option<
    i64,
> {
    match unit_day_gross(res, u, path, day) {
        Option::None => Option::None,
        Option::Some(g) => match spec_add(g as int, -(u.start_up_costs as int)) {
            Option::None => Option::None,
            Option::Some(net) => Option::Some(
                if net > 0 {
                    net
                } else {
                    0i64
                },
            ),
        },
    }
}

/// All units' contributions to one day.
pub open spec fn unit_terms(
    res: SimulationResult,
    units: Seq<UnitParameter>,
    path: int,
    day: int,
) -> Seq<Option<i64>> {
    Seq::new(units.len(), |j: int| unit_day_profit(res, units[j], path, day))
}

/// The facility's total profit for one day.
pub open spec fn day_profit(
    res: SimulationResult,
    units: Seq<UnitParameter>,
    path: int,
    day: int,
) -> Option<i64> {
    checked_sum(unit_terms(res, units, path, day))
}

/// Each day's discounted facility profit along one path.
pub open spec fn day_terms(
    res: SimulationResult,
    units: Seq<UnitParameter>,
    r: i64,
    path: int,
    n_days: int,
) -> Seq<Option<i64>> {
    Seq::new(
        n_days as nat,
        |d: int|
            match (day_profit(res, units, path, d), discount_factor(r, d)) {
                (Option::Some(a), Option::Some(f)) => spec_mul(a as int, f as int),
                _ => Option::None,
            },
    )
}

/// One path's discounted cash-flow total.
pub open spec fn path_npv(
    res: SimulationResult,
    units: Seq<UnitParameter>,
    r: i64,
    path: int,
    n_days: int,
) -> Option<i64> {
    checked_sum(day_terms(res, units, r, path, n_days))
}

/// The sum of all paths' totals.
pub open spec fn total_npv(res: SimulationResult, units: Seq<UnitParameter>, r: i64) -> Option<
    i64,
> {
    checked_sum(
        Seq::new(
            res.spec_num_paths() as nat,
            |p: int| path_npv(res, units, r, p, res.spec_num_points() / 24),
        ),
    )
}

/// The NPV estimate: the average of the per-path totals.
pub open spec fn npv_spec(res: SimulationResult, units: Seq<UnitParameter>, r: i64) -> Option<
    i64,
> {
    if res.spec_num_paths() == 0 {
        Option::None
    } else {
        match total_npv(res, units, r) {
            Option::None => Option::None,
            Option::Some(t) => Option::Some(tdiv(t as int, res.spec_num_paths()) as i64),
        }
    }
}

/// Consumes the simulated price surface and produces the expected NPV.
pub struct ProfitCalculator;

impl ProfitCalculator {
    /// One unit's contribution to one day on one path, mirroring
    /// `unit_day_profit`.
    fn unit_day(res: &SimulationResult, u: &UnitParameter, path: usize, day: usize) -> (r: Option<
        i64,
    >)
        requires
            res.wf(),
            u.wf(),
            path < res.spec_num_paths(),
            (day + 1) * 24 <= res.spec_num_points(),
        ensures
            r == unit_day_profit(*res, *u, path as int, day as int),
    {
        let ghost terms = hour_terms(*res, *u, path as int, day as int);
        let mut gross: i64 = 0;
        let mut h: usize = 0;
        while h < 24
            invariant
                res.wf(),
                u.wf(),
                path < res.spec_num_paths(),
                (day + 1) * 24 <= res.spec_num_points(),
                terms == hour_terms(*res, *u, path as int, day as int),
                h <= 24,
                Some(gross) == checked_sum(terms.subrange(0, h as int)),
                in_range(gross as int),
            decreases 24 - h,
        {
            proof {
                res.lemma_wf_dims();
            }
            let hour = day * 24 + h;
            let gas = res.price(path, 0, hour);
            let power = res.price(path, 1, hour);
            let fuel = match fp_mul(u.heat_rate, gas) {
                Option::Some(v) => v,
                Option::None => {
                    proof {
                        lemma_checked_sum_none(terms, h as int);
                    }
                    return None;
                },
            };
            let margin = match fp_sub(power, fuel) {
                Option::Some(v) => v,
                Option::None => {
                    proof {
                        lemma_checked_sum_none(terms, h as int);
                    }
                    return None;
                },
            };
            let hour_gain = match fp_mul(margin, u.capacity) {
                Option::Some(v) => v,
                Option::None => {
                    proof {
                        lemma_checked_sum_none(terms, h as int);
                    }
                    return None;
                },
            };
            let next = match fp_add(gross, hour_gain) {
                Option::Some(v) => v,
                Option::None => {
                    proof {
                        assert(terms.subrange(0, h + 1).drop_last() =~= terms.subrange(0, h as int));
                        lemma_sum_extend_none(terms, h as int);
                    }
                    return None;
                },
            };
            proof {
                assert(terms.subrange(0, h + 1).drop_last() =~= terms.subrange(0, h as int));
            }
            gross = next;
            h = h + 1;
        }
        proof {
            assert(terms.subrange(0, 24) =~= terms);
        }
        let net = match fp_sub(gross, u.start_up_costs) {
            Option::Some(v) => v,
            Option::None => {
                return None;
            },
        };
        if net > 0 {
            Some(net)
        } else {
            Some(0)
        }
    }

    /// The facility's profit for one day on one path, mirroring `day_profit`.
    fn facility_day(
        res: &SimulationResult,
        units: &Vec<UnitParameter>,
        path: usize,
        day: usize,
    ) -> (r: Option<i64>)
        requires
            res.wf(),
            forall|j: int| 0 <= j < units@.len() ==> (#[trigger] units@[j]).wf(),
            path < res.spec_num_paths(),
            (day + 1) * 24 <= res.spec_num_points(),
        ensures
            r == day_profit(*res, units@, path as int, day as int),
    {
        let ghost terms = unit_terms(*res, units@, path as int, day as int);
        let mut daily: i64 = 0;
        let mut j: usize = 0;
        let n_units = units.len();
        while j < n_units
            invariant
                res.wf(),
                forall|k: int| 0 <= k < units@.len() ==> (#[trigger] units@[k]).wf(),
                path < res.spec_num_paths(),
                (day + 1) * 24 <= res.spec_num_points(),
                n_units == units@.len(),
                terms == unit_terms(*res, units@, path as int, day as int),
                j <= n_units,
                Some(daily) == checked_sum(terms.subrange(0, j as int)),
                in_range(daily as int),
            decreases n_units - j,
        {
            let hour_gain = match Self::unit_day(res, &units[j], path, day) {
                Option::Some(v) => v,
                Option::None => {
                    proof {
                        lemma_checked_sum_none(terms, j as int);
                    }
                    return None;
                },
            };
            let next = match fp_add(daily, hour_gain) {
                Option::Some(v) => v,
                Option::None => {
                    proof {
                        assert(terms.subrange(0, j + 1).drop_last() =~= terms.subrange(0, j as int));
                        lemma_sum_extend_none(terms, j as int);
                    }
                    return None;
                },
            };
            proof {
                assert(terms.subrange(0, j + 1).drop_last() =~= terms.subrange(0, j as int));
            }
            daily = next;
            j = j + 1;
        }
        proof {
            assert(terms.subrange(0, terms.len() as int) =~= terms);
        }
        Some(daily)
    }

    /// One path's discounted cash-flow total, over precomputed discount
    /// factors, mirroring `path_npv`.
    fn path_value(
        res: &SimulationResult,
        units: &Vec<UnitParameter>,
        r: i64,
        dfs: &Vec<i64>,
        path: usize,
    ) -> (out: Option<i64>)
        requires
            res.wf(),
            forall|j: int| 0 <= j < units@.len() ==> (#[trigger] units@[j]).wf(),
            path < res.spec_num_paths(),
            dfs@.len() == res.spec_num_points() / 24,
            forall|d: int|
                0 <= d < dfs@.len() ==> Some(#[trigger] dfs@[d]) == discount_factor(r, d),
            forall|d: int| 0 <= d < dfs@.len() ==> in_range(#[trigger] dfs@[d] as int),
        ensures
            out == path_npv(*res, units@, r, path as int, res.spec_num_points() / 24),
    {
        let n_days = res.num_points() / 24;
        let ghost terms = day_terms(*res, units@, r, path as int, n_days as int);
        proof {
            res.lemma_wf_dims();
            vstd::arithmetic::div_mod::lemma_fundamental_div_mod(res.spec_num_points(), 24);
        }
        let mut acc: i64 = 0;
        let mut day: usize = 0;
        while day < n_days
            invariant
                res.wf(),
                forall|k: int| 0 <= k < units@.len() ==> (#[trigger] units@[k]).wf(),
                path < res.spec_num_paths(),
                n_days == res.spec_num_points() / 24,
                n_days * 24 == res.spec_num_points(),
                dfs@.len() == n_days,
                forall|d: int|
                    0 <= d < dfs@.len() ==> Some(#[trigger] dfs@[d]) == discount_factor(r, d),
                forall|d: int| 0 <= d < dfs@.len() ==> in_range(#[trigger] dfs@[d] as int),
                terms == day_terms(*res, units@, r, path as int, n_days as int),
                day <= n_days,
                Some(acc) == checked_sum(terms.subrange(0, day as int)),
                in_range(acc as int),
            decreases n_days - day,
        {
            proof {
                assert((day + 1) * 24 <= n_days * 24) by (nonlinear_arith)
                    requires
                        day < n_days,
                ;
            }
            let daily = match Self::facility_day(res, units, path, day) {
                Option::Some(v) => v,
                Option::None => {
                    proof {
                        lemma_checked_sum_none(terms, day as int);
                    }
                    return None;
                },
            };
            let discounted = match fp_mul(daily, dfs[day]) {
                Option::Some(v) => v,
                Option::None => {
                    proof {
                        lemma_checked_sum_none(terms, day as int);
                    }
                    return None;
                },
            };
            let next = match fp_add(acc, discounted) {
                Option::Some(v) => v,
                Option::None => {
                    proof {
                        assert(terms.subrange(0, day + 1).drop_last() =~= terms.subrange(
                            0,
                            day as int,
                        ));
                        lemma_sum_extend_none(terms, day as int);
                    }
                    return None;
                },
            };
            proof {
                assert(terms.subrange(0, day + 1).drop_last() =~= terms.subrange(0, day as int));
            }
            acc = next;
            day = day + 1;
        }
        proof {
            assert(terms.subrange(0, terms.len() as int) =~= terms);
        }
        Some(acc)
    }

    /// Relies on rayon's `into_par_iter().map(..).collect()` on a range: it
    /// applies the closure once per path index and collects one result per
    /// index in order, exactly as the sequential map would. The closure only
    /// calls `path_value`, whose contract is verified; the paths read shared
    /// immutable data and write nothing shared, so the parallel schedule
    /// cannot change any result.
    #[verifier::external_body]
    fn path_values_parallel(
        res: &SimulationResult,
        units: &Vec<UnitParameter>,
        r: i64,
        dfs: &Vec<i64>,
    ) -> (out: Vec<Option<i64>>)
        requires
            res.wf(),
            forall|j: int| 0 <= j < units@.len() ==> (#[trigger] units@[j]).wf(),
            dfs@.len() == res.spec_num_points() / 24,
            forall|d: int|
                0 <= d < dfs@.len() ==> Some(#[trigger] dfs@[d]) == discount_factor(r, d),
            forall|d: int| 0 <= d < dfs@.len() ==> in_range(#[trigger] dfs@[d] as int),
        ensures
            out@.len() == res.spec_num_paths(),
            forall|p: int|
                0 <= p < res.spec_num_paths() ==> #[trigger] out@[p] == path_npv(
                    *res,
                    units@,
                    r,
                    p,
                    res.spec_num_points() / 24,
                ),
    {
        (0..res.num_paths())
            .into_par_iter()
            .map(|p| Self::path_value(res, units, r, dfs, p))
            .collect()
    }

    /// The expected NPV of the facility over the simulated price surface.
    ///
    /// Rejects an empty surface (`num_paths == 0`) before any reduction;
    /// otherwise fails exactly when some checked arithmetic step of the
    /// reduction is undefined. With no units the NPV is zero.
    #[verifier::rlimit(50)]
    pub fn calculate_profit(
        simulation_result: &SimulationResult,
        unit_parameters: &Vec<UnitParameter>,
        interest_rate: &i64,
    ) -> (r: Result<i64, ValuationError>)
        requires
            simulation_result.wf(),
            forall|j: int|
                0 <= j < unit_parameters@.len() ==> (#[trigger] unit_parameters@[j]).wf(),
            in_range(*interest_rate as int),
        ensures
            simulation_result.spec_num_paths() == 0 ==> r == Err::<i64, ValuationError>(
                ValuationError::NoPaths,
            ),
            simulation_result.spec_num_paths() >= 1 ==> {
                &&& (r is Ok <==> total_npv(*simulation_result, unit_parameters@, *interest_rate)
                    is Some)
                &&& (r matches Err(e) ==> e == ValuationError::NumericDegeneracy)
                &&& (r matches Ok(v) ==> Some(v) == npv_spec(
                    *simulation_result,
                    unit_parameters@,
                    *interest_rate,
                ))
            },
    {
        let num_paths = simulation_result.num_paths();
        if num_paths == 0 {
            return Err(ValuationError::NoPaths);
        }
        let n_days = simulation_result.num_points() / 24;
        proof {
            simulation_result.lemma_wf_dims();
            vstd::arithmetic::div_mod::lemma_fundamental_div_mod(
                simulation_result.spec_num_points(),
                24,
            );
        }
        let ghost res = *simulation_result;
        let ghost path_terms = Seq::new(
            res.spec_num_paths() as nat,
            |p: int| path_npv(res, unit_parameters@, *interest_rate, p, res.spec_num_points() / 24),
        );
        // Discount factors depend only on the rate and the day, so they are
        // computed once and reused across paths.
        let mut dfs: Vec<i64> = Vec::new();
        let mut day: usize = 0;
        while day < n_days
            invariant
                simulation_result.wf(),
                forall|j: int|
                    0 <= j < unit_parameters@.len() ==> (#[trigger] unit_parameters@[j]).wf(),
                in_range(*interest_rate as int),
                n_days == res.spec_num_points() / 24,
                n_days * 24 == res.spec_num_points(),
                res == *simulation_result,
                num_paths == res.spec_num_paths(),
                num_paths >= 1,
                path_terms == Seq::new(
                    res.spec_num_paths() as nat,
                    |q: int|
                        path_npv(
                            res,
                            unit_parameters@,
                            *interest_rate,
                            q,
                            res.spec_num_points() / 24,
                        ),
                ),
                day <= n_days,
                dfs@.len() == day,
                forall|d: int|
                    0 <= d < day ==> Some(#[trigger] dfs@[d]) == discount_factor(*interest_rate, d),
                forall|d: int| 0 <= d < dfs@.len() ==> in_range(#[trigger] dfs@[d] as int),
            decreases n_days - day,
        {
            proof {
                simulation_result.lemma_wf_dims();
            }
            let scaled = match fp_mul_int(*interest_rate, (day + 1) as i64) {
                Option::Some(v) => v,
                Option::None => {
                    proof {
                        lemma_day_term_none(
                            res,
                            unit_parameters@,
                            *interest_rate,
                            day as int,
                            n_days as int,
                        );
                        lemma_checked_sum_none(path_terms, 0);
                    }
                    return Err(ValuationError::NumericDegeneracy);
                },
            };
            proof {
                lemma_tdiv_magnitude(scaled as int, 365);
            }
            let df = match exp_fp(-fp_div_int(scaled, 365)) {
                Option::Some(v) => v,
                Option::None => {
                    proof {
                        lemma_day_term_none(
                            res,
                            unit_parameters@,
                            *interest_rate,
                            day as int,
                            n_days as int,
                        );
                        lemma_checked_sum_none(path_terms, 0);
                    }
                    return Err(ValuationError::NumericDegeneracy);
                },
            };
            dfs.push(df);
            day = day + 1;
        }
        let values = Self::path_values_parallel(simulation_result, unit_parameters, *interest_rate, &dfs);
        let mut total: i64 = 0;
        let mut p: usize = 0;
        while p < num_paths
            invariant
                values@.len() == num_paths,
                forall|q: int|
                    0 <= q < num_paths ==> #[trigger] values@[q] == path_npv(
                        res,
                        unit_parameters@,
                        *interest_rate,
                        q,
                        res.spec_num_points() / 24,
                    ),
                simulation_result.wf(),
                forall|j: int|
                    0 <= j < unit_parameters@.len() ==> (#[trigger] unit_parameters@[j]).wf(),
                in_range(*interest_rate as int),
                num_paths == res.spec_num_paths(),
                num_paths >= 1,
                n_days == res.spec_num_points() / 24,
                res == *simulation_result,
                dfs@.len() == n_days,
                forall|d: int|
                    0 <= d < dfs@.len() ==> Some(#[trigger] dfs@[d]) == discount_factor(
                        *interest_rate,
                        d,
                    ),
                forall|d: int| 0 <= d < dfs@.len() ==> in_range(#[trigger] dfs@[d] as int),
                path_terms == Seq::new(
                    res.spec_num_paths() as nat,
                    |q: int|
                        path_npv(
                            res,
                            unit_parameters@,
                            *interest_rate,
                            q,
                            res.spec_num_points() / 24,
                        ),
                ),
                p <= num_paths,
                Some(total) == checked_sum(path_terms.subrange(0, p as int)),
                in_range(total as int),
            decreases num_paths - p,
        {
            let value = match values[p] {
                Option::Some(v) => v,
                Option::None => {
                    proof {
                        lemma_checked_sum_none(path_terms, p as int);
                    }
                    return Err(ValuationError::NumericDegeneracy);
                },
            };
            let next = match fp_add(total, value) {
                Option::Some(v) => v,
                Option::None => {
                    proof {
                        assert(path_terms.subrange(0, p + 1).drop_last() =~= path_terms.subrange(
                            0,
                            p as int,
                        ));
                        lemma_sum_extend_none(path_terms, p as int);
                    }
                    return Err(ValuationError::NumericDegeneracy);
                },
            };
            proof {
                assert(path_terms.subrange(0, p + 1).drop_last() =~= path_terms.subrange(
                    0,
                    p as int,
                ));
            }
            total = next;
            p = p + 1;
        }
        proof {
            simulation_result.lemma_wf_dims();
            assert(path_terms.subrange(0, path_terms.len() as int) =~= path_terms);
            lemma_tdiv_magnitude(total as int, num_paths as int);
        }
        Ok(fp_div_int(total, num_paths as i64))
    }
}

/// If the terms through `i` sum to a defined value but adding term `i`'s
/// value overflows, every longer prefix is undefined.
proof fn lemma_sum_extend_none(terms: Seq<Option<i64>>, i: int)
    requires
        0 <= i < terms.len(),
        checked_sum(terms.subrange(0, i + 1)) is None,
    ensures
        checked_sum(terms) is None,
    decreases terms.len() - i,
{
    if i + 1 == terms.len() {
        assert(terms.subrange(0, i + 1) =~= terms);
    } else {
        assert(terms.subrange(0, i + 2).drop_last() =~= terms.subrange(0, i + 1));
        lemma_sum_extend_none(terms, i + 1);
    }
}

/// If one day's discounted term is undefined, every path's total is.
proof fn lemma_day_term_none(
    res: SimulationResult,
    units: Seq<UnitParameter>,
    r: i64,
    day: int,
    n_days: int,
)
    requires
        0 <= day < n_days,
        discount_factor(r, day) is None,
    ensures
        forall|p: int| #[trigger] path_npv(res, units, r, p, n_days) is None,
{
    assert forall|p: int| #[trigger] path_npv(res, units, r, p, n_days) is None by {
        assert(day_terms(res, units, r, p, n_days)[day] is None);
        lemma_checked_sum_none(day_terms(res, units, r, p, n_days), day);
    };
}

} // verus!

//! Laws of the library, stated over its spec functions and proved for all
//! inputs they admit.

use vstd::prelude::*;
use crate::exp::{exp_spec, lemma_exp_nonneg, lemma_exp_zero};
use crate::fixed::{
    SCALE, in_range, tdiv, spec_add, spec_mul, spec_mul_int, lemma_mul_full_one,
    lemma_mul_full_monotone, lemma_mul_full_neg_one, lemma_mul_full_zero, lemma_mul_full_contract,
    lemma_tdiv_magnitude, lemma_tdiv_monotone,
};
use crate::gbm::{gbm_point, gbm_drift, gbm_dt, gbm_dt_sqrt, gbm_time, wiener_val,
    lemma_wiener_in_range};
use crate::jump::{ou_val, jump_value, jump_compensator, jdp_point, jdp_dt, jdp_dt_sqrt};
use crate::noise::{
    corr_elem, mixed_row, mixed_row_ok, zeroed_row, chol_l22, lemma_chol_l22_exact,
};
use crate::params::{ModelParameters, UnitParameter};
use crate::profit::{
    checked_sum, day_profit, day_terms, discount_factor, hour_terms, npv_spec, path_npv,
    total_npv, unit_day_gross, unit_day_profit, unit_hour, unit_terms,
    lemma_checked_sum_in_range, lemma_checked_sum_monotone, lemma_checked_sum_skip_zero,
    lemma_checked_sum_some,
};
use crate::simulation_result::SimulationResult;
use crate::simulator::{PathDraws, simulate_post};
use crate::sqrt::lemma_fp_sqrt_le_one;

verus! {

/// With zero correlation the Cholesky mixing is the identity: the power row
/// of innovations is exactly the independent second draw stream, untouched by
/// the gas stream.
pub proof fn law_zero_correlation(zg: Seq<i64>, zp: Seq<i64>)
    requires
        zg.len() == zp.len(),
        zg.len() >= 1,
        forall|i: int| 0 <= i < zg.len() ==> in_range(#[trigger] zg[i] as int),
        forall|i: int| 0 <= i < zp.len() ==> in_range(#[trigger] zp[i] as int),
    ensures
        chol_l22(0) == SCALE as int,
        mixed_row_ok(0i64, SCALE, zg, zp),
        mixed_row(0i64, SCALE, zg, zp) == zeroed_row(zp),
{
    lemma_chol_l22_exact(0);
    assert forall|i: int| 1 <= i < zg.len() implies #[trigger] corr_elem(0, SCALE as int, zg[i], zp[i])
        == Some(zp[i]) by {
        lemma_mul_full_zero(zg[i] as int);
        lemma_mul_full_one(zp[i] as int);
    };
    assert forall|i: int| 0 <= i < zg.len() implies mixed_row(0i64, SCALE, zg, zp)[i]
        == zeroed_row(zp)[i] by {
        if i >= 1 {
            assert(corr_elem(0, SCALE as int, zg[i], zp[i]) == Some(zp[i]));
        }
    };
    assert(mixed_row(0i64, SCALE, zg, zp) =~= zeroed_row(zp));
}

/// With perfect correlation the mixed row is exactly the first draw stream,
/// and with perfect anticorrelation exactly its negation, entry by entry.
pub proof fn law_perfect_correlation(zg: Seq<i64>, zp: Seq<i64>)
    requires
        zg.len() == zp.len(),
        zg.len() >= 1,
        forall|i: int| 0 <= i < zg.len() ==> in_range(#[trigger] zg[i] as int),
        forall|i: int| 0 <= i < zp.len() ==> in_range(#[trigger] zp[i] as int),
    ensures
        chol_l22(SCALE as int) == 0,
        chol_l22(-(SCALE as int)) == 0,
        mixed_row_ok(SCALE, 0i64, zg, zp),
        mixed_row_ok((-SCALE) as i64, 0i64, zg, zp),
        mixed_row(SCALE, 0i64, zg, zp) == zeroed_row(zg),
        forall|i: int|
            0 <= i < zg.len() ==> (#[trigger] mixed_row((-SCALE) as i64, 0i64, zg, zp)[i]) as int == (
            if i == 0 {
                0
            } else {
                -(zg[i] as int)
            }),
{
    lemma_chol_l22_exact(SCALE as int);
    lemma_chol_l22_exact(-(SCALE as int));
    assert forall|i: int| 1 <= i < zg.len() implies #[trigger] corr_elem(
        SCALE as int,
        0,
        zg[i],
        zp[i],
    ) == Some(zg[i]) by {
        lemma_mul_full_one(zg[i] as int);
        lemma_mul_full_zero(zp[i] as int);
    };
    assert forall|i: int| 1 <= i < zg.len() implies corr_elem(-(SCALE as int), 0, zg[i], zp[i])
        == Some((-(zg[i] as int)) as i64) && #[trigger] mixed_row((-SCALE) as i64, 0i64, zg, zp)[i] as int
        == -(zg[i] as int) by {
        lemma_mul_full_neg_one(zg[i] as int);
        lemma_mul_full_zero(zp[i] as int);
    };
    assert forall|i: int| 0 <= i < zg.len() implies mixed_row(SCALE, 0i64, zg, zp)[i]
        == zeroed_row(zg)[i] by {
        if i >= 1 {
            assert(corr_elem(SCALE as int, 0, zg[i], zp[i]) == Some(zg[i]));
        }
    };
    assert(mixed_row(SCALE, 0i64, zg, zp) =~= zeroed_row(zg));
}

/// With zero gas volatility the simulated gas path equals the forward curve
/// exactly at every point, whatever the innovations were.
pub proof fn law_zero_volatility_gas(f: Seq<i64>, eps: Seq<i64>, i: int, n: int)
    requires
        n == f.len(),
        f.len() == eps.len(),
        2 <= n,
        0 <= i < n,
        in_range(f[i] as int),
        forall|k: int| 0 <= k < eps.len() ==> in_range(#[trigger] eps[k] as int),
        wiener_val(eps, i) is Some,
    ensures
        gbm_point(f, 0i64, eps, i, n) == Some(f[i]),
{
    lemma_mul_full_zero(0);
    assert(gbm_drift(0i64) == Some(0int)) by {
        vstd::arithmetic::div_mod::lemma_div_of0(2);
    };
    let w = wiener_val(eps, i)->Some_0;
    lemma_wiener_in_range(eps, i);
    lemma_tdiv_magnitude(SCALE as int, n - 1);
    lemma_fp_sqrt_le_one(gbm_dt(n));
    lemma_mul_full_contract(w as int, gbm_dt_sqrt(n));
    let ws = spec_mul(w as int, gbm_dt_sqrt(n))->Some_0;
    lemma_mul_full_zero(ws as int);
    lemma_mul_full_zero(gbm_time(i, n));
    lemma_exp_zero();
    lemma_mul_full_one(f[i] as int);
}

/// The first point of a gas path whose innovation row starts at zero is the
/// forward price itself: no randomness is applied at the anchor.
pub proof fn law_gbm_anchor(f: Seq<i64>, sigma: i64, eps: Seq<i64>, n: int)
    requires
        n == f.len(),
        f.len() == eps.len(),
        2 <= n,
        eps[0] == 0i64,
        in_range(f[0] as int),
        gbm_drift(sigma) is Some,
    ensures
        gbm_point(f, sigma, eps, 0, n) == Some(f[0]),
{
    let dr = gbm_drift(sigma)->Some_0;
    assert(wiener_val(eps, 0) == Some(0i64));
    lemma_mul_full_zero(gbm_dt_sqrt(n));
    lemma_mul_full_zero(sigma as int);
    assert(gbm_time(0, n) == 0) by {
        vstd::arithmetic::div_mod::lemma_div_of0(n - 1);
    };
    lemma_mul_full_zero(dr);
    lemma_exp_zero();
    lemma_mul_full_one(f[0] as int);
}

/// With zero jump intensity the drift correction, whenever it is defined at
/// all, is exactly zero: nothing is compensated.
pub proof fn law_zero_intensity_compensator(mu_j: i64, sigma_j: i64, n: int)
    ensures
        jump_compensator(0i64, mu_j, sigma_j, n) is Some ==> jump_compensator(
            0i64,
            mu_j,
            sigma_j,
            n,
        ) == Some(0i64),
{
    if jump_compensator(0i64, mu_j, sigma_j, n) is Some {
        match spec_mul(sigma_j as int, sigma_j as int) {
            Option::Some(s2) => {
                match spec_add(mu_j as int, tdiv(s2 as int, 2)) {
                    Option::Some(arg) => {
                        match exp_spec(arg as int) {
                            Option::Some(e) => {
                                lemma_mul_full_zero(jdp_dt(n));
                                lemma_mul_full_zero(e - SCALE as int);
                            },
                            Option::None => {},
                        }
                    },
                    Option::None => {},
                }
            },
            Option::None => {},
        }
    }
}

/// The mean-reverting diffusion alone: the jump-free recurrence
/// `V_t = V_{t-1} - kappa*V_{t-1}*dt + sigma_p*eps_t*sqrt(dt)`, `V_0 = 0`.
pub open spec fn ou_diffusion_val(
    eps: Seq<i64>,
    sigma_p: i64,
    kappa: i64,
    dt: int,
    dt_sqrt: int,
    i: int,
) -> Option<i64>
    decreases i,
{
    if i <= 0 {
        Option::Some(0i64)
    } else {
        match ou_diffusion_val(eps, sigma_p, kappa, dt, dt_sqrt, i - 1) {
            Option::None => Option::None,
            Option::Some(p) => match spec_mul(kappa as int, p as int) {
                Option::None => Option::None,
                Option::Some(kp) => match spec_mul(kp as int, dt) {
                    Option::None => Option::None,
                    Option::Some(decay) => match spec_mul(eps[i] as int, dt_sqrt) {
                        Option::None => Option::None,
                        Option::Some(dw) => match spec_mul(sigma_p as int, dw as int) {
                            Option::None => Option::None,
                            Option::Some(vol) => match spec_add(-(decay as int), vol as int) {
                                Option::None => Option::None,
                                Option::Some(dx) => spec_add(p as int, dx as int),
                            },
                        },
                    },
                },
            },
        }
    }
}

/// With no jumps drawn and a zero drift correction, the log-deviation path is
/// exactly the continuous mean-reverting diffusion, started at zero.
pub proof fn law_no_jumps(
    eps: Seq<i64>,
    counts: Seq<u32>,
    zs: Seq<i64>,
    sigma_p: i64,
    kappa: i64,
    mu_j: i64,
    sigma_j: i64,
    dt: int,
    dt_sqrt: int,
    i: int,
)
    requires
        0 <= i < eps.len(),
        counts.len() == eps.len(),
        forall|k: int| 0 <= k < counts.len() ==> #[trigger] counts[k] == 0u32,
    ensures
        ou_val(eps, counts, zs, sigma_p, kappa, mu_j, sigma_j, 0i64, dt, dt_sqrt, i)
            == ou_diffusion_val(eps, sigma_p, kappa, dt, dt_sqrt, i),
    decreases i,
{
    if i > 0 {
        law_no_jumps(eps, counts, zs, sigma_p, kappa, mu_j, sigma_j, dt, dt_sqrt, i - 1);
        assert(jump_value(counts, zs, mu_j, sigma_j, i) == Some(0i64));
    }
}

/// With zero jump intensity and no jumps drawn, every power price point is
/// the forward price scaled by the exponential of the pure diffusion.
pub proof fn law_no_jumps_prices(
    f: Seq<i64>,
    eps: Seq<i64>,
    counts: Seq<u32>,
    zs: Seq<i64>,
    sigma_p: i64,
    kappa: i64,
    mu_j: i64,
    sigma_j: i64,
    i: int,
    n: int,
)
    requires
        0 <= i < eps.len(),
        counts.len() == eps.len(),
        forall|k: int| 0 <= k < counts.len() ==> #[trigger] counts[k] == 0u32,
        jump_compensator(0i64, mu_j, sigma_j, n) is Some,
    ensures
        jdp_point(f, eps, counts, zs, sigma_p, kappa, 0i64, mu_j, sigma_j, i, n) == (match
            ou_diffusion_val(eps, sigma_p, kappa, jdp_dt(n), jdp_dt_sqrt(n), i) {
            Option::None => Option::None,
            Option::Some(v) => match exp_spec(v as int) {
                Option::None => Option::None,
                Option::Some(e) => spec_mul(f[i] as int, e),
            },
        }),
{
    law_zero_intensity_compensator(mu_j, sigma_j, n);
    law_no_jumps(
        eps,
        counts,
        zs,
        sigma_p,
        kappa,
        mu_j,
        sigma_j,
        jdp_dt(n),
        jdp_dt_sqrt(n),
        i,
    );
}

/// The first point of a power path is the forward price itself: the
/// log-deviation starts at zero, so neither randomness nor jumps apply there.
pub proof fn law_jdp_anchor(
    f: Seq<i64>,
    eps: Seq<i64>,
    counts: Seq<u32>,
    zs: Seq<i64>,
    sigma_p: i64,
    kappa: i64,
    lambda_j: i64,
    mu_j: i64,
    sigma_j: i64,
    n: int,
)
    requires
        f.len() >= 1,
        in_range(f[0] as int),
        jump_compensator(lambda_j, mu_j, sigma_j, n) is Some,
    ensures
        jdp_point(f, eps, counts, zs, sigma_p, kappa, lambda_j, mu_j, sigma_j, 0, n) == Some(f[0]),
{
    lemma_exp_zero();
    lemma_mul_full_one(f[0] as int);
}

/// With a zero interest rate every day's discount factor is exactly one.
pub proof fn law_zero_rate_discount(day: int)
    requires
        day >= 0,
    ensures
        discount_factor(0i64, day) == Some(SCALE),
{
    vstd::arithmetic::mul::lemma_mul_by_zero_is_zero(day + 1);
    vstd::arithmetic::div_mod::lemma_div_of0(365);
    lemma_exp_zero();
}

/// With a zero interest rate each day's discounted term is the day's profit
/// itself, so a path's NPV is its plain, undiscounted sum of daily profits.
pub proof fn law_zero_rate_undiscounted(
    res: SimulationResult,
    units: Seq<UnitParameter>,
    path: int,
    n_days: int,
)
    requires
        n_days >= 0,
    ensures
        forall|d: int|
            0 <= d < n_days ==> #[trigger] day_terms(res, units, 0i64, path, n_days)[d]
                == day_profit(res, units, path, d),
        path_npv(res, units, 0i64, path, n_days) == checked_sum(
            Seq::new(n_days as nat, |d: int| day_profit(res, units, path, d)),
        ),
{
    assert forall|d: int| 0 <= d < n_days implies #[trigger] day_terms(
        res,
        units,
        0i64,
        path,
        n_days,
    )[d] == day_profit(res, units, path, d) by {
        law_zero_rate_discount(d);
        match day_profit(res, units, path, d) {
            Option::Some(a) => {
                lemma_checked_sum_in_range(unit_terms(res, units, path, d));
                lemma_mul_full_one(a as int);
            },
            Option::None => {},
        }
    };
    assert(day_terms(res, units, 0i64, path, n_days) =~= Seq::new(
        n_days as nat,
        |d: int| day_profit(res, units, path, d),
    ));
}

/// Identical inputs give identical surfaces: any two successful simulations
/// of the same curves, parameters and draw streams agree on every price.
pub proof fn law_deterministic_surface(
    gas_curve: Seq<i64>,
    power_curve: Seq<i64>,
    mp: ModelParameters,
    num_paths: int,
    draws: Seq<PathDraws>,
    res1: SimulationResult,
    res2: SimulationResult,
)
    requires
        gas_curve.len() == power_curve.len(),
        gas_curve.len() % 24 == 0,
        gas_curve.len() >= 24,
        num_paths >= 1,
        draws.len() == num_paths,
        -SCALE <= mp.rho <= SCALE,
        mp.lambda_j >= 0,
        simulate_post(gas_curve, power_curve, mp, num_paths, draws, Ok(res1)),
        simulate_post(gas_curve, power_curve, mp, num_paths, draws, Ok(res2)),
    ensures
        res1.spec_num_paths() == res2.spec_num_paths(),
        res1.spec_num_points() == res2.spec_num_points(),
        forall|p: int, a: int, i: int|
            0 <= p < num_paths && 0 <= a < 2 && 0 <= i < gas_curve.len()
                ==> #[trigger] res1.price_spec(p, a, i) == res2.price_spec(p, a, i),
{
    assert forall|p: int, a: int, i: int|
        0 <= p < num_paths && 0 <= a < 2 && 0 <= i < gas_curve.len() implies #[trigger] res1
        .price_spec(p, a, i) == res2.price_spec(p, a, i) by {
        if a == 0 {
            assert(Some(res1.price_spec(p, 0, i)) == Some(res2.price_spec(p, 0, i)));
        } else {
            assert(Some(res1.price_spec(p, 1, i)) == Some(res2.price_spec(p, 1, i)));
        }
    };
}

/// One day, one path: a unit whose clamped contribution is zero that day
/// drops out of the facility's day profit.
proof fn lemma_floor_day(res: SimulationResult, units: Seq<UnitParameter>, k: int, p: int, d: int)
    requires
        0 <= k < units.len(),
        unit_day_profit(res, units[k], p, d) == Some(0i64),
    ensures
        day_profit(res, units, p, d) == day_profit(res, units.remove(k), p, d),
{
    let t1 = unit_terms(res, units, p, d);
    assert(t1[k] == unit_day_profit(res, units[k], p, d));
    lemma_checked_sum_skip_zero(t1, k);
    assert(t1.remove(k) =~= unit_terms(res, units.remove(k), p, d));
}

/// One path: with the unit's contribution zero every day, the path's NPV is
/// unchanged by removing it.
proof fn lemma_floor_path(
    res: SimulationResult,
    units: Seq<UnitParameter>,
    r: i64,
    k: int,
    p: int,
    n_days: int,
)
    requires
        0 <= k < units.len(),
        n_days >= 0,
        forall|d: int| 0 <= d < n_days ==> #[trigger] unit_day_profit(res, units[k], p, d) == Some(
            0i64,
        ),
    ensures
        path_npv(res, units, r, p, n_days) == path_npv(res, units.remove(k), r, p, n_days),
{
    let short = units.remove(k);
    assert forall|d: int|
        0 <= d < n_days implies #[trigger] day_terms(res, units, r, p, n_days)[d] == day_terms(
        res,
        short,
        r,
        p,
        n_days,
    )[d] by {
        lemma_floor_day(res, units, k, p, d);
    };
    assert(day_terms(res, units, r, p, n_days) =~= day_terms(res, short, r, p, n_days));
}

/// A unit whose clamped contribution is zero on every day of every path — its
/// net profit never positive, so it never runs — contributes exactly nothing:
/// the NPV with it equals the NPV without it.
pub proof fn law_dispatch_floor(
    res: SimulationResult,
    units: Seq<UnitParameter>,
    r: i64,
    k: int,
)
    requires
        res.wf(),
        0 <= k < units.len(),
        forall|p: int, d: int|
            0 <= p < res.spec_num_paths() && 0 <= d < res.spec_num_points() / 24
                ==> #[trigger] unit_day_profit(res, units[k], p, d) == Some(0i64),
    ensures
        npv_spec(res, units, r) == npv_spec(res, units.remove(k), r),
        total_npv(res, units, r) == total_npv(res, units.remove(k), r),
{
    res.lemma_wf_dims();
    let n_days = res.spec_num_points() / 24;
    let short = units.remove(k);
    let terms_full = Seq::new(
        res.spec_num_paths() as nat,
        |q: int| path_npv(res, units, r, q, n_days),
    );
    let terms_short = Seq::new(
        res.spec_num_paths() as nat,
        |q: int| path_npv(res, short, r, q, n_days),
    );
    assert forall|p: int| 0 <= p < res.spec_num_paths() implies #[trigger] terms_full[p]
        == terms_short[p] by {
        lemma_floor_path(res, units, r, k, p, n_days);
    };
    assert(terms_full =~= terms_short);
}

/// The hourly spark spread of a given heat rate is defined and non-negative
/// at every hour of one path.
pub open spec fn spreads_nonneg(res: SimulationResult, heat_rate: i64, p: int) -> bool {
    forall|h: int|
        0 <= h < res.spec_num_points() ==> (match spec_mul(
            heat_rate as int,
            (#[trigger] res.price_spec(p, 0, h)) as int,
        ) {
            Option::Some(fuel) => match spec_add(res.price_spec(p, 1, h) as int, -(fuel as int)) {
                Option::Some(m) => m >= 0,
                Option::None => false,
            },
            Option::None => false,
        })
}

/// A defined discount factor is never negative.
proof fn lemma_discount_factor_nonneg(r: i64, d: int)
    requires
        discount_factor(r, d) is Some,
    ensures
        discount_factor(r, d)->Some_0 >= 0,
{
    match spec_mul_int(r as int, d + 1) {
        Option::Some(x) => {
            lemma_exp_nonneg(-tdiv(x as int, 365));
        },
        Option::None => {},
    }
}

/// One hour: with the spread non-negative, a larger capacity earns at least
/// as much.
proof fn lemma_hour_monotone(
    res: SimulationResult,
    u1: UnitParameter,
    u2: UnitParameter,
    p: int,
    h: int,
)
    requires
        u1.heat_rate == u2.heat_rate,
        0 <= u1.capacity <= u2.capacity,
        0 <= h < res.spec_num_points(),
        spreads_nonneg(res, u1.heat_rate, p),
        unit_hour(res, u1, p, h) is Some,
        unit_hour(res, u2, p, h) is Some,
    ensures
        unit_hour(res, u1, p, h)->Some_0 <= unit_hour(res, u2, p, h)->Some_0,
{
    let fuel = spec_mul(u1.heat_rate as int, res.price_spec(p, 0, h) as int)->Some_0;
    let m = spec_add(res.price_spec(p, 1, h) as int, -(fuel as int))->Some_0;
    lemma_mul_full_monotone(u1.capacity as int, u2.capacity as int, m as int);
    vstd::arithmetic::mul::lemma_mul_is_commutative(m as int, u1.capacity as int);
    vstd::arithmetic::mul::lemma_mul_is_commutative(m as int, u2.capacity as int);
}

/// One day: with non-negative spreads, a larger capacity's gross dispatch
/// profit is at least as large.
proof fn lemma_gross_monotone(
    res: SimulationResult,
    u1: UnitParameter,
    u2: UnitParameter,
    p: int,
    d: int,
)
    requires
        u1.heat_rate == u2.heat_rate,
        0 <= u1.capacity <= u2.capacity,
        0 <= d,
        (d + 1) * 24 <= res.spec_num_points(),
        spreads_nonneg(res, u1.heat_rate, p),
        unit_day_gross(res, u1, p, d) is Some,
        unit_day_gross(res, u2, p, d) is Some,
    ensures
        unit_day_gross(res, u1, p, d)->Some_0 <= unit_day_gross(res, u2, p, d)->Some_0,
{
    let t1 = hour_terms(res, u1, p, d);
    let t2 = hour_terms(res, u2, p, d);
    assert forall|i: int| 0 <= i < 24 implies (#[trigger] t1[i])->Some_0 <= (#[trigger] t2[
        i])->Some_0 by {
        lemma_checked_sum_some(t1, i);
        lemma_checked_sum_some(t2, i);
        lemma_hour_monotone(res, u1, u2, p, d * 24 + i);
    };
    lemma_checked_sum_monotone(t1, t2);
}

/// One day: the clamped net contribution is monotone in capacity too.
proof fn lemma_unit_day_monotone(
    res: SimulationResult,
    u1: UnitParameter,
    u2: UnitParameter,
    p: int,
    d: int,
)
    requires
        u1.heat_rate == u2.heat_rate,
        u1.start_up_costs == u2.start_up_costs,
        0 <= u1.capacity <= u2.capacity,
        0 <= d,
        (d + 1) * 24 <= res.spec_num_points(),
        spreads_nonneg(res, u1.heat_rate, p),
        unit_day_profit(res, u1, p, d) is Some,
        unit_day_profit(res, u2, p, d) is Some,
    ensures
        unit_day_profit(res, u1, p, d)->Some_0 <= unit_day_profit(res, u2, p, d)->Some_0,
{
    lemma_gross_monotone(res, u1, u2, p, d);
}

/// One day, whole facility: raising unit `k`'s capacity cannot lower the
/// day's profit.
proof fn lemma_day_monotone(
    res: SimulationResult,
    units1: Seq<UnitParameter>,
    units2: Seq<UnitParameter>,
    k: int,
    p: int,
    d: int,
)
    requires
        0 <= k < units1.len(),
        units2.len() == units1.len(),
        forall|j: int| 0 <= j < units1.len() && j != k ==> units2[j] == units1[j],
        units2[k].heat_rate == units1[k].heat_rate,
        units2[k].start_up_costs == units1[k].start_up_costs,
        0 <= units1[k].capacity <= units2[k].capacity,
        0 <= d,
        (d + 1) * 24 <= res.spec_num_points(),
        spreads_nonneg(res, units1[k].heat_rate, p),
        day_profit(res, units1, p, d) is Some,
        day_profit(res, units2, p, d) is Some,
    ensures
        day_profit(res, units1, p, d)->Some_0 <= day_profit(res, units2, p, d)->Some_0,
{
    let t1 = unit_terms(res, units1, p, d);
    let t2 = unit_terms(res, units2, p, d);
    assert forall|j: int| 0 <= j < t1.len() implies (#[trigger] t1[j])->Some_0 <= (#[trigger] t2[
        j])->Some_0 by {
        lemma_checked_sum_some(t1, j);
        lemma_checked_sum_some(t2, j);
        if j == k {
            lemma_unit_day_monotone(res, units1[k], units2[k], p, d);
        }
    };
    lemma_checked_sum_monotone(t1, t2);
}

/// One path: raising unit `k`'s capacity cannot lower the discounted total.
proof fn lemma_path_monotone(
    res: SimulationResult,
    units1: Seq<UnitParameter>,
    units2: Seq<UnitParameter>,
    k: int,
    r: i64,
    p: int,
)
    requires
        res.wf(),
        0 <= k < units1.len(),
        units2.len() == units1.len(),
        forall|j: int| 0 <= j < units1.len() && j != k ==> units2[j] == units1[j],
        units2[k].heat_rate == units1[k].heat_rate,
        units2[k].start_up_costs == units1[k].start_up_costs,
        0 <= units1[k].capacity <= units2[k].capacity,
        spreads_nonneg(res, units1[k].heat_rate, p),
        path_npv(res, units1, r, p, res.spec_num_points() / 24) is Some,
        path_npv(res, units2, r, p, res.spec_num_points() / 24) is Some,
    ensures
        path_npv(res, units1, r, p, res.spec_num_points() / 24)->Some_0 <= path_npv(
            res,
            units2,
            r,
            p,
            res.spec_num_points() / 24,
        )->Some_0,
{
    res.lemma_wf_dims();
    let n_days = res.spec_num_points() / 24;
    vstd::arithmetic::div_mod::lemma_fundamental_div_mod(res.spec_num_points(), 24);
    let t1 = day_terms(res, units1, r, p, n_days);
    let t2 = day_terms(res, units2, r, p, n_days);
    assert forall|d: int| 0 <= d < t1.len() implies (#[trigger] t1[d])->Some_0 <= (#[trigger] t2[
        d])->Some_0 by {
        lemma_checked_sum_some(t1, d);
        lemma_checked_sum_some(t2, d);
        assert((d + 1) * 24 <= n_days * 24) by (nonlinear_arith)
            requires
                0 <= d < n_days,
        ;
        lemma_day_monotone(res, units1, units2, k, p, d);
        lemma_discount_factor_nonneg(r, d);
        let f = discount_factor(r, d)->Some_0;
        lemma_mul_full_monotone(
            day_profit(res, units1, p, d)->Some_0 as int,
            day_profit(res, units2, p, d)->Some_0 as int,
            f as int,
        );
    };
    lemma_checked_sum_monotone(t1, t2);
}

/// Raising one unit's capacity, with its heat rate and start-up costs fixed
/// and the hourly spark spread non-negative on every path, cannot lower the
/// computed NPV.
pub proof fn law_capacity_monotone(
    res: SimulationResult,
    units1: Seq<UnitParameter>,
    units2: Seq<UnitParameter>,
    r: i64,
    k: int,
)
    requires
        res.wf(),
        0 <= k < units1.len(),
        units2.len() == units1.len(),
        forall|j: int| 0 <= j < units1.len() && j != k ==> units2[j] == units1[j],
        units2[k].heat_rate == units1[k].heat_rate,
        units2[k].start_up_costs == units1[k].start_up_costs,
        0 <= units1[k].capacity <= units2[k].capacity,
        forall|p: int|
            0 <= p < res.spec_num_paths() ==> #[trigger] spreads_nonneg(
                res,
                units1[k].heat_rate,
                p,
            ),
        npv_spec(res, units1, r) is Some,
        npv_spec(res, units2, r) is Some,
    ensures
        npv_spec(res, units1, r)->Some_0 <= npv_spec(res, units2, r)->Some_0,
{
    res.lemma_wf_dims();
    let n_days = res.spec_num_points() / 24;
    let t1 = Seq::new(res.spec_num_paths() as nat, |p: int| path_npv(res, units1, r, p, n_days));
    let t2 = Seq::new(res.spec_num_paths() as nat, |p: int| path_npv(res, units2, r, p, n_days));
    assert forall|p: int| 0 <= p < t1.len() implies (#[trigger] t1[p])->Some_0 <= (#[trigger] t2[
        p])->Some_0 by {
        lemma_checked_sum_some(t1, p);
        lemma_checked_sum_some(t2, p);
        lemma_path_monotone(res, units1, units2, k, r, p);
    };
    lemma_checked_sum_monotone(t1, t2);
    lemma_tdiv_monotone(
        total_npv(res, units1, r)->Some_0 as int,
        total_npv(res, units2, r)->Some_0 as int,
        res.spec_num_paths(),
    );
}

} // verus!

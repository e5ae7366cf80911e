//! Geometric Brownian motion transform for the gas path.
//!
//! A row of correlated standard-normal innovations is accumulated into a
//! Wiener path (cumulative sum), then mapped through the closed-form solution
//! `price[i] = forward[i] * exp(-sigma^2/2 * t_i + sigma * w_i * sqrt(dt))`
//! with `dt = 1/(n-1)` and `t_i = i * dt`, so that the path is anchored to
//! the forward curve with no iterative integration error.

use vstd::prelude::*;
use crate::errors::ValuationError;
use crate::exp::{exp_fp, exp_spec};
use crate::fixed::{
    SCALE, in_range, tdiv, spec_add, spec_mul, fp_add, fp_mul, fp_div_int, lemma_tdiv_magnitude,
};
use crate::sqrt::{fp_sqrt, fp_sqrt_spec, lemma_fp_sqrt_le_one};

verus! {

/// Time step of the transform: `1/(n-1)` in fixed point.
pub open spec fn gbm_dt(n: int) -> int {
    tdiv(SCALE as int, n - 1)
}

/// `sqrt(dt)` in fixed point.
pub open spec fn gbm_dt_sqrt(n: int) -> int {
    fp_sqrt_spec(gbm_dt(n))
}

/// Time of point `i` on the unit horizon: `i/(n-1)` in fixed point.
pub open spec fn gbm_time(i: int, n: int) -> int {
    tdiv(i * (SCALE as int), n - 1)
}

/// The drift `-sigma^2/2`, checked.
pub open spec fn gbm_drift(sigma: i64) -> Option<int> {
    match spec_mul(sigma as int, sigma as int) {
        Option::Some(s2) => Option::Some(-tdiv(s2 as int, 2)),
        Option::None => Option::None,
    }
}

/// The Wiener value at index `i`: the running checked sum of the innovations
/// through `i`.
pub open spec fn wiener_val(eps: Seq<i64>, i: int) -> Option<i64>
    decreases i,
{
    if i <= 0 {
        Option::Some(eps[0])
    } else {
        match wiener_val(eps, i - 1) {
            Option::Some(p) => spec_add(p as int, eps[i] as int),
            Option::None => Option::None,
        }
    }
}

/// Once the running sum leaves the representable range it stays undefined.
pub proof fn lemma_wiener_prefix(eps: Seq<i64>, i: int, j: int)
    requires
        0 <= i <= j,
        wiener_val(eps, j) is Some,
    ensures
        wiener_val(eps, i) is Some,
    decreases j - i,
{
    if i < j {
        assert(wiener_val(eps, j - 1) is Some);
        lemma_wiener_prefix(eps, i, j - 1);
    }
}

/// A defined Wiener value over representable innovations is representable.
pub proof fn lemma_wiener_in_range(eps: Seq<i64>, i: int)
    requires
        0 <= i < eps.len(),
        forall|k: int| 0 <= k < eps.len() ==> in_range(#[trigger] eps[k] as int),
        wiener_val(eps, i) is Some,
    ensures
        in_range(wiener_val(eps, i)->Some_0 as int),
{
}

/// The simulated gas price at point `i`, checked at every arithmetic step:
/// `forward[i] * exp(drift * t_i + sigma * (w_i * sqrt(dt)))`.
pub open spec fn gbm_point(f: Seq<i64>, sigma: i64, eps: Seq<i64>, i: int, n: int) -> Option<i64> {
    match (gbm_drift(sigma), wiener_val(eps, i)) {
        (Option::Some(dr), Option::Some(w)) => match spec_mul(w as int, gbm_dt_sqrt(n)) {
            Option::None => Option::None,
            Option::Some(ws) => match spec_mul(sigma as int, ws as int) {
                Option::None => Option::None,
                Option::Some(vol) => match spec_mul(dr, gbm_time(i, n)) {
                    Option::None => Option::None,
                    Option::Some(a1) => match spec_add(a1 as int, vol as int) {
                        Option::None => Option::None,
                        Option::Some(arg) => match exp_spec(arg as int) {
                            Option::None => Option::None,
                            Option::Some(e) => spec_mul(f[i] as int, e),
                        },
                    },
                },
            },
        },
        _ => Option::None,
    }
}

/// Maps Gaussian noise to a geometric Brownian motion anchored to a forward
/// curve.
pub struct GeometricBrownianMotionTransformer;

impl GeometricBrownianMotionTransformer {
    /// The Wiener path: running checked sum of the innovations. Fails exactly
    /// when the sum leaves the representable range.
    pub fn cumulative_sum(eps: &Vec<i64>) -> (r: Result<Vec<i64>, ValuationError>)
        requires
            eps@.len() >= 1,
            forall|k: int| 0 <= k < eps@.len() ==> in_range(#[trigger] eps@[k] as int),
        ensures
            r is Ok <==> wiener_val(eps@, eps@.len() - 1) is Some,
            r matches Err(e) ==> e == ValuationError::NumericDegeneracy,
            r matches Ok(w) ==> {
                &&& w@.len() == eps@.len()
                &&& forall|k: int|
                    0 <= k < eps@.len() ==> Some(#[trigger] w@[k]) == wiener_val(eps@, k)
                &&& forall|k: int| 0 <= k < w@.len() ==> in_range(#[trigger] w@[k] as int)
            },
    {
        let n = eps.len();
        let mut out: Vec<i64> = Vec::new();
        let mut acc: i64 = eps[0];
        out.push(acc);
        let mut i: usize = 1;
        while i < n
            invariant
                n == eps@.len(),
                forall|k: int| 0 <= k < eps@.len() ==> in_range(#[trigger] eps@[k] as int),
                1 <= i <= n,
                out@.len() == i,
                Some(acc) == wiener_val(eps@, i - 1),
                forall|k: int| 0 <= k < i ==> Some(#[trigger] out@[k]) == wiener_val(eps@, k),
                forall|k: int| 0 <= k < i ==> in_range(#[trigger] out@[k] as int),
                in_range(acc as int),
            decreases n - i,
        {
            match fp_add(acc, eps[i]) {
                Option::Some(v) => {
                    acc = v;
                    out.push(acc);
                },
                Option::None => {
                    proof {
                        assert(wiener_val(eps@, i as int) is None);
                        if wiener_val(eps@, eps@.len() - 1) is Some {
                            lemma_wiener_prefix(eps@, i as int, eps@.len() - 1);
                        }
                    }
                    return Err(ValuationError::NumericDegeneracy);
                },
            }
            i = i + 1;
        }
        proof {
            lemma_wiener_prefix(eps@, eps@.len() - 1, eps@.len() - 1);
        }
        Ok(out)
    }

    /// Turns one row of innovations into a gas price path. Fails with a
    /// length mismatch between curve and noise, or with numeric degeneracy
    /// exactly when some checked step of `gbm_point` is undefined.
    pub fn transform_to_gbm(f: &Vec<i64>, sigma: i64, eps: &Vec<i64>) -> (r: Result<
        Vec<i64>,
        ValuationError,
    >)
        requires
            in_range(sigma as int),
            2 <= eps@.len() <= 0x7fff_ffff,
            forall|k: int| 0 <= k < eps@.len() ==> in_range(#[trigger] eps@[k] as int),
        ensures
            f@.len() != eps@.len() ==> r == Err::<Vec<i64>, ValuationError>(
                ValuationError::CurveLengthMismatch,
            ),
            f@.len() == eps@.len() ==> {
                &&& (r is Ok <==> (forall|i: int|
                    0 <= i < eps@.len() ==> #[trigger] gbm_point(
                        f@,
                        sigma,
                        eps@,
                        i,
                        eps@.len() as int,
                    ) is Some))
                &&& (r matches Err(e) ==> e == ValuationError::NumericDegeneracy)
                &&& (r matches Ok(p) ==> {
                    &&& p@.len() == eps@.len()
                    &&& forall|i: int|
                        0 <= i < eps@.len() ==> Some(#[trigger] p@[i]) == gbm_point(
                            f@,
                            sigma,
                            eps@,
                            i,
                            eps@.len() as int,
                        )
                    &&& forall|i: int| 0 <= i < p@.len() ==> in_range(#[trigger] p@[i] as int)
                })
            },
    {
        let n = eps.len();
        if f.len() != n {
            return Err(ValuationError::CurveLengthMismatch);
        }
        let ghost nn = n as int;
        let nm1: i64 = (n - 1) as i64;
        let dt: i64 = fp_div_int(SCALE, nm1);
        proof {
            lemma_tdiv_magnitude(SCALE as int, nm1 as int);
            lemma_fp_sqrt_le_one(dt as int);
        }
        let dt_sqrt: i64 = fp_sqrt(dt);
        let drift: i64 = match fp_mul(sigma, sigma) {
            Option::Some(s2) => {
                proof {
                    lemma_tdiv_magnitude(s2 as int, 2);
                }
                -fp_div_int(s2, 2)
            },
            Option::None => {
                proof {
                    assert(gbm_point(f@, sigma, eps@, 0, nn) is None);
                }
                return Err(ValuationError::NumericDegeneracy);
            },
        };
        let w = match Self::cumulative_sum(eps) {
            Ok(w) => w,
            Err(_) => {
                proof {
                    let bad = choose|i: int|
                        0 <= i < eps@.len() && #[trigger] wiener_val(eps@, i) is None;
                    assert(wiener_val(eps@, eps@.len() - 1) is None);
                    assert(gbm_point(f@, sigma, eps@, eps@.len() - 1, nn) is None);
                }
                return Err(ValuationError::NumericDegeneracy);
            },
        };
        let mut out: Vec<i64> = Vec::new();
        let mut i: usize = 0;
        while i < n
            invariant
                n == eps@.len(),
                nn == n as int,
                f@.len() == eps@.len(),
                2 <= n <= 0x7fff_ffff,
                in_range(sigma as int),
                forall|k: int| 0 <= k < eps@.len() ==> in_range(#[trigger] eps@[k] as int),
                nm1 == n - 1,
                dt == gbm_dt(nn),
                dt_sqrt == gbm_dt_sqrt(nn),
                Some(drift as int) == gbm_drift(sigma),
                w@.len() == eps@.len(),
                forall|k: int| 0 <= k < eps@.len() ==> Some(#[trigger] w@[k]) == wiener_val(eps@, k),
                forall|k: int| 0 <= k < w@.len() ==> in_range(#[trigger] w@[k] as int),
                i <= n,
                out@.len() == i,
                forall|k: int|
                    0 <= k < i ==> Some(#[trigger] out@[k]) == gbm_point(f@, sigma, eps@, k, nn),
                forall|k: int| 0 <= k < i ==> in_range(#[trigger] out@[k] as int),
            decreases n - i,
        {
            let ws = match fp_mul(w[i], dt_sqrt) {
                Option::Some(v) => v,
                Option::None => {
                    proof {
                        assert(gbm_point(f@, sigma, eps@, i as int, nn) is None);
                    }
                    return Err(ValuationError::NumericDegeneracy);
                },
            };
            let vol = match fp_mul(sigma, ws) {
                Option::Some(v) => v,
                Option::None => {
                    proof {
                        assert(gbm_point(f@, sigma, eps@, i as int, nn) is None);
                    }
                    return Err(ValuationError::NumericDegeneracy);
                },
            };
            proof {
                assert((i as int) * (SCALE as int) <= 0x7fff_ffff * (SCALE as int))
                    by (nonlinear_arith)
                    requires
                        0 <= i <= 0x7fff_ffff,
                ;
                vstd::arithmetic::mul::lemma_mul_nonnegative(i as int, SCALE as int);
            }
            let ti: i64 = fp_div_int((i as i64) * SCALE, nm1);
            let a1 = match fp_mul(drift, ti) {
                Option::Some(v) => v,
                Option::None => {
                    proof {
                        assert(gbm_point(f@, sigma, eps@, i as int, nn) is None);
                    }
                    return Err(ValuationError::NumericDegeneracy);
                },
            };
            let arg = match fp_add(a1, vol) {
                Option::Some(v) => v,
                Option::None => {
                    proof {
                        assert(gbm_point(f@, sigma, eps@, i as int, nn) is None);
                    }
                    return Err(ValuationError::NumericDegeneracy);
                },
            };
            let e = match exp_fp(arg) {
                Option::Some(v) => v,
                Option::None => {
                    proof {
                        assert(gbm_point(f@, sigma, eps@, i as int, nn) is None);
                    }
                    return Err(ValuationError::NumericDegeneracy);
                },
            };
            let price = match fp_mul(f[i], e) {
                Option::Some(v) => v,
                Option::None => {
                    proof {
                        assert(gbm_point(f@, sigma, eps@, i as int, nn) is None);
                    }
                    return Err(ValuationError::NumericDegeneracy);
                },
            };
            out.push(price);
            i = i + 1;
        }
        proof {
            assert forall|k: int|
                0 <= k < eps@.len() implies #[trigger] gbm_point(f@, sigma, eps@, k, nn) is Some by {
                assert(Some(out@[k]) == gbm_point(f@, sigma, eps@, k, nn));
            };
        }
        Ok(out)
    }
}

} // verus!

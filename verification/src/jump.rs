//! Mean-reverting jump diffusion transform for the power path.
//!
//! The log-deviation `V` from the forward curve follows
//! `dV = -kappa*V*dt + sigma_p*dW + J*dN - lambda_j*(E[e^J]-1)*dt`,
//! discretized by Euler-Maruyama with `dt = 1/n`: at each step the jump count
//! comes from a Poisson draw and the jump size from a normal draw, both
//! supplied by the caller as explicit per-step draws; `V_0 = 0`. The observed
//! price is `forward[i] * exp(V_i)`.

use vstd::prelude::*;
use crate::errors::ValuationError;
use crate::exp::{exp_fp, exp_spec};
use crate::fixed::{
    SCALE, in_range, tdiv, spec_add, spec_mul, spec_mul_int, fp_add, fp_mul, fp_mul_int,
    fp_div_int, lemma_tdiv_magnitude,
};
use crate::sqrt::{fp_sqrt, fp_sqrt_spec, lemma_fp_sqrt_le_one};

verus! {

/// Time step of the discretization: `1/n` in fixed point.
pub open spec fn jdp_dt(n: int) -> int {
    tdiv(SCALE as int, n)
}

/// `sqrt(dt)` in fixed point.
pub open spec fn jdp_dt_sqrt(n: int) -> int {
    fp_sqrt_spec(jdp_dt(n))
}

/// The jump contribution at step `i`: zero without a jump, otherwise
/// `mu_j * count + z * sigma_j * sqrt(count)`, checked.
pub open spec fn jump_value(counts: Seq<u32>, zs: Seq<i64>, mu_j: i64, sigma_j: i64, i: int) -> Option<
    i64,
> {
    if counts[i] == 0 {
        Option::Some(0i64)
    } else {
        match spec_mul_int(mu_j as int, counts[i] as int) {
            Option::None => Option::None,
            Option::Some(mean) => match spec_mul(
                sigma_j as int,
                fp_sqrt_spec((counts[i] as int) * (SCALE as int)),
            ) {
                Option::None => Option::None,
                Option::Some(sd) => match spec_mul(zs[i] as int, sd as int) {
                    Option::None => Option::None,
                    Option::Some(noise) => spec_add(mean as int, noise as int),
                },
            },
        }
    }
}

/// The constant drift correction `lambda_j * dt * (exp(mu_j + sigma_j^2/2) - 1)`
/// that compensates the expected jump contribution, checked.
pub open spec fn jump_compensator(lambda_j: i64, mu_j: i64, sigma_j: i64, n: int) -> Option<i64> {
    match spec_mul(sigma_j as int, sigma_j as int) {
        Option::None => Option::None,
        Option::Some(s2) => match spec_add(mu_j as int, tdiv(s2 as int, 2)) {
            Option::None => Option::None,
            Option::Some(arg) => match exp_spec(arg as int) {
                Option::None => Option::None,
                Option::Some(e) => match spec_mul(lambda_j as int, jdp_dt(n)) {
                    Option::None => Option::None,
                    Option::Some(ld) => spec_mul(ld as int, e - SCALE as int),
                },
            },
        },
    }
}

/// One Euler-Maruyama step:
/// `prev + (-kappa*prev*dt + sigma_p*eps_i*sqrt(dt) + jump - comp)`, checked
/// in the order the sum is computed.
pub open spec fn ou_next(
    prev: i64,
    eps_i: i64,
    jump_i: Option<i64>,
    comp: i64,
    sigma_p: i64,
    kappa: i64,
    dt: int,
    dt_sqrt: int,
) -> Option<i64> {
    match jump_i {
        Option::None => Option::None,
        Option::Some(j) => match spec_mul(kappa as int, prev as int) {
            Option::None => Option::None,
            Option::Some(kp) => match spec_mul(kp as int, dt) {
                Option::None => Option::None,
                Option::Some(decay) => match spec_mul(eps_i as int, dt_sqrt) {
                    Option::None => Option::None,
                    Option::Some(dw) => match spec_mul(sigma_p as int, dw as int) {
                        Option::None => Option::None,
                        Option::Some(vol) => match spec_add(-(decay as int), vol as int) {
                            Option::None => Option::None,
                            Option::Some(d1) => match spec_add(d1 as int, j as int) {
                                Option::None => Option::None,
                                Option::Some(d2) => match spec_add(d2 as int, -(comp as int)) {
                                    Option::None => Option::None,
                                    Option::Some(dx) => spec_add(prev as int, dx as int),
                                },
                            },
                        },
                    },
                },
            },
        },
    }
}

/// The log-deviation path value at index `i`; `V_0 = 0`.
pub open spec fn ou_val(
    eps: Seq<i64>,
    counts: Seq<u32>,
    zs: Seq<i64>,
    sigma_p: i64,
    kappa: i64,
    mu_j: i64,
    sigma_j: i64,
    comp: i64,
    dt: int,
    dt_sqrt: int,
    i: int,
) -> Option<i64>
    decreases i,
{
    if i <= 0 {
        Option::Some(0i64)
    } else {
        match ou_val(eps, counts, zs, sigma_p, kappa, mu_j, sigma_j, comp, dt, dt_sqrt, i - 1) {
            Option::None => Option::None,
            Option::Some(p) => ou_next(
                p,
                eps[i],
                jump_value(counts, zs, mu_j, sigma_j, i),
                comp,
                sigma_p,
                kappa,
                dt,
                dt_sqrt,
            ),
        }
    }
}

/// Once a step of the recurrence is undefined, all later values are.
pub proof fn lemma_ou_prefix(
    eps: Seq<i64>,
    counts: Seq<u32>,
    zs: Seq<i64>,
    sigma_p: i64,
    kappa: i64,
    mu_j: i64,
    sigma_j: i64,
    comp: i64,
    dt: int,
    dt_sqrt: int,
    i: int,
    j: int,
)
    requires
        0 <= i <= j,
        ou_val(eps, counts, zs, sigma_p, kappa, mu_j, sigma_j, comp, dt, dt_sqrt, j) is Some,
    ensures
        ou_val(eps, counts, zs, sigma_p, kappa, mu_j, sigma_j, comp, dt, dt_sqrt, i) is Some,
    decreases j - i,
{
    if i < j {
        assert(ou_val(eps, counts, zs, sigma_p, kappa, mu_j, sigma_j, comp, dt, dt_sqrt, j - 1)
            is Some);
        lemma_ou_prefix(eps, counts, zs, sigma_p, kappa, mu_j, sigma_j, comp, dt, dt_sqrt, i, j - 1);
    }
}

/// The simulated power price at point `i`:
/// `forward[i] * exp(V_i)` with the compensated jump recurrence, checked at
/// every arithmetic step.
pub open spec fn jdp_point(
    f: Seq<i64>,
    eps: Seq<i64>,
    counts: Seq<u32>,
    zs: Seq<i64>,
    sigma_p: i64,
    kappa: i64,
    lambda_j: i64,
    mu_j: i64,
    sigma_j: i64,
    i: int,
    n: int,
) -> Option<i64> {
    match jump_compensator(lambda_j, mu_j, sigma_j, n) {
        Option::None => Option::None,
        Option::Some(c) => match ou_val(
            eps,
            counts,
            zs,
            sigma_p,
            kappa,
            mu_j,
            sigma_j,
            c,
            jdp_dt(n),
            jdp_dt_sqrt(n),
            i,
        ) {
            Option::None => Option::None,
            Option::Some(v) => match exp_spec(v as int) {
                Option::None => Option::None,
                Option::Some(e) => spec_mul(f[i] as int, e),
            },
        },
    }
}

/// Maps Gaussian innovations plus jump draws to a mean-reverting jump
/// diffusion anchored to a forward curve.
pub struct JumpDiffusionProcessTransformer;

impl JumpDiffusionProcessTransformer {
    /// The compensated Euler-Maruyama recurrence alone: the log-deviation
    /// path `V`, starting at zero. Fails exactly when a checked step leaves
    /// the representable range.
    pub fn transform_path_to_ou(
        sigma_p: i64,
        kappa: i64,
        mu_j: i64,
        sigma_j: i64,
        dt: i64,
        dt_sqrt: i64,
        jump_drift_correction: i64,
        eps: &Vec<i64>,
        jump_counts: &Vec<u32>,
        jump_z: &Vec<i64>,
    ) -> (r: Result<Vec<i64>, ValuationError>)
        requires
            in_range(sigma_p as int),
            in_range(kappa as int),
            in_range(mu_j as int),
            in_range(sigma_j as int),
            0 <= dt <= SCALE,
            0 <= dt_sqrt <= SCALE,
            in_range(jump_drift_correction as int),
            eps@.len() >= 1,
            jump_counts@.len() == eps@.len(),
            jump_z@.len() == eps@.len(),
            forall|k: int| 0 <= k < eps@.len() ==> in_range(#[trigger] eps@[k] as int),
            forall|k: int| 0 <= k < jump_z@.len() ==> in_range(#[trigger] jump_z@[k] as int),
        ensures
            r is Ok <==> ou_val(
                eps@,
                jump_counts@,
                jump_z@,
                sigma_p,
                kappa,
                mu_j,
                sigma_j,
                jump_drift_correction,
                dt as int,
                dt_sqrt as int,
                eps@.len() - 1,
            ) is Some,
            r matches Err(e) ==> e == ValuationError::NumericDegeneracy,
            r matches Ok(v) ==> {
                &&& v@.len() == eps@.len()
                &&& v@[0] == 0i64
                &&& forall|k: int|
                    0 <= k < eps@.len() ==> Some(#[trigger] v@[k]) == ou_val(
                        eps@,
                        jump_counts@,
                        jump_z@,
                        sigma_p,
                        kappa,
                        mu_j,
                        sigma_j,
                        jump_drift_correction,
                        dt as int,
                        dt_sqrt as int,
                        k,
                    )
                &&& forall|k: int| 0 <= k < v@.len() ==> in_range(#[trigger] v@[k] as int)
            },
    {
        let n = eps.len();
        let mut out: Vec<i64> = Vec::new();
        let mut prev: i64 = 0;
        out.push(prev);
        let mut i: usize = 1;
        while i < n
            invariant
                n == eps@.len(),
                jump_counts@.len() == eps@.len(),
                jump_z@.len() == eps@.len(),
                in_range(sigma_p as int),
                in_range(kappa as int),
                in_range(mu_j as int),
                in_range(sigma_j as int),
                0 <= dt <= SCALE,
                0 <= dt_sqrt <= SCALE,
                in_range(jump_drift_correction as int),
                forall|k: int| 0 <= k < eps@.len() ==> in_range(#[trigger] eps@[k] as int),
                forall|k: int| 0 <= k < jump_z@.len() ==> in_range(#[trigger] jump_z@[k] as int),
                1 <= i <= n,
                out@.len() == i,
                out@[0] == 0i64,
                Some(prev) == ou_val(
                    eps@,
                    jump_counts@,
                    jump_z@,
                    sigma_p,
                    kappa,
                    mu_j,
                    sigma_j,
                    jump_drift_correction,
                    dt as int,
                    dt_sqrt as int,
                    i - 1,
                ),
                in_range(prev as int),
                forall|k: int|
                    0 <= k < i ==> Some(#[trigger] out@[k]) == ou_val(
                        eps@,
                        jump_counts@,
                        jump_z@,
                        sigma_p,
                        kappa,
                        mu_j,
                        sigma_j,
                        jump_drift_correction,
                        dt as int,
                        dt_sqrt as int,
                        k,
                    ),
                forall|k: int| 0 <= k < out@.len() ==> in_range(#[trigger] out@[k] as int),
            decreases n - i,
        {
            let ghost failed_here = ou_val(
                eps@,
                jump_counts@,
                jump_z@,
                sigma_p,
                kappa,
                mu_j,
                sigma_j,
                jump_drift_correction,
                dt as int,
                dt_sqrt as int,
                i as int,
            );
            let step = Self::ou_step(
                prev,
                eps[i],
                jump_counts[i],
                jump_z[i],
                jump_drift_correction,
                sigma_p,
                kappa,
                mu_j,
                sigma_j,
                dt,
                dt_sqrt,
            );
            match step {
                Option::Some(v) => {
                    prev = v;
                    out.push(prev);
                },
                Option::None => {
                    proof {
                        assert(failed_here is None);
                        if ou_val(
                            eps@,
                            jump_counts@,
                            jump_z@,
                            sigma_p,
                            kappa,
                            mu_j,
                            sigma_j,
                            jump_drift_correction,
                            dt as int,
                            dt_sqrt as int,
                            eps@.len() - 1,
                        ) is Some {
                            lemma_ou_prefix(
                                eps@,
                                jump_counts@,
                                jump_z@,
                                sigma_p,
                                kappa,
                                mu_j,
                                sigma_j,
                                jump_drift_correction,
                                dt as int,
                                dt_sqrt as int,
                                i as int,
                                eps@.len() - 1,
                            );
                        }
                    }
                    return Err(ValuationError::NumericDegeneracy);
                },
            }
            i = i + 1;
        }
        Ok(out)
    }

    /// Turns one row of innovations plus jump draws into a power price path.
    /// Fails fast on a negative jump intensity, malformed draws or a length
    /// mismatch, and with numeric degeneracy exactly when some checked step
    /// of `jdp_point` is undefined.
    pub fn transform_path_to_jdp(
        f: &Vec<i64>,
        sigma_p: i64,
        kappa: i64,
        lambda_j: i64,
        mu_j: i64,
        sigma_j: i64,
        eps: &Vec<i64>,
        jump_counts: &Vec<u32>,
        jump_z: &Vec<i64>,
    ) -> (r: Result<Vec<i64>, ValuationError>)
        requires
            in_range(sigma_p as int),
            in_range(kappa as int),
            in_range(lambda_j as int),
            in_range(mu_j as int),
            in_range(sigma_j as int),
            1 <= eps@.len() <= 0x7fff_ffff,
            forall|k: int| 0 <= k < eps@.len() ==> in_range(#[trigger] eps@[k] as int),
            forall|k: int| 0 <= k < jump_z@.len() ==> in_range(#[trigger] jump_z@[k] as int),
        ensures
            lambda_j < 0 ==> r == Err::<Vec<i64>, ValuationError>(
                ValuationError::NegativeJumpIntensity,
            ),
            lambda_j >= 0 && (jump_counts@.len() != eps@.len() || jump_z@.len() != eps@.len())
                ==> r == Err::<Vec<i64>, ValuationError>(ValuationError::MalformedDraws),
            lambda_j >= 0 && jump_counts@.len() == eps@.len() && jump_z@.len() == eps@.len()
                && f@.len() != eps@.len() ==> r == Err::<Vec<i64>, ValuationError>(
                ValuationError::CurveLengthMismatch,
            ),
            lambda_j >= 0 && jump_counts@.len() == eps@.len() && jump_z@.len() == eps@.len()
                && f@.len() == eps@.len() ==> {
                &&& (r is Ok <==> (forall|i: int|
                    0 <= i < eps@.len() ==> #[trigger] jdp_point(
                        f@,
                        eps@,
                        jump_counts@,
                        jump_z@,
                        sigma_p,
                        kappa,
                        lambda_j,
                        mu_j,
                        sigma_j,
                        i,
                        eps@.len() as int,
                    ) is Some))
                &&& (r matches Err(e) ==> e == ValuationError::NumericDegeneracy)
                &&& (r matches Ok(p) ==> {
                    &&& p@.len() == eps@.len()
                    &&& forall|i: int|
                        0 <= i < eps@.len() ==> Some(#[trigger] p@[i]) == jdp_point(
                            f@,
                            eps@,
                            jump_counts@,
                            jump_z@,
                            sigma_p,
                            kappa,
                            lambda_j,
                            mu_j,
                            sigma_j,
                            i,
                            eps@.len() as int,
                        )
                    &&& forall|i: int| 0 <= i < p@.len() ==> in_range(#[trigger] p@[i] as int)
                })
            },
    {
        if lambda_j < 0 {
            return Err(ValuationError::NegativeJumpIntensity);
        }
        let n = eps.len();
        if jump_counts.len() != n || jump_z.len() != n {
            return Err(ValuationError::MalformedDraws);
        }
        if f.len() != n {
            return Err(ValuationError::CurveLengthMismatch);
        }
        let ghost nn = n as int;
        let dt: i64 = fp_div_int(SCALE, n as i64);
        proof {
            lemma_tdiv_magnitude(SCALE as int, n as int);
            lemma_fp_sqrt_le_one(dt as int);
        }
        let dt_sqrt: i64 = fp_sqrt(dt);
        let s2 = match fp_mul(sigma_j, sigma_j) {
            Option::Some(v) => v,
            Option::None => {
                proof {
                    assert(jdp_point(
                        f@,
                        eps@,
                        jump_counts@,
                        jump_z@,
                        sigma_p,
                        kappa,
                        lambda_j,
                        mu_j,
                        sigma_j,
                        0,
                        nn,
                    ) is None);
                }
                return Err(ValuationError::NumericDegeneracy);
            },
        };
        proof {
            lemma_tdiv_magnitude(s2 as int, 2);
        }
        let arg = match fp_add(mu_j, fp_div_int(s2, 2)) {
            Option::Some(v) => v,
            Option::None => {
                proof {
                    assert(jdp_point(
                        f@,
                        eps@,
                        jump_counts@,
                        jump_z@,
                        sigma_p,
                        kappa,
                        lambda_j,
                        mu_j,
                        sigma_j,
                        0,
                        nn,
                    ) is None);
                }
                return Err(ValuationError::NumericDegeneracy);
            },
        };
        let e = match exp_fp(arg) {
            Option::Some(v) => v,
            Option::None => {
                proof {
                    assert(jdp_point(
                        f@,
                        eps@,
                        jump_counts@,
                        jump_z@,
                        sigma_p,
                        kappa,
                        lambda_j,
                        mu_j,
                        sigma_j,
                        0,
                        nn,
                    ) is None);
                }
                return Err(ValuationError::NumericDegeneracy);
            },
        };
        let ld = match fp_mul(lambda_j, dt) {
            Option::Some(v) => v,
            Option::None => {
                proof {
                    assert(jdp_point(
                        f@,
                        eps@,
                        jump_counts@,
                        jump_z@,
                        sigma_p,
                        kappa,
                        lambda_j,
                        mu_j,
                        sigma_j,
                        0,
                        nn,
                    ) is None);
                }
                return Err(ValuationError::NumericDegeneracy);
            },
        };
        let comp = match fp_mul(ld, e - SCALE) {
            Option::Some(v) => v,
            Option::None => {
                proof {
                    assert(jdp_point(
                        f@,
                        eps@,
                        jump_counts@,
                        jump_z@,
                        sigma_p,
                        kappa,
                        lambda_j,
                        mu_j,
                        sigma_j,
                        0,
                        nn,
                    ) is None);
                }
                return Err(ValuationError::NumericDegeneracy);
            },
        };
        proof {
            assert(Some(comp) == jump_compensator(lambda_j, mu_j, sigma_j, nn));
        }
        let v = match Self::transform_path_to_ou(
            sigma_p,
            kappa,
            mu_j,
            sigma_j,
            dt,
            dt_sqrt,
            comp,
            eps,
            jump_counts,
            jump_z,
        ) {
            Ok(v) => v,
            Err(_) => {
                proof {
                    assert(jdp_point(
                        f@,
                        eps@,
                        jump_counts@,
                        jump_z@,
                        sigma_p,
                        kappa,
                        lambda_j,
                        mu_j,
                        sigma_j,
                        eps@.len() - 1,
                        nn,
                    ) is None);
                }
                return Err(ValuationError::NumericDegeneracy);
            },
        };
        let mut out: Vec<i64> = Vec::new();
        let mut i: usize = 0;
        while i < n
            invariant
                n == eps@.len(),
                nn == n as int,
                1 <= n <= 0x7fff_ffff,
                jump_counts@.len() == eps@.len(),
                jump_z@.len() == eps@.len(),
                f@.len() == eps@.len(),
                in_range(sigma_p as int),
                in_range(kappa as int),
                in_range(lambda_j as int),
                in_range(mu_j as int),
                in_range(sigma_j as int),
                lambda_j >= 0,
                dt == jdp_dt(nn),
                dt_sqrt == jdp_dt_sqrt(nn),
                Some(comp) == jump_compensator(lambda_j, mu_j, sigma_j, nn),
                v@.len() == eps@.len(),
                forall|k: int|
                    0 <= k < eps@.len() ==> Some(#[trigger] v@[k]) == ou_val(
                        eps@,
                        jump_counts@,
                        jump_z@,
                        sigma_p,
                        kappa,
                        mu_j,
                        sigma_j,
                        comp,
                        dt as int,
                        dt_sqrt as int,
                        k,
                    ),
                forall|k: int| 0 <= k < v@.len() ==> in_range(#[trigger] v@[k] as int),
                i <= n,
                out@.len() == i,
                forall|k: int|
                    0 <= k < i ==> Some(#[trigger] out@[k]) == jdp_point(
                        f@,
                        eps@,
                        jump_counts@,
                        jump_z@,
                        sigma_p,
                        kappa,
                        lambda_j,
                        mu_j,
                        sigma_j,
                        k,
                        nn,
                    ),
                forall|k: int| 0 <= k < out@.len() ==> in_range(#[trigger] out@[k] as int),
            decreases n - i,
        {
            let ex = match exp_fp(v[i]) {
                Option::Some(w) => w,
                Option::None => {
                    proof {
                        assert(jdp_point(
                            f@,
                            eps@,
                            jump_counts@,
                            jump_z@,
                            sigma_p,
                            kappa,
                            lambda_j,
                            mu_j,
                            sigma_j,
                            i as int,
                            nn,
                        ) is None);
                    }
                    return Err(ValuationError::NumericDegeneracy);
                },
            };
            let price = match fp_mul(f[i], ex) {
                Option::Some(w) => w,
                Option::None => {
                    proof {
                        assert(jdp_point(
                            f@,
                            eps@,
                            jump_counts@,
                            jump_z@,
                            sigma_p,
                            kappa,
                            lambda_j,
                            mu_j,
                            sigma_j,
                            i as int,
                            nn,
                        ) is None);
                    }
                    return Err(ValuationError::NumericDegeneracy);
                },
            };
            out.push(price);
            i = i + 1;
        }
        proof {
            assert forall|k: int|
                0 <= k < eps@.len() implies #[trigger] jdp_point(
                f@,
                eps@,
                jump_counts@,
                jump_z@,
                sigma_p,
                kappa,
                lambda_j,
                mu_j,
                sigma_j,
                k,
                nn,
            ) is Some by {
                assert(Some(out@[k]) == jdp_point(
                    f@,
                    eps@,
                    jump_counts@,
                    jump_z@,
                    sigma_p,
                    kappa,
                    lambda_j,
                    mu_j,
                    sigma_j,
                    k,
                    nn,
                ));
            };
        }
        Ok(out)
    }

    /// One step of the recurrence on explicit values, mirroring `ou_next`.
    fn ou_step(
        prev: i64,
        eps_i: i64,
        count: u32,
        z: i64,
        comp: i64,
        sigma_p: i64,
        kappa: i64,
        mu_j: i64,
        sigma_j: i64,
        dt: i64,
        dt_sqrt: i64,
    ) -> (r: Option<i64>)
        requires
            in_range(prev as int),
            in_range(eps_i as int),
            in_range(z as int),
            in_range(comp as int),
            in_range(sigma_p as int),
            in_range(kappa as int),
            in_range(mu_j as int),
            in_range(sigma_j as int),
            0 <= dt <= SCALE,
            0 <= dt_sqrt <= SCALE,
        ensures
            r is Some <==> ou_next(
                prev,
                eps_i,
                jump_value_at(count, z, mu_j, sigma_j),
                comp,
                sigma_p,
                kappa,
                dt as int,
                dt_sqrt as int,
            ) is Some,
            r matches Some(v) ==> Some(v) == ou_next(
                prev,
                eps_i,
                jump_value_at(count, z, mu_j, sigma_j),
                comp,
                sigma_p,
                kappa,
                dt as int,
                dt_sqrt as int,
            ) && in_range(v as int),
    {
        let jump: i64 = if count == 0 {
            0
        } else {
            let mean = match fp_mul_int(mu_j, count as i64) {
                Option::Some(v) => v,
                Option::None => {
                    return None;
                },
            };
            let count_fp: i64 = (count as i64) * SCALE;
            let root = fp_sqrt(count_fp);
            let sd = match fp_mul(sigma_j, root) {
                Option::Some(v) => v,
                Option::None => {
                    return None;
                },
            };
            let noise = match fp_mul(z, sd) {
                Option::Some(v) => v,
                Option::None => {
                    return None;
                },
            };
            match fp_add(mean, noise) {
                Option::Some(v) => v,
                Option::None => {
                    return None;
                },
            }
        };
        let kp = match fp_mul(kappa, prev) {
            Option::Some(v) => v,
            Option::None => {
                return None;
            },
        };
        let decay = match fp_mul(kp, dt) {
            Option::Some(v) => v,
            Option::None => {
                return None;
            },
        };
        let dw = match fp_mul(eps_i, dt_sqrt) {
            Option::Some(v) => v,
            Option::None => {
                return None;
            },
        };
        let vol = match fp_mul(sigma_p, dw) {
            Option::Some(v) => v,
            Option::None => {
                return None;
            },
        };
        let d1 = match fp_add(-decay, vol) {
            Option::Some(v) => v,
            Option::None => {
                return None;
            },
        };
        let d2 = match fp_add(d1, jump) {
            Option::Some(v) => v,
            Option::None => {
                return None;
            },
        };
        let dx = match fp_add(d2, -comp) {
            Option::Some(v) => v,
            Option::None => {
                return None;
            },
        };
        fp_add(prev, dx)
    }
}

/// The jump contribution from one step's draws, the single-step form of
/// `jump_value`.
pub open spec fn jump_value_at(count: u32, z: i64, mu_j: i64, sigma_j: i64) -> Option<i64> {
    if count == 0 {
        Option::Some(0i64)
    } else {
        match spec_mul_int(mu_j as int, count as int) {
            Option::None => Option::None,
            Option::Some(mean) => match spec_mul(
                sigma_j as int,
                fp_sqrt_spec((count as int) * (SCALE as int)),
            ) {
                Option::None => Option::None,
                Option::Some(sd) => match spec_mul(z as int, sd as int) {
                    Option::None => Option::None,
                    Option::Some(noise) => spec_add(mean as int, noise as int),
                },
            },
        }
    }
}

} // verus!

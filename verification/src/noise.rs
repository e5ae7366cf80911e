//! Correlated Gaussian innovations.
//!
//! The correlation matrix `[[1, rho], [rho, 1]]` has the lower Cholesky
//! factor `[[1, 0], [rho, sqrt(1 - rho^2)]]`; multiplying it onto two
//! independent standard-normal rows leaves the first row unchanged and mixes
//! the second. The Wiener process starts at zero, so time index 0 of both
//! rows is zeroed after correlation, whatever was sampled there.

use vstd::prelude::*;
use crate::errors::ValuationError;
use crate::fixed::{
    SCALE, in_range, mul_full, spec_add, spec_mul, fp_add, fp_mul, lemma_mul_full_contract,
};
use crate::sqrt::{fp_sqrt, fp_sqrt_spec, lemma_sqrt_val, is_isqrt, lemma_isqrt_unique};

verus! {

/// The off-diagonal and diagonal entries of the Cholesky factor's second row.
pub open spec fn chol_l22(rho: int) -> int {
    fp_sqrt_spec(SCALE as int - mul_full(rho, rho))
}

/// One entry of the mixed second row: `l21 * a + l22 * b`, checked.
pub open spec fn corr_elem(l21: int, l22: int, a: i64, b: i64) -> Option<i64> {
    match (spec_mul(l21, a as int), spec_mul(l22, b as int)) {
        (Option::Some(x), Option::Some(y)) => spec_add(x as int, y as int),
        _ => Option::None,
    }
}

/// A row with its first entry replaced by zero: the Wiener process starts at
/// zero at time zero.
pub open spec fn zeroed_row(z: Seq<i64>) -> Seq<i64> {
    z.update(0, 0i64)
}

/// The mixed second row, entry by entry, with the first entry zeroed. Only
/// meaningful where `mixed_row_ok` holds.
pub open spec fn mixed_row(l21: i64, l22: i64, zg: Seq<i64>, zp: Seq<i64>) -> Seq<i64> {
    Seq::new(
        zg.len(),
        |i: int|
            if i == 0 {
                0i64
            } else {
                corr_elem(l21 as int, l22 as int, zg[i], zp[i])->Some_0
            },
    )
}

/// Every mixed entry is representable.
pub open spec fn mixed_row_ok(l21: i64, l22: i64, zg: Seq<i64>, zp: Seq<i64>) -> bool {
    forall|i: int|
        1 <= i < zg.len() ==> #[trigger] corr_elem(l21 as int, l22 as int, zg[i], zp[i]) is Some
}

/// The lower Cholesky factor of `[[1, rho], [rho, 1]]`, as its second row
/// `(rho, sqrt(1 - rho^2))`; the first row is `(1, 0)`. Fails exactly when
/// the matrix is not positive semi-definite, i.e. `|rho| > 1`.
pub fn cholesky_lower(rho: i64) -> (r: Result<(i64, i64), ValuationError>)
    requires
        in_range(rho as int),
    ensures
        r is Ok <==> -SCALE <= rho <= SCALE,
        r matches Err(e) ==> e == ValuationError::InvalidCorrelation,
        r matches Ok(l) ==> l.0 == rho && l.1 == chol_l22(rho as int) && 0 <= l.1 <= SCALE,
{
    if rho < -SCALE || rho > SCALE {
        return Err(ValuationError::InvalidCorrelation);
    }
    proof {
        lemma_mul_full_contract(rho as int, rho as int);
        assert(mul_full(rho as int, rho as int) >= 0) by {
            assert(rho as int * rho as int >= 0) by (nonlinear_arith);
            vstd::arithmetic::div_mod::lemma_div_pos_is_pos(
                rho as int * rho as int,
                SCALE as int,
            );
        };
    }
    let rho_sq = match fp_mul(rho, rho) {
        Option::Some(v) => v,
        Option::None => {
            proof {
                assert(false);
            }
            0
        },
    };
    let d: i64 = SCALE - rho_sq;
    let l22 = fp_sqrt(d);
    proof {
        lemma_sqrt_val((d as int) * (SCALE as int));
        assert(l22 <= SCALE) by (nonlinear_arith)
            requires
                is_isqrt((d as int) * (SCALE as int), l22 as int),
                d <= SCALE,
                l22 >= 0,
        ;
    }
    Ok((rho, l22))
}

/// With perfect correlation the diagonal entry vanishes and with zero
/// correlation it is exactly one, so the mixed row is exactly the first row,
/// its negation, or the independent second row.
pub proof fn lemma_chol_l22_exact(rho: int)
    ensures
        rho == SCALE as int ==> chol_l22(rho) == 0,
        rho == -(SCALE as int) ==> chol_l22(rho) == 0,
        rho == 0 ==> chol_l22(rho) == SCALE as int,
{
    if rho == SCALE as int || rho == -(SCALE as int) {
        assert(rho * rho == (SCALE as int) * (SCALE as int)) by (nonlinear_arith)
            requires
                rho == SCALE as int || rho == -(SCALE as int),
        ;
        vstd::arithmetic::div_mod::lemma_div_multiples_vanish(SCALE as int, SCALE as int);
        assert(mul_full(rho, rho) == SCALE as int);
        lemma_sqrt_val(0);
        assert(is_isqrt(0, 0));
        lemma_isqrt_unique(0, fp_sqrt_spec(0), 0);
    }
    if rho == 0 {
        vstd::arithmetic::div_mod::lemma_div_of0(SCALE as int);
        assert(mul_full(0, 0) == 0);
        let s2 = (SCALE as int) * (SCALE as int);
        lemma_sqrt_val(s2);
        assert(s2 < (SCALE as int + 1) * (SCALE as int + 1)) by (nonlinear_arith)
            requires
                s2 == (SCALE as int) * (SCALE as int),
        ;
        assert(is_isqrt(s2, SCALE as int));
        lemma_isqrt_unique(s2, fp_sqrt_spec(SCALE as int), SCALE as int);
    }
}

/// Apply the Cholesky factor to one path's pair of independent innovation
/// rows and zero time index 0 of both. The first result row is the first
/// input row (zeroed at the start); the second mixes the rows entry by entry.
/// Fails only with a mixed entry out of the representable range.
pub fn correlate_pair(l21: i64, l22: i64, z_gas: &Vec<i64>, z_power: &Vec<i64>) -> (r: Result<
    (Vec<i64>, Vec<i64>),
    ValuationError,
>)
    requires
        -SCALE <= l21 <= SCALE,
        0 <= l22 <= SCALE,
        z_gas@.len() == z_power@.len(),
        z_gas@.len() >= 1,
        forall|i: int| 0 <= i < z_gas@.len() ==> in_range(#[trigger] z_gas@[i] as int),
        forall|i: int| 0 <= i < z_power@.len() ==> in_range(#[trigger] z_power@[i] as int),
    ensures
        r is Ok <==> mixed_row_ok(l21, l22, z_gas@, z_power@),
        r matches Err(e) ==> e == ValuationError::NumericDegeneracy,
        r matches Ok(c) ==> c.0@ == zeroed_row(z_gas@) && c.1@ == mixed_row(
            l21,
            l22,
            z_gas@,
            z_power@,
        ),
        r matches Ok(c) ==> {
            &&& c.0@.len() == z_gas@.len()
            &&& c.1@.len() == z_gas@.len()
            &&& c.0@[0] == 0i64
            &&& c.1@[0] == 0i64
            &&& forall|i: int| 1 <= i < z_gas@.len() ==> #[trigger] c.0@[i] == z_gas@[i]
            &&& forall|i: int|
                1 <= i < z_gas@.len() ==> Some(#[trigger] c.1@[i]) == corr_elem(
                    l21 as int,
                    l22 as int,
                    z_gas@[i],
                    z_power@[i],
                )
            &&& forall|i: int| 0 <= i < z_gas@.len() ==> in_range(#[trigger] c.0@[i] as int)
            &&& forall|i: int| 0 <= i < z_gas@.len() ==> in_range(#[trigger] c.1@[i] as int)
        },
{
    let n = z_gas.len();
    let mut row_gas: Vec<i64> = Vec::new();
    let mut row_power: Vec<i64> = Vec::new();
    row_gas.push(0);
    row_power.push(0);
    let mut i: usize = 1;
    while i < n
        invariant
            -SCALE <= l21 <= SCALE,
            0 <= l22 <= SCALE,
            n == z_gas@.len(),
            z_gas@.len() == z_power@.len(),
            forall|k: int| 0 <= k < z_gas@.len() ==> in_range(#[trigger] z_gas@[k] as int),
            forall|k: int| 0 <= k < z_power@.len() ==> in_range(#[trigger] z_power@[k] as int),
            1 <= i <= n,
            row_gas@.len() == i,
            row_power@.len() == i,
            row_gas@[0] == 0i64,
            row_power@[0] == 0i64,
            forall|k: int| 1 <= k < i ==> #[trigger] row_gas@[k] == z_gas@[k],
            forall|k: int|
                1 <= k < i ==> Some(#[trigger] row_power@[k]) == corr_elem(
                    l21 as int,
                    l22 as int,
                    z_gas@[k],
                    z_power@[k],
                ),
            forall|k: int| 0 <= k < i ==> in_range(#[trigger] row_gas@[k] as int),
            forall|k: int| 0 <= k < i ==> in_range(#[trigger] row_power@[k] as int),
        decreases n - i,
    {
        proof {
            lemma_mul_full_contract(z_gas@[i as int] as int, l21 as int);
            lemma_mul_full_contract(z_power@[i as int] as int, l22 as int);
            vstd::arithmetic::mul::lemma_mul_is_commutative(l21 as int, z_gas@[i as int] as int);
            vstd::arithmetic::mul::lemma_mul_is_commutative(l22 as int, z_power@[i as int] as int);
        }
        let x = match fp_mul(l21, z_gas[i]) {
            Option::Some(v) => v,
            Option::None => {
                proof {
                    assert(false);
                }
                0
            },
        };
        let y = match fp_mul(l22, z_power[i]) {
            Option::Some(v) => v,
            Option::None => {
                proof {
                    assert(false);
                }
                0
            },
        };
        match fp_add(x, y) {
            Option::Some(mixed) => {
                row_gas.push(z_gas[i]);
                row_power.push(mixed);
            },
            Option::None => {
                proof {
                    assert(corr_elem(
                        l21 as int,
                        l22 as int,
                        z_gas@[i as int],
                        z_power@[i as int],
                    ) is None);
                }
                return Err(ValuationError::NumericDegeneracy);
            },
        }
        i = i + 1;
    }
    proof {
        assert forall|k: int|
            1 <= k < z_gas@.len() implies #[trigger] corr_elem(
            l21 as int,
            l22 as int,
            z_gas@[k],
            z_power@[k],
        ) is Some by {
            assert(Some(row_power@[k]) == corr_elem(l21 as int, l22 as int, z_gas@[k], z_power@[k]));
        };
        assert(row_gas@ =~= zeroed_row(z_gas@));
        assert(row_power@ =~= mixed_row(l21, l22, z_gas@, z_power@));
    }
    Ok((row_gas, row_power))
}

} // verus!

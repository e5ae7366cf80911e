//! Fixed-point exponential.
//!
//! For arguments in [0, 1] the value is a truncated Taylor series; larger
//! arguments are halved recursively and the half-result squared, since
//! `exp(x) = exp(x/2)^2`. Negative arguments go through the reciprocal. Every
//! squaring is range-checked: `None` means the true result is too large to
//! represent, and callers report that as numeric degeneracy. A result of a
//! very negative argument rounds down to exactly zero, the nearest
//! representable fixed-point value.

use vstd::prelude::*;
use crate::fixed::{
    MAX_ABS, SCALE, in_range, mul_full, tdiv, spec_mul, fp_mul, fp_div_int, lemma_tdiv_magnitude,
    lemma_mul_full_le, lemma_mul_full_square_grows, lemma_mul_full_zero,
};

verus! {

/// Number of Taylor terms past the constant one; enough that the truncation
/// error on [0, 1] is far below one fixed-point unit.
pub const TAYLOR_TERMS: i64 = 13;

/// The `j`-th Taylor term of `exp` at `y`, in fixed point: `y^j / j!` with
/// truncation after every step.
pub open spec fn taylor_term(y: int, j: nat) -> int
    decreases j,
{
    if j == 0 {
        SCALE as int
    } else {
        tdiv(mul_full(taylor_term(y, (j - 1) as nat), y), j as int)
    }
}

/// Partial Taylor sum of `exp` at `y` through term `j`.
pub open spec fn taylor_sum(y: int, j: nat) -> int
    decreases j,
{
    if j == 0 {
        SCALE as int
    } else {
        taylor_sum(y, (j - 1) as nat) + taylor_term(y, j)
    }
}

/// Fixed-point `exp` on non-negative arguments: Taylor on [0, 1], otherwise
/// square the value at half the argument; `None` when the result cannot be
/// represented.
pub open spec fn exp_pos_spec(x: int) -> Option<int>
    decreases x,
    when x >= 0
{
    if x <= SCALE as int {
        Some(taylor_sum(x, TAYLOR_TERMS as nat))
    } else {
        match exp_pos_spec(x / 2) {
            Option::None => Option::None,
            Option::Some(h) => if in_range(mul_full(h, h)) {
                Some(mul_full(h, h))
            } else {
                Option::None
            },
        }
    }
}

/// Fixed-point `exp` on the whole representable range. A very negative
/// argument, whose true result is below one fixed-point unit, gives exactly
/// zero.
pub open spec fn exp_spec(x: int) -> Option<int> {
    if x >= 0 {
        exp_pos_spec(x)
    } else {
        match exp_pos_spec(-x) {
            Option::Some(v) => Some(tdiv((SCALE as int) * (SCALE as int), v)),
            Option::None => Some(0),
        }
    }
}

pub proof fn lemma_taylor_term_bounds(y: int, j: nat)
    requires
        0 <= y <= SCALE as int,
    ensures
        0 <= taylor_term(y, j) <= SCALE as int,
    decreases j,
{
    if j > 0 {
        lemma_taylor_term_bounds(y, (j - 1) as nat);
        lemma_mul_full_le(taylor_term(y, (j - 1) as nat), y);
        lemma_tdiv_magnitude(mul_full(taylor_term(y, (j - 1) as nat), y), j as int);
    }
}

pub proof fn lemma_taylor_sum_bounds(y: int, j: nat)
    requires
        0 <= y <= SCALE as int,
    ensures
        SCALE as int <= taylor_sum(y, j) <= (j + 1) * (SCALE as int),
    decreases j,
{
    if j == 0 {
    } else {
        lemma_taylor_sum_bounds(y, (j - 1) as nat);
        lemma_taylor_term_bounds(y, j);
        assert((j + 1) * (SCALE as int) == j * (SCALE as int) + SCALE as int)
            by (nonlinear_arith);
    }
}

/// At argument zero every term past the constant one vanishes.
pub proof fn lemma_taylor_term_zero(j: nat)
    ensures
        j == 0 ==> taylor_term(0, j) == SCALE as int,
        j > 0 ==> taylor_term(0, j) == 0,
    decreases j,
{
    if j > 0 {
        lemma_taylor_term_zero((j - 1) as nat);
        lemma_mul_full_zero(taylor_term(0, (j - 1) as nat));
    }
}

/// The Taylor sum at zero is exactly one.
pub proof fn lemma_taylor_sum_zero(j: nat)
    ensures
        taylor_sum(0, j) == SCALE as int,
    decreases j,
{
    if j > 0 {
        lemma_taylor_sum_zero((j - 1) as nat);
        lemma_taylor_term_zero(j);
    }
}

/// `exp(0)` is exactly one, the anchor of every exactness law downstream.
pub proof fn lemma_exp_zero()
    ensures
        exp_spec(0) == Some(SCALE as int),
{
    lemma_taylor_sum_zero(TAYLOR_TERMS as nat);
}

/// A defined positive-argument result lies between one and the range bound.
pub proof fn lemma_exp_pos_at_least_one(x: int)
    requires
        x >= 0,
        exp_pos_spec(x) is Some,
    ensures
        SCALE as int <= exp_pos_spec(x)->Some_0,
        in_range(exp_pos_spec(x)->Some_0),
    decreases x,
{
    if x <= SCALE as int {
        lemma_taylor_sum_bounds(x, TAYLOR_TERMS as nat);
    } else {
        lemma_tdiv_magnitude(x, 2);
        lemma_exp_pos_at_least_one(x / 2);
        let h = exp_pos_spec(x / 2)->Some_0;
        lemma_mul_full_square_grows(h);
    }
}

/// A defined exponential is never negative and always representable.
pub proof fn lemma_exp_nonneg(x: int)
    requires
        exp_spec(x) is Some,
    ensures
        0 <= exp_spec(x)->Some_0,
        in_range(exp_spec(x)->Some_0),
{
    if x >= 0 {
        lemma_exp_pos_at_least_one(x);
    } else {
        if exp_pos_spec(-x) is Some {
            lemma_exp_pos_at_least_one(-x);
            let v = exp_pos_spec(-x)->Some_0;
            vstd::arithmetic::div_mod::lemma_div_pos_is_pos((SCALE as int) * (SCALE as int), v);
            lemma_tdiv_magnitude((SCALE as int) * (SCALE as int), v);
            vstd::arithmetic::div_mod::lemma_div_is_ordered_by_denominator(
                (SCALE as int) * (SCALE as int),
                1,
                v,
            );
        }
    }
}

/// Truncated Taylor series of `exp` on [0, 1].
fn taylor_exp(y: i64) -> (r: i64)
    requires
        0 <= y <= SCALE,
    ensures
        r == taylor_sum(y as int, TAYLOR_TERMS as nat),
        SCALE <= r <= (TAYLOR_TERMS + 1) * SCALE,
{
    let mut term: i64 = SCALE;
    let mut acc: i64 = SCALE;
    let mut j: i64 = 1;
    while j <= TAYLOR_TERMS
        invariant
            0 <= y <= SCALE,
            1 <= j <= TAYLOR_TERMS + 1,
            term == taylor_term(y as int, (j - 1) as nat),
            0 <= term <= SCALE,
            acc == taylor_sum(y as int, (j - 1) as nat),
            SCALE <= acc <= j * SCALE,
        decreases TAYLOR_TERMS + 1 - j,
    {
        proof {
            lemma_mul_full_le(term as int, y as int);
        }
        let num = match fp_mul(term, y) {
            Option::Some(n) => n,
            Option::None => {
                proof {
                    assert(false);
                }
                0
            },
        };
        proof {
            lemma_tdiv_magnitude(num as int, j as int);
        }
        term = fp_div_int(num, j);
        proof {
            assert((j + 1) * (SCALE as int) == j * (SCALE as int) + SCALE as int)
                by (nonlinear_arith);
        }
        acc = acc + term;
        j = j + 1;
    }
    acc
}

/// Fixed-point `exp` on non-negative arguments.
fn exp_pos(x: i64) -> (r: Option<i64>)
    requires
        0 <= x <= MAX_ABS,
    ensures
        r is Some <==> exp_pos_spec(x as int) is Some,
        r matches Some(v) ==> exp_pos_spec(x as int) == Some(v as int) && SCALE <= v <= MAX_ABS,
    decreases x,
{
    if x <= SCALE {
        Some(taylor_exp(x))
    } else {
        let half = fp_div_int(x, 2);
        proof {
            lemma_tdiv_magnitude(x as int, 2);
        }
        match exp_pos(half) {
            Option::None => None,
            Option::Some(h) => {
                let sq = fp_mul(h, h);
                proof {
                    if sq is Some {
                        lemma_mul_full_square_grows(h as int);
                    }
                }
                sq
            },
        }
    }
}

/// Fixed-point `exp`. `None` reports a result too large to represent; a very
/// negative argument gives exactly zero.
pub fn exp_fp(x: i64) -> (r: Option<i64>)
    requires
        in_range(x as int),
    ensures
        r is Some <==> exp_spec(x as int) is Some,
        r matches Some(v) ==> exp_spec(x as int) == Some(v as int) && 0 <= v <= MAX_ABS,
{
    if x >= 0 {
        exp_pos(x)
    } else {
        match exp_pos(-x) {
            Option::Some(v) => {
                proof {
                    lemma_tdiv_magnitude((SCALE as int) * (SCALE as int), v as int);
                }
                let num: i64 = SCALE * SCALE;
                Some(fp_div_int(num, v))
            },
            Option::None => Some(0),
        }
    }
}

} // verus!

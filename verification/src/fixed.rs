//! Checked signed fixed-point arithmetic.
//!
//! A quantity `x` stands for the real number `x / SCALE`. Operations that can
//! leave the representable range return `None`; callers surface that as a
//! numeric-degeneracy error instead of carrying a wrapped or saturated value
//! onward.

use vstd::prelude::*;

verus! {

/// Number of fixed-point units in 1.0.
pub const SCALE: i64 = 1_000_000;

/// Largest magnitude a fixed-point value may take; anything beyond it is
/// reported as numeric degeneracy.
pub const MAX_ABS: i64 = 1_000_000_000_000_000_000;

/// Truncating division (rounding toward zero), the behaviour of `/` on the
/// machine's signed integers; meaningful for `d > 0`.
pub open spec fn tdiv(x: int, d: int) -> int {
    if x >= 0 {
        x / d
    } else {
        -((-x) / d)
    }
}

/// Whether a fixed-point value is representable.
pub open spec fn in_range(x: int) -> bool {
    -(MAX_ABS as int) <= x <= MAX_ABS as int
}

/// Exact fixed-point product, before the range check.
pub open spec fn mul_full(a: int, b: int) -> int {
    tdiv(a * b, SCALE as int)
}

/// Checked fixed-point addition.
pub open spec fn spec_add(a: int, b: int) -> Option<i64> {
    if in_range(a + b) {
        Some((a + b) as i64)
    } else {
        None
    }
}

/// Checked fixed-point multiplication.
pub open spec fn spec_mul(a: int, b: int) -> Option<i64> {
    if in_range(mul_full(a, b)) {
        Some(mul_full(a, b) as i64)
    } else {
        None
    }
}

/// Checked product of a fixed-point value and a plain integer.
pub open spec fn spec_mul_int(a: int, n: int) -> Option<i64> {
    if in_range(a * n) {
        Some((a * n) as i64)
    } else {
        None
    }
}

/// Truncating division of a fixed-point value by a positive plain integer.
pub open spec fn spec_div_int(a: int, n: int) -> int {
    tdiv(a, n)
}

/// Truncating division never grows the magnitude and never flips the sign.
pub proof fn lemma_tdiv_magnitude(x: int, d: int)
    requires
        d >= 1,
    ensures
        x >= 0 ==> 0 <= tdiv(x, d) <= x,
        x < 0 ==> x <= tdiv(x, d) <= 0,
{
    if x >= 0 {
        vstd::arithmetic::div_mod::lemma_div_nonincreasing(x, d);
        vstd::arithmetic::div_mod::lemma_div_pos_is_pos(x, d);
    } else {
        vstd::arithmetic::div_mod::lemma_div_nonincreasing(-x, d);
        vstd::arithmetic::div_mod::lemma_div_pos_is_pos(-x, d);
    }
}

/// Truncating division on wide integers, via unsigned division on the
/// magnitude.
fn div_i128(x: i128, d: i128) -> (r: i128)
    requires
        d >= 1,
        x > i128::MIN,
    ensures
        r == tdiv(x as int, d as int),
        x >= 0 ==> 0 <= r <= x,
        x < 0 ==> x <= r <= 0,
{
    proof {
        lemma_tdiv_magnitude(x as int, d as int);
    }
    if x >= 0 {
        let q: u128 = (x as u128) / (d as u128);
        q as i128
    } else {
        let q: u128 = ((-x) as u128) / (d as u128);
        -(q as i128)
    }
}

/// Checked fixed-point addition; `None` reports a value out of range.
pub fn fp_add(a: i64, b: i64) -> (r: Option<i64>)
    ensures
        r == spec_add(a as int, b as int),
        r matches Some(v) ==> in_range(v as int),
{
    let s: i128 = a as i128 + b as i128;
    if -(MAX_ABS as i128) <= s && s <= MAX_ABS as i128 {
        Some(s as i64)
    } else {
        None
    }
}

/// Checked fixed-point subtraction.
pub fn fp_sub(a: i64, b: i64) -> (r: Option<i64>)
    ensures
        r == spec_add(a as int, -(b as int)),
        r matches Some(v) ==> in_range(v as int),
{
    let s: i128 = a as i128 - b as i128;
    if -(MAX_ABS as i128) <= s && s <= MAX_ABS as i128 {
        Some(s as i64)
    } else {
        None
    }
}

/// Checked fixed-point multiplication: `(a * b) / SCALE`, truncated.
pub fn fp_mul(a: i64, b: i64) -> (r: Option<i64>)
    ensures
        r == spec_mul(a as int, b as int),
        r matches Some(v) ==> in_range(v as int),
{
    proof {
        lemma_i64_product_fits(a as int, b as int);
    }
    let p: i128 = (a as i128) * (b as i128);
    let q: i128 = div_i128(p, SCALE as i128);
    if -(MAX_ABS as i128) <= q && q <= MAX_ABS as i128 {
        Some(q as i64)
    } else {
        None
    }
}

/// Checked product of a fixed-point value and a plain integer count.
pub fn fp_mul_int(a: i64, n: i64) -> (r: Option<i64>)
    ensures
        r == spec_mul_int(a as int, n as int),
        r matches Some(v) ==> in_range(v as int),
{
    proof {
        lemma_i64_product_fits(a as int, n as int);
    }
    let p: i128 = (a as i128) * (n as i128);
    if -(MAX_ABS as i128) <= p && p <= MAX_ABS as i128 {
        Some(p as i64)
    } else {
        None
    }
}

/// Truncating division of a fixed-point value by a positive integer; total,
/// since the magnitude can only shrink.
pub fn fp_div_int(a: i64, n: i64) -> (r: i64)
    requires
        n >= 1,
    ensures
        r == spec_div_int(a as int, n as int),
        in_range(a as int) ==> in_range(r as int),
{
    let q: i128 = div_i128(a as i128, n as i128);
    q as i64
}

/// Multiplying a non-negative value by a factor in [0, 1] cannot grow it.
pub proof fn lemma_mul_full_le(a: int, b: int)
    requires
        0 <= a,
        0 <= b <= SCALE as int,
    ensures
        0 <= mul_full(a, b) <= a,
{
    vstd::arithmetic::mul::lemma_mul_nonnegative(a, b);
    vstd::arithmetic::mul::lemma_mul_upper_bound(a, a, b, SCALE as int);
    vstd::arithmetic::div_mod::lemma_div_is_ordered(a * b, a * (SCALE as int), SCALE as int);
    vstd::arithmetic::mul::lemma_mul_is_commutative(a, SCALE as int);
    vstd::arithmetic::div_mod::lemma_div_multiples_vanish(a, SCALE as int);
    lemma_tdiv_magnitude(a * b, SCALE as int);
}

/// Multiplying by a factor of magnitude at most 1 cannot grow the magnitude.
pub proof fn lemma_mul_full_contract(a: int, b: int)
    requires
        -(SCALE as int) <= b <= SCALE as int,
    ensures
        a >= 0 ==> -a <= mul_full(a, b) <= a,
        a < 0 ==> a <= mul_full(a, b) <= -a,
{
    let m = if a >= 0 { a } else { -a };
    let p = a * b;
    assert(-(m * (SCALE as int)) <= p <= m * (SCALE as int)) by (nonlinear_arith)
        requires
            -(SCALE as int) <= b <= SCALE as int,
            m == (if a >= 0 { a } else { -a }),
            p == a * b,
    ;
    vstd::arithmetic::div_mod::lemma_div_multiples_vanish(m, SCALE as int);
    vstd::arithmetic::mul::lemma_mul_is_commutative(m, SCALE as int);
    if p >= 0 {
        vstd::arithmetic::div_mod::lemma_div_is_ordered(p, m * (SCALE as int), SCALE as int);
        vstd::arithmetic::div_mod::lemma_div_pos_is_pos(p, SCALE as int);
    } else {
        vstd::arithmetic::div_mod::lemma_div_is_ordered(-p, m * (SCALE as int), SCALE as int);
        vstd::arithmetic::div_mod::lemma_div_pos_is_pos(-p, SCALE as int);
    }
}

/// Truncating division preserves order.
pub proof fn lemma_tdiv_monotone(x1: int, x2: int, d: int)
    requires
        x1 <= x2,
        d >= 1,
    ensures
        tdiv(x1, d) <= tdiv(x2, d),
{
    lemma_tdiv_magnitude(x1, d);
    lemma_tdiv_magnitude(x2, d);
    if x1 >= 0 {
        vstd::arithmetic::div_mod::lemma_div_is_ordered(x1, x2, d);
    } else if x2 < 0 {
        vstd::arithmetic::div_mod::lemma_div_is_ordered(-x2, -x1, d);
    }
}

/// Scaling by a non-negative factor preserves order.
pub proof fn lemma_mul_full_monotone(a1: int, a2: int, b: int)
    requires
        a1 <= a2,
        b >= 0,
    ensures
        mul_full(a1, b) <= mul_full(a2, b),
{
    vstd::arithmetic::mul::lemma_mul_inequality(a1, a2, b);
    lemma_tdiv_monotone(a1 * b, a2 * b, SCALE as int);
}

/// Multiplying a value that is at least 1 by itself cannot shrink it.
pub proof fn lemma_mul_full_square_grows(h: int)
    requires
        SCALE as int <= h,
    ensures
        h <= mul_full(h, h),
{
    vstd::arithmetic::mul::lemma_mul_left_inequality(h, SCALE as int, h);
    vstd::arithmetic::mul::lemma_mul_is_commutative(h, SCALE as int);
    vstd::arithmetic::div_mod::lemma_div_is_ordered(h * (SCALE as int), h * h, SCALE as int);
    vstd::arithmetic::div_mod::lemma_div_multiples_vanish(h, SCALE as int);
    vstd::arithmetic::mul::lemma_mul_nonnegative(h, h);
}

/// Scaling by the fixed-point unit is the identity.
pub proof fn lemma_mul_full_one(a: int)
    ensures
        mul_full(a, SCALE as int) == a,
        mul_full(SCALE as int, a) == a,
{
    vstd::arithmetic::mul::lemma_mul_is_commutative(a, SCALE as int);
    if a >= 0 {
        vstd::arithmetic::div_mod::lemma_div_multiples_vanish(a, SCALE as int);
    } else {
        vstd::arithmetic::div_mod::lemma_div_multiples_vanish(-a, SCALE as int);
        vstd::arithmetic::mul::lemma_mul_unary_negation(a, SCALE as int);
    }
}

/// Scaling by minus one unit is exact negation.
pub proof fn lemma_mul_full_neg_one(a: int)
    ensures
        mul_full(-(SCALE as int), a) == -a,
        mul_full(a, -(SCALE as int)) == -a,
{
    vstd::arithmetic::mul::lemma_mul_unary_negation(SCALE as int, a);
    vstd::arithmetic::mul::lemma_mul_unary_negation(a, SCALE as int);
    vstd::arithmetic::mul::lemma_mul_is_commutative(a, SCALE as int);
    if a >= 0 {
        vstd::arithmetic::div_mod::lemma_div_multiples_vanish(a, SCALE as int);
    } else {
        vstd::arithmetic::div_mod::lemma_div_multiples_vanish(-a, SCALE as int);
    }
}

/// A factor of zero gives exactly zero.
pub proof fn lemma_mul_full_zero(a: int)
    ensures
        mul_full(a, 0) == 0,
        mul_full(0, a) == 0,
{
    vstd::arithmetic::mul::lemma_mul_by_zero_is_zero(a);
    vstd::arithmetic::div_mod::lemma_div_of0(SCALE as int);
}

proof fn lemma_i64_product_fits(a: int, b: int)
    requires
        i64::MIN <= a <= i64::MAX,
        i64::MIN <= b <= i64::MAX,
    ensures
        i128::MIN < a * b < i128::MAX,
{
    assert(i128::MIN < a * b < i128::MAX) by (nonlinear_arith)
        requires
            -0x8000_0000_0000_0000 <= a <= 0x7fff_ffff_ffff_ffff,
            -0x8000_0000_0000_0000 <= b <= 0x7fff_ffff_ffff_ffff;
}

} // verus!

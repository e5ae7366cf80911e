//! Integer and fixed-point square roots.
//!
//! `sqrt_val(x)` is the unique integer `r` with `r*r <= x < (r+1)*(r+1)`; the
//! fixed-point square root of `v` is `sqrt_val(v * SCALE)`, so that the result
//! is again a fixed-point value.

use vstd::prelude::*;
use crate::fixed::{MAX_ABS, SCALE, in_range};

verus! {

/// `r` is the rounded-down square root of `x`.
pub open spec fn is_isqrt(x: int, r: int) -> bool {
    0 <= r && r * r <= x && x < (r + 1) * (r + 1)
}

/// The rounded-down square root, as a spec-level value.
pub open spec fn sqrt_val(x: int) -> int {
    choose|r: int| #[trigger] is_isqrt(x, r)
}

/// The fixed-point square root of `v` (a fixed-point value), as a spec-level
/// value.
pub open spec fn fp_sqrt_spec(v: int) -> int {
    sqrt_val(v * SCALE)
}

pub proof fn lemma_isqrt_exists(x: nat)
    ensures
        exists|r: int| is_isqrt(x as int, r),
    decreases x,
{
    if x == 0 {
        assert(is_isqrt(0, 0));
    } else {
        lemma_isqrt_exists((x - 1) as nat);
        let r = choose|r: int| #[trigger] is_isqrt((x - 1) as int, r);
        if x < (r + 1) * (r + 1) {
            assert(is_isqrt(x as int, r));
        } else {
            assert(x == (r + 1) * (r + 1));
            assert((r + 1) * (r + 1) < (r + 2) * (r + 2)) by (nonlinear_arith)
                requires
                    r >= 0,
            ;
            assert(is_isqrt(x as int, r + 1));
        }
    }
}

pub proof fn lemma_isqrt_unique(x: int, r1: int, r2: int)
    requires
        is_isqrt(x, r1),
        is_isqrt(x, r2),
    ensures
        r1 == r2,
{
    assert(r1 == r2) by (nonlinear_arith)
        requires
            0 <= r1 && r1 * r1 <= x && x < (r1 + 1) * (r1 + 1),
            0 <= r2 && r2 * r2 <= x && x < (r2 + 1) * (r2 + 1),
    ;
}

/// `sqrt_val` meets its defining property on non-negative arguments.
pub proof fn lemma_sqrt_val(x: int)
    requires
        x >= 0,
    ensures
        is_isqrt(x, sqrt_val(x)),
{
    lemma_isqrt_exists(x as nat);
}

/// The square root of a value at most 1 is itself at most 1.
pub proof fn lemma_fp_sqrt_le_one(v: int)
    requires
        0 <= v <= SCALE as int,
    ensures
        0 <= fp_sqrt_spec(v) <= SCALE as int,
{
    vstd::arithmetic::mul::lemma_mul_upper_bound(v, SCALE as int, SCALE as int, SCALE as int);
    vstd::arithmetic::mul::lemma_mul_nonnegative(v, SCALE as int);
    lemma_sqrt_val(v * SCALE);
    let r = sqrt_val(v * SCALE);
    assert(r <= SCALE) by (nonlinear_arith)
        requires
            0 <= r,
            r * r <= v * (SCALE as int),
            v * (SCALE as int) <= (SCALE as int) * (SCALE as int),
    ;
}

/// Rounded-down square root by binary search on the wide unsigned range.
fn isqrt_u128(x: u128) -> (r: u128)
    requires
        x < 0x4000_0000_0000_0000_0000_0000_0000_0000u128,
    ensures
        is_isqrt(x as int, r as int),
        r as int == sqrt_val(x as int),
        r < 0x8000_0000_0000_0000u128,
{
    let mut lo: u128 = 0;
    let mut hi: u128 = 0x8000_0000_0000_0000;
    proof {
        assert((hi as int) * (hi as int) == 0x4000_0000_0000_0000_0000_0000_0000_0000int)
            by (nonlinear_arith)
            requires
                hi == 0x8000_0000_0000_0000u128,
        ;
    }
    while hi - lo > 1
        invariant
            lo < hi,
            hi <= 0x8000_0000_0000_0000u128,
            (lo as int) * (lo as int) <= x as int,
            (x as int) < (hi as int) * (hi as int),
        decreases hi - lo,
    {
        let mid: u128 = lo + (hi - lo) / 2;
        proof {
            assert((mid as int) * (mid as int) < 0x4000_0000_0000_0000_0000_0000_0000_0000int)
                by (nonlinear_arith)
                requires
                    mid < 0x8000_0000_0000_0000u128,
            ;
        }
        let sq: u128 = mid * mid;
        if sq <= x {
            lo = mid;
        } else {
            hi = mid;
        }
    }
    proof {
        assert(is_isqrt(x as int, lo as int));
        lemma_sqrt_val(x as int);
        lemma_isqrt_unique(x as int, lo as int, sqrt_val(x as int));
    }
    lo
}

/// Fixed-point square root of a non-negative fixed-point value.
pub fn fp_sqrt(v: i64) -> (r: i64)
    requires
        0 <= v <= MAX_ABS,
    ensures
        r as int == fp_sqrt_spec(v as int),
        0 <= r <= MAX_ABS,
        in_range(r as int),
{
    proof {
        assert((v as int) * (SCALE as int) <= 1_000_000_000_000_000_000_000_000int)
            by (nonlinear_arith)
            requires
                0 <= v <= MAX_ABS,
        ;
    }
    let x: u128 = (v as u128) * (SCALE as u128);
    let root: u128 = isqrt_u128(x);
    proof {
        assert(root <= 1_000_000_000_000u128) by (nonlinear_arith)
            requires
                is_isqrt(x as int, root as int),
                x <= 1_000_000_000_000_000_000_000_000int,
        ;
    }
    root as i64
}

} // verus!

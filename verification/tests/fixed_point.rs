use tolling_agreement_valuation::fixed::{MAX_ABS, SCALE, fp_add, fp_div_int, fp_mul, fp_sub};
use tolling_agreement_valuation::exp::exp_fp;
use tolling_agreement_valuation::sqrt::fp_sqrt;

#[test]
fn addition_is_exact_and_checked() {
    assert_eq!(fp_add(2 * SCALE, 3 * SCALE), Some(5 * SCALE));
    assert_eq!(fp_add(-SCALE, SCALE), Some(0));
    assert_eq!(fp_add(MAX_ABS, 1), None);
    assert_eq!(fp_sub(-MAX_ABS, 1), None);
}

#[test]
fn multiplication_scales_and_truncates_toward_zero() {
    // 2.5 * 4 = 10
    assert_eq!(fp_mul(2_500_000, 4_000_000), Some(10_000_000));
    // 1e-6 * 1e-6 truncates to zero
    assert_eq!(fp_mul(1, 1), Some(0));
    // truncation is toward zero for negatives too
    assert_eq!(fp_mul(-1, 1), Some(0));
    assert_eq!(fp_mul(MAX_ABS, MAX_ABS), None);
}

#[test]
fn integer_division_truncates_toward_zero() {
    assert_eq!(fp_div_int(7, 2), 3);
    assert_eq!(fp_div_int(-7, 2), -3);
    assert_eq!(fp_div_int(0, 365), 0);
}

#[test]
fn exp_of_zero_is_exactly_one() {
    assert_eq!(exp_fp(0), Some(SCALE));
}

#[test]
fn exp_of_one_matches_truncated_taylor_series() {
    // 13 Taylor terms with per-step truncation: 2.718277
    assert_eq!(exp_fp(SCALE), Some(2_718_277));
}

#[test]
fn exp_is_reciprocal_on_negated_argument() {
    let up = exp_fp(SCALE).unwrap();
    let down = exp_fp(-SCALE).unwrap();
    // 1/e in fixed point, via the truncated reciprocal of the Taylor value
    assert_eq!(down, (SCALE as i128 * SCALE as i128 / up as i128) as i64);
    // within a few fixed-point units of the true 0.367879
    assert!((down - 367_879).abs() < 10);
}

#[test]
fn exp_reports_overflow_and_underflows_to_zero() {
    // e^1000 is far beyond the representable range
    assert_eq!(exp_fp(1000 * SCALE), None);
    // e^-1000 rounds down to exactly zero
    assert_eq!(exp_fp(-1000 * SCALE), Some(0));
}

#[test]
fn square_roots_are_rounded_down_exactly() {
    assert_eq!(fp_sqrt(0), 0);
    assert_eq!(fp_sqrt(SCALE), SCALE);
    assert_eq!(fp_sqrt(4 * SCALE), 2 * SCALE);
    // sqrt(2) = 1.414213...
    assert_eq!(fp_sqrt(2 * SCALE), 1_414_213);
}

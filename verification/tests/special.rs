use pop_sim::special::exp_neg;
use pop_sim::special::exp_pos;
use pop_sim::special::ln;
use pop_sim::special::power;
use pop_sim::special::square;
use pop_sim::special::LN2;
use pop_sim::special::UNIT;

fn units(x: f64) -> u128 {
    (x * 1e18).round() as u128
}

fn as_f64(x: u128) -> f64 {
    x as f64 / 1e18
}

#[test]
fn exp_neg_of_known_arguments() {
    assert_eq!(exp_neg(0), UNIT);
    assert_eq!(exp_neg(1), UNIT - 1);
    assert_eq!(exp_neg(500_000_000_000_000_000), 606_530_659_712_633_426);
    assert_eq!(exp_neg(UNIT), 367_879_441_171_442_323);
    assert_eq!(exp_neg(2 * UNIT), 135_335_283_236_612_692);
    assert_eq!(exp_neg(40 * UNIT), 4);
}

#[test]
fn exp_neg_vanishes_past_sixty_four_halvings() {
    assert_eq!(exp_neg(64 * LN2 - 1), 0);
    assert_eq!(exp_neg(64 * LN2), 0);
    assert_eq!(exp_neg(u128::MAX), 0);
}

#[test]
fn exp_neg_is_close_to_the_exponential() {
    for step in 0..=440 {
        let t = step as f64 / 10.0;
        let got = as_f64(exp_neg(units(t)));
        assert!((got - (-t).exp()).abs() < 1e-15, "t = {}", t);
    }
}

#[test]
fn exp_pos_of_known_arguments() {
    assert_eq!(exp_pos(0), UNIT);
    assert_eq!(exp_pos(UNIT), 2_718_281_828_459_045_222);
    assert_eq!(exp_pos(21 * UNIT), 1_318_815_734_483_214_705_539_153_920);
    assert_eq!(exp_pos(64 * LN2 - 1), 18_446_744_073_709_551_505_319_535_557_742_690_304);
}

#[test]
fn exp_pos_is_close_to_the_exponential() {
    for step in 0..=440 {
        let t = step as f64 / 10.0;
        let got = as_f64(exp_pos(units(t)));
        let expected = t.exp();
        assert!((got - expected).abs() < 1e-14 * expected, "t = {}", t);
    }
}

#[test]
fn ln_of_known_arguments() {
    assert_eq!(ln(UNIT), 0);
    assert_eq!(ln(2 * UNIT), 693_147_180_559_945_309);
    assert_eq!(ln(1_500_000_000_000_000_000), 405_465_108_108_164_370);
    assert_eq!(ln(10 * UNIT), 2_302_585_092_994_045_675);
    assert_eq!(ln(400_000_000_000_000), -7_824_046_010_856_292_099);
    assert_eq!(ln(1), -41_446_531_673_892_822_273);
    assert_eq!(ln(1 << 127), 46_583_160_257_220_231_951);
}

#[test]
fn ln_is_close_to_the_logarithm() {
    for step in 1..=2000 {
        let x = step as f64 / 40.0;
        let got = ln(units(x)) as f64 / 1e18;
        assert!((got - x.ln()).abs() < 1e-15, "x = {}", x);
    }
    for &x in [1e-9f64, 1e-6, 0.0004, 2147483648.0, 9223372036.854775807].iter() {
        let got = ln(units(x)) as f64 / 1e18;
        assert!((got - x.ln()).abs() < 1e-13, "x = {}", x);
    }
}

#[test]
fn ln_changes_sign_at_one() {
    assert!(ln(UNIT - 1) <= 0);
    assert!(ln(UNIT + 1) >= 0);
    assert!(ln(UNIT / 2) < 0);
    assert!(ln(3 * UNIT) > 0);
}

#[test]
fn square_of_known_arguments() {
    assert_eq!(square(0), 0);
    assert_eq!(square(999_999_999), 0);
    assert_eq!(square(1_000_000_000), 1);
    assert_eq!(square(1_500_000_000_000_000_000), 2_250_000_000_000_000_000);
    assert_eq!(square((1 << 80) - 1), 1_461_501_637_330_902_918_203_682_414_864);
}

#[test]
fn power_of_known_arguments() {
    // 2 ^ 3
    assert_eq!(power(2 * UNIT, 3, 1), Some(8 * UNIT));
    // 2 ^ 0.5, the exponent in billionths
    assert_eq!(power(2 * UNIT, 500_000_000, 1_000_000_000), Some(1_414_213_562_373_095_042));
    // 0.4 ^ 2, the exponent in units
    assert_eq!(power(400_000_000_000_000_000, 2 * UNIT, UNIT), Some(160_000_000_000_000_003));
    // 9 ^ 0.5
    assert_eq!(power(9 * UNIT, 500_000_000_000_000_000, UNIT), Some(2_999_999_999_999_999_970));
    // 1 ^ anything
    assert_eq!(power(UNIT, u128::MAX, 1), Some(UNIT));
}

#[test]
fn power_of_zero() {
    assert_eq!(power(0, 0, 1_000_000_000), Some(UNIT));
    assert_eq!(power(0, 5, 1_000_000_000), Some(0));
}

#[test]
fn power_reports_overflow() {
    // 3 ^ 100
    assert_eq!(power(3 * UNIT, 100, 1), None);
    // 2 ^ 64 is the first power of two that is too large, 2 ^ 63 the last that fits
    assert_eq!(power(2 * UNIT, 64, 1), None);
    assert_eq!(power(2 * UNIT, 63, 1), Some((1u128 << 63) * UNIT));
    assert_eq!(power(2 * UNIT, u128::MAX, 1), None);
    // a shrinking power never overflows
    assert_eq!(power(UNIT / 2, u128::MAX, 1), Some(0));
}

use pop_sim::fixed::Fixed;
use pop_sim::population::cohort::fertility::Fertility;

const TFR: Fixed = Fixed { raw: 2_100_000_000 };

const BASELINE: [i64; 35] = [
    16_037_907,
    21_125_172,
    27_264_006,
    34_475_925,
    42_714_864,
    51_853_608,
    61_675_940,
    71_876_914,
    81_938_331,
    90_617_444,
    96_197_289,
    96_760_195,
    90_465_087,
    77_118_314,
    59_252_500,
    40_183_601,
    23_300_358,
    11_346_473,
    4_456_805,
    1_204_663,
    134_594,
    0,
    0,
    0,
    0,
    0,
    0,
    0,
    0,
    0,
    0,
    0,
    0,
    0,
    0,
];

fn shares(fertility: &Fertility) -> Vec<i64> {
    fertility.curve().iter().map(|share| share.raw).collect()
}

#[test]
fn baseline_curve_shares() {
    let fertility = Fertility::new(15, 50);
    assert_eq!(fertility.min_age(), 15);
    assert_eq!(fertility.max_age(), 50);
    assert_eq!(shares(&fertility), BASELINE.to_vec());
}

#[test]
fn shares_add_up_to_one() {
    for &(min_age, max_age) in [(15usize, 50usize), (0, 1), (10, 12), (0, 3), (20, 120), (7, 1000)].iter() {
        let fertility = Fertility::new(min_age, max_age);
        let count = (max_age - min_age) as i64;
        assert_eq!(fertility.curve().len() as i64, count);
        let sum: i64 = shares(&fertility).iter().sum();
        assert!(sum <= 1_000_000_000);
        assert!(sum > 1_000_000_000 - count);
        assert!((sum as f64 / 1e9 - 1.0).abs() < 1e-6);
    }
    assert_eq!(shares(&Fertility::new(15, 50)).iter().sum::<i64>(), 999_999_990);
}

#[test]
fn small_curves() {
    assert_eq!(shares(&Fertility::new(0, 1)), vec![1_000_000_000]);
    assert_eq!(shares(&Fertility::new(10, 12)), vec![685_638_235, 314_361_764]);
    assert_eq!(shares(&Fertility::new(0, 3)), vec![146_524_662, 853_475_337, 0]);
}

#[test]
fn no_births_outside_the_fertile_ages() {
    let fertility = Fertility::new(15, 50);
    assert_eq!(fertility.birth_rate(14, TFR).raw, 0);
    assert_eq!(fertility.birth_rate(51, TFR).raw, 0);
    assert_eq!(fertility.birth_rate(0, TFR).raw, 0);
    assert_eq!(fertility.birth_rate(usize::MAX, TFR).raw, 0);
}

#[test]
fn no_share_is_held_for_the_last_age() {
    let fertility = Fertility::new(15, 50);
    assert_eq!(fertility.birth_rate(50, TFR).raw, 0);
    let short = Fertility::new(0, 1);
    assert_eq!(short.birth_rate(0, TFR).raw, 2_100_000_000);
    assert_eq!(short.birth_rate(1, TFR).raw, 0);
}

#[test]
fn birth_rate_is_the_share_times_the_total() {
    let fertility = Fertility::new(15, 50);
    // 0.016037907 * 2.1 = 0.0336796047
    assert_eq!(fertility.birth_rate(15, TFR).raw, 33_679_604);
    // 0.096197289 * 2.1 = 0.2020143069
    assert_eq!(fertility.birth_rate(25, TFR).raw, 202_014_306);
    for (i, share) in BASELINE.iter().enumerate() {
        let expected = (*share as i128 * 2_100_000_000 / 1_000_000_000) as i64;
        assert_eq!(fertility.birth_rate(15 + i, TFR).raw, expected);
    }
}

#[test]
fn birth_rate_with_other_totals() {
    let fertility = Fertility::new(15, 50);
    assert_eq!(fertility.birth_rate(25, Fixed { raw: 0 }).raw, 0);
    assert_eq!(fertility.birth_rate(25, Fixed { raw: 1_000_000_000 }).raw, 96_197_289);
    // a negative total rounds towards zero
    assert_eq!(fertility.birth_rate(25, Fixed { raw: -2_100_000_000 }).raw, -202_014_306);
    assert_eq!(fertility.birth_rate(25, Fixed { raw: i64::MAX }).raw, 887_263_385_383_837_519);
    assert_eq!(fertility.birth_rate(25, Fixed { raw: i64::MIN }).raw, -887_263_385_383_837_519);
}

#[test]
fn with_curve_checks_its_parts() {
    let half = Fixed { raw: 500_000_000 };
    let given = Fertility::with_curve(vec![half, half], 3, 5).unwrap();
    assert_eq!(given.min_age(), 3);
    assert_eq!(given.max_age(), 5);
    assert_eq!(given.birth_rate(4, TFR).raw, 1_050_000_000);
    assert_eq!(given.birth_rate(5, TFR).raw, 0);
    assert_eq!(given.birth_rate(2, TFR).raw, 0);
    assert!(Fertility::with_curve(vec![half, half], 3, 6).is_none());
    assert!(Fertility::with_curve(vec![], 3, 3).is_none());
    assert!(Fertility::with_curve(vec![half], 4, 3).is_none());
    assert!(Fertility::with_curve(vec![Fixed { raw: -1 }], 0, 1).is_none());
    assert!(Fertility::with_curve(vec![Fixed { raw: 1_000_000_001 }], 0, 1).is_none());
    assert!(Fertility::with_curve(vec![Fixed { raw: 1_000_000_000 }], 0, 1).is_some());
}

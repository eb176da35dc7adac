use pop_sim::fixed::Fixed;
use pop_sim::population::cohort::fertility::Fertility;
use pop_sim::population::cohort::heligman_pollard::HPMortalityModel;
use pop_sim::population::cohort::members::apply_deaths;
use pop_sim::population::cohort::members::Members;
use pop_sim::population::cohort::Cohort;
use pop_sim::population::cohort::Dimension;

const TFR: Fixed = Fixed { raw: 2_100_000_000 };

fn immortal() -> HPMortalityModel {
    let zero = Fixed { raw: 0 };
    let one = Fixed { raw: 1_000_000_000 };
    HPMortalityModel::new(zero, zero, zero, zero, one, one, Fixed { raw: 1 }, one).unwrap()
}

fn counts(cohort: &Cohort) -> (usize, usize, i64, i64) {
    (
        cohort.members.males(),
        cohort.members.females(),
        cohort.members.male_dying().raw,
        cohort.members.female_dying().raw,
    )
}

#[test]
fn new_cohort_has_the_baseline_curves() {
    let cohort = Cohort::new(7, 9, -3);
    assert_eq!(counts(&cohort), (7, 9, 0, 0));
    assert_eq!(cohort.birth_year, -3);
    assert!(cohort.attributes.is_empty());
    assert_eq!(cohort.fertility.min_age(), 15);
    assert_eq!(cohort.fertility.max_age(), 50);
    assert_eq!(cohort.male_mortality, HPMortalityModel::baseline_male());
    assert_eq!(cohort.female_mortality, HPMortalityModel::baseline_female());
}

#[test]
fn no_births_before_the_birth_year() {
    let cohort = Cohort::new(20, 1000, 30);
    assert_eq!(cohort.births(29, TFR), 0);
    assert_eq!(cohort.births(i32::MIN, TFR), 0);
}

#[test]
fn births_are_the_rate_times_the_females() {
    let cohort = Cohort::new(20, 1000, 0);
    assert_eq!(cohort.births(14, TFR), 0);
    assert_eq!(cohort.births(15, TFR), 33_679_604_000);
    assert_eq!(cohort.births(25, TFR), 202_014_306_000);
    assert_eq!(cohort.births(49, TFR), 0);
    assert_eq!(cohort.births(50, TFR), 0);
    assert_eq!(cohort.births(51, TFR), 0);
    assert_eq!(cohort.births(25, Fixed { raw: -2_100_000_000 }), -202_014_306_000);
    assert_eq!(cohort.births(25, Fixed { raw: 1 }), 0);
    assert_eq!(Cohort::new(1000, 0, 0).births(25, TFR), 0);
}

#[test]
fn births_at_the_ends_of_the_range() {
    let cohort = Cohort::new(0, usize::MAX, i32::MIN);
    assert_eq!(cohort.births(i32::MAX, TFR), 0);
    let age_25 = Cohort::new(0, usize::MAX, i32::MAX - 25);
    assert_eq!(age_25.births(i32::MAX, Fixed { raw: i64::MAX }), 887_263_385_383_837_519 * usize::MAX as i128);
}

#[test]
fn deaths_before_the_birth_year_change_nothing() {
    let cohort = Cohort::new(10, 12, 5);
    let after = cohort.perform_deaths(4, 3, 20).unwrap();
    assert_eq!(counts(&after), (10, 12, 0, 0));
    assert_eq!(after.birth_year, 5);
}

#[test]
fn one_year_of_baseline_mortality() {
    // at age one: 100000 * 0.000503551 = 50.3551 and 100000 * 0.000418591 = 41.8591
    let cohort = Cohort::new(100_000, 100_000, -1);
    let after = cohort.perform_deaths(0, 0, 0).unwrap();
    assert_eq!(counts(&after), (99_950, 99_959, 355_100_000, 859_100_000));
    // the fractions are carried into the next year, age two:
    // 99950 * 0.000340946 + 0.3551 = 34.4326527 and 99959 * 0.000266836 + 0.8591 = 27.5317597
    let later = after.perform_deaths(1, 0, 0).unwrap();
    assert_eq!(counts(&later), (99_916, 99_932, 432_652_700, 531_759_724));
}

#[test]
fn the_last_member_forced_to_die_retires_the_cohort() {
    assert!(Cohort::new(1, 0, 0).perform_deaths(0, 1, 0).is_none());
    assert!(Cohort::new(1, 0, 0).perform_deaths(7, 1, 0).is_none());
    assert!(Cohort::new(0, 1, 0).perform_deaths(0, 0, 1).is_none());
    assert!(Cohort::new(3, 4, -2).perform_deaths(0, 3, 4).is_none());
    assert!(Cohort::new(3, 4, -2).perform_deaths(0, usize::MAX, usize::MAX).is_none());
    assert!(Cohort::new(3, 4, -2).perform_deaths(0, 3, 3).is_some());
    assert!(Cohort::new(1, 0, 1).perform_deaths(0, 1, 0).is_some());
}

#[test]
fn an_empty_cohort_is_retired() {
    assert!(Cohort::new(0, 0, 0).perform_deaths(0, 0, 0).is_none());
    assert!(Cohort::new(0, 0, 0).perform_deaths(-1, 0, 0).is_some());
}

#[test]
fn forced_deaths_are_taken_before_the_natural_ones() {
    // age one, ten forced male deaths: (100000 - 10) * 0.000503551 + 10 = 60.35006449
    let after = Cohort::new(100_000, 100_000, -1).perform_deaths(0, 10, 0).unwrap();
    assert_eq!(counts(&after), (99_940, 99_959, 350_064_490, 859_100_000));
}

#[test]
fn without_mortality_nothing_changes() {
    let members = Members::with_remainders(
        40,
        50,
        Fixed { raw: 123_456_789 },
        Fixed { raw: 999_999_999 },
    )
    .unwrap();
    let mut cohort = Cohort {
        members,
        birth_year: -10,
        attributes: Vec::new(),
        fertility: Fertility::new(15, 50),
        male_mortality: immortal(),
        female_mortality: immortal(),
    };
    for year in 0..60 {
        cohort = cohort.perform_deaths(year, 0, 0).unwrap();
        assert_eq!(counts(&cohort), (40, 50, 123_456_789, 999_999_999));
    }
}

#[test]
fn apply_deaths_follows_the_four_steps() {
    let quarter = Fixed { raw: 250_000_000 };
    let nine_tenths = Fixed { raw: 900_000_000 };
    // 7 survivors of the forced deaths, 1.75 natural deaths and 0.9 carried over, 3 forced
    let (alive, carried) = apply_deaths(10, 3, quarter, nine_tenths);
    assert_eq!((alive, carried.raw), (5, 650_000_000));
    // forced deaths beyond the living count in full
    let almost_one = Fixed { raw: 999_999_999 };
    let (alive, carried) = apply_deaths(5, 10, almost_one, almost_one);
    assert_eq!((alive, carried.raw), (0, 999_999_999));
    let (alive, carried) = apply_deaths(1, 1, Fixed { raw: 503_551 }, Fixed { raw: 0 });
    assert_eq!((alive, carried.raw), (0, 0));
    let (alive, carried) = apply_deaths(usize::MAX, 0, Fixed { raw: 1_000_000_000 }, almost_one);
    assert_eq!((alive, carried.raw), (0, 999_999_999));
    let (alive, carried) = apply_deaths(usize::MAX, usize::MAX, Fixed { raw: 0 }, Fixed { raw: 0 });
    assert_eq!((alive, carried.raw), (0, 0));
    let (alive, carried) = apply_deaths(8, 0, Fixed { raw: 0 }, nine_tenths);
    assert_eq!((alive, carried.raw), (8, 900_000_000));
}

#[test]
fn members_total_and_remainders() {
    let members = Members::new(3, 4);
    assert_eq!(members.total(), 7);
    assert_eq!(members.male_dying().raw, 0);
    assert_eq!(members.female_dying().raw, 0);
    let zero = Fixed { raw: 0 };
    assert!(Members::with_remainders(1, 1, Fixed { raw: 1_000_000_000 }, zero).is_none());
    assert!(Members::with_remainders(1, 1, zero, Fixed { raw: -1 }).is_none());
    assert!(Members::with_remainders(1, 1, Fixed { raw: 999_999_999 }, zero).is_some());
}

#[derive(Debug)]
struct Party;

impl Dimension for Party {}

#[test]
fn a_dimension_has_no_text_by_default() {
    assert_eq!(Party.to_yaml(), "unimplemented");
}

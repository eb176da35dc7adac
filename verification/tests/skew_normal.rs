use pop_sim::fixed::Fixed;
use pop_sim::skew_normal::compare;
use pop_sim::skew_normal::Curve;

fn fixed(x: f32) -> Fixed {
    Fixed { raw: (x as f64 * 1e9).round() as i64 }
}

fn as_f32(x: Fixed) -> f32 {
    (x.raw as f64 / 1e9) as f32
}

// Skew -3
const REFERENCE_ARRAY: [(f32, f32); 161] =
    [ ( -5.0, 0.0000029734390294685954 )
    , ( -4.9375, 0.000004056279119311928 )
    , ( -4.875, 0.000005511885195099944 )
    , ( -4.8125, 0.000007460639096508988 )
    , ( -4.75, 0.00001005901457718489 )
    , ( -4.6875, 0.000013509472152285912 )
    , ( -4.625, 0.000018072775778102747 )
    , ( -4.5625, 0.000024083238011570993 )
    , ( -4.5, 0.00003196748221381095 )
    , ( -4.4375, 0.00004226739902689095 )
    , ( -4.375, 0.00005566806845842976 )
    , ( -4.3125, 0.00007303151646087455 )
    , ( -4.25, 0.0000954372730824099 )
    , ( -4.1875, 0.00012423079434083234 )
    , ( -4.125, 0.00016108089711118828 )
    , ( -4.0625, 0.0002080474295353678 )
    , ( -4.0, 0.00026766045152977074 )
    , ( -3.9375, 0.000343012222389447 )
    , ( -3.875, 0.0004378632755292242 )
    , ( -3.8125, 0.0005567637931967242 )
    , ( -3.75, 0.0007051913647348908 )
    , ( -3.6875, 0.0008897060082256206 )
    , ( -3.625, 0.0011181230444643297 )
    , ( -3.5625, 0.0013997040218938855 )
    , ( -3.5, 0.0017453653900915203 )
    , ( -3.4375, 0.002167903998229304 )
    , ( -3.375, 0.0026822377469807555 )
    , ( -3.3125, 0.0033056588448125163 )
    , ( -3.25, 0.004058096114599536 )
    , ( -3.1875, 0.0049623816722066 )
    , ( -3.125, 0.006044516070397512 )
    , ( -3.0625, 0.007333924692588452 )
    , ( -3.0, 0.008863696823876015 )
    , ( -2.9375, 0.01067079746317263 )
    , ( -2.875, 0.012796240621447113 )
    , ( -2.8125, 0.015285211637492803 )
    , ( -2.75, 0.01818712500318211 )
    , ( -2.6875, 0.021555603400541808 )
    , ( -2.625, 0.025448363193662865 )
    , ( -2.5625, 0.029926991571827894 )
    , ( -2.5, 0.03505660098713708 )
    , ( -2.4375, 0.0409053475455628 )
    , ( -2.375, 0.04754380165982761 )
    , ( -2.3125, 0.05504416160580894 )
    , ( -2.25, 0.06347930367133484 )
    , ( -2.1875, 0.07292166635238428 )
    , ( -2.125, 0.08344197051267722 )
    , ( -2.0625, 0.09510778252127926 )
    , ( -2.0, 0.10798193302637613 )
    , ( -1.9375, 0.12212081008213269 )
    , ( -1.875, 0.1375725516533838 )
    , ( -1.8125, 0.15437516887942143 )
    , ( -1.75, 0.17255463765302304 )
    , ( -1.6875, 0.1921230018102267 )
    , ( -1.625, 0.21307653626117015 )
    , ( -1.5625, 0.2353940224486401 )
    , ( -1.5, 0.2590351913317835 )
    , ( -1.4375, 0.2839393904104311 )
    , ( -1.375, 0.31002453091658644 )
    , ( -1.3125, 0.3371863690362302 )
    , ( -1.25, 0.36529817077804383 )
    , ( -1.1875, 0.3942108038371746 )
    , ( -1.125, 0.42375329155139896 )
    , ( -1.0625, 0.4537338539376254 )
    , ( -1.0, 0.48394144903828673 )
    , ( -0.9375, 0.5140772072360072 )
    , ( -0.875, 0.5435122196610405 )
    , ( -0.8125, 0.571446590741391 )
    , ( -0.75, 0.5969814328850127 )
    , ( -0.6875, 0.619133312694162 )
    , ( -0.625, 0.6368534030778641 )
    , ( -0.5625, 0.6490510771996798 )
    , ( -0.5, 0.6546214669523694 )
    , ( -0.4375, 0.6524762999713213 )
    , ( -0.375, 0.6415771358343889 )
    , ( -0.3125, 0.6209815492793612 )
    , ( -0.25, 0.5905751315231018 )
    , ( -0.1875, 0.5515482286020837 )
    , ( -0.125, 0.5054275153127539 )
    , ( -0.0625, 0.4539369310946262 )
    , ( 0.0, 0.3989422804014327 )
    , ( 0.0625, 0.3423907822791471 )
    , ( 0.125, 0.2862478585767451 )
    , ( 0.1875, 0.23243356790306008 )
    , ( 0.25, 0.18276110208259672 )
    , ( 0.3125, 0.1388796631178944 )
    , ( 0.375, 0.10213305190514894 )
    , ( 0.4375, 0.07258833410956912 )
    , ( 0.5, 0.04950918657622962 )
    , ( 0.5625, 0.032084111439981605 )
    , ( 0.625, 0.019468534022886022 )
    , ( 0.6875, 0.010813758159024581 )
    , ( 0.75, 0.005293431424596172 )
    , ( 0.8125, 0.002126744391437949 )
    , ( 0.875, 0.0005977770960466044 )
    , ( 0.9375, 0.00007060745746217689 )
    , ( 1.0, 0.0 )
    , ( 1.0625, 0.0 )
    , ( 1.125, 0.0 )
    , ( 1.1875, 0.0 )
    , ( 1.25, 0.0 )
    , ( 1.3125, 0.0 )
    , ( 1.375, 0.0 )
    , ( 1.4375, 0.0 )
    , ( 1.5, 0.0 )
    , ( 1.5625, 0.0 )
    , ( 1.625, 0.0 )
    , ( 1.6875, 0.0 )
    , ( 1.75, 0.0 )
    , ( 1.8125, 0.0 )
    , ( 1.875, 0.0 )
    , ( 1.9375, 0.0 )
    , ( 2.0, 0.0 )
    , ( 2.0625, 0.0 )
    , ( 2.125, 0.0 )
    , ( 2.1875, 0.0 )
    , ( 2.25, 0.0 )
    , ( 2.3125, 0.0 )
    , ( 2.375, 0.0 )
    , ( 2.4375, 0.0 )
    , ( 2.5, 0.0 )
    , ( 2.5625, 0.0 )
    , ( 2.625, 0.0 )
    , ( 2.6875, 0.0 )
    , ( 2.75, 0.0 )
    , ( 2.8125, 0.0 )
    , ( 2.875, 0.0 )
    , ( 2.9375, 0.0 )
    , ( 3.0, 0.0 )
    , ( 3.0625, 0.0 )
    , ( 3.125, 0.0 )
    , ( 3.1875, 0.0 )
    , ( 3.25, 0.0 )
    , ( 3.3125, 0.0 )
    , ( 3.375, 0.0 )
    , ( 3.4375, 0.0 )
    , ( 3.5, 0.0 )
    , ( 3.5625, 0.0 )
    , ( 3.625, 0.0 )
    , ( 3.6875, 0.0 )
    , ( 3.75, 0.0 )
    , ( 3.8125, 0.0 )
    , ( 3.875, 0.0 )
    , ( 3.9375, 0.0 )
    , ( 4.0, 0.0 )
    , ( 4.0625, 0.0 )
    , ( 4.125, 0.0 )
    , ( 4.1875, 0.0 )
    , ( 4.25, 0.0 )
    , ( 4.3125, 0.0 )
    , ( 4.375, 0.0 )
    , ( 4.4375, 0.0 )
    , ( 4.5, 0.0 )
    , ( 4.5625, 0.0 )
    , ( 4.625, 0.0 )
    , ( 4.6875, 0.0 )
    , ( 4.75, 0.0 )
    , ( 4.8125, 0.0 )
    , ( 4.875, 0.0 )
    , ( 4.9375, 0.0 )
    , ( 5.0, 0.0 )];

// The curve is good to about three decimal places, so that is how far the
// comparison goes.
fn trunc(x: f32) -> f32 {
    (x * 1000.0).trunc()
}

#[test]
fn zero_skew_symmetry() {
    let curve = Curve::new(fixed(0.0));
    for x_ in 1..91 {
        let x = x_ as f32;
        assert_eq!(curve.density_at(fixed(x / 30.0)), curve.density_at(fixed(-x / 30.0)));
    }
}

#[test]
fn three_skew_sign_symmetry() {
    let left = Curve::new(fixed(3.0));
    let right = Curve::new(fixed(-3.0));
    for x_ in 1..91 {
        let x = x_ as f32;
        assert_eq!(left.density_at(fixed(x / 30.0)), right.density_at(fixed(-x / 30.0)));
        assert_ne!(left.density_at(fixed(x / 30.0)), left.density_at(fixed(-x / 30.0)));
    }
}

#[test]
fn reference_values_test() {
    let curve = Curve::new(fixed(-3.0));
    for &(x, y) in REFERENCE_ARRAY.iter() {
        let result = trunc(as_f32(curve.density_at(fixed(x))));
        let reference = trunc(y);
        assert_eq!(result, reference)
    }
}

#[test]
fn range_test() {
    let curve = Curve::new(fixed(2.0));
    let range = curve.range_x_y_tuple(fixed(3.0), 120);
    let &(first, _) = range.first().unwrap();
    let &(last, _) = range.last().unwrap();
    assert_eq!(as_f32(first), -3.0);
    assert_eq!(as_f32(last), 3.0);
}

#[test]
fn range_reference_test() {
    let curve = Curve::new(fixed(-3.0));
    let range = curve.symmetric_range(fixed(5.0), 16);
    let zip = REFERENCE_ARRAY.iter().zip(range.iter());
    for (&(_, reference), actual) in zip {
        assert_eq!(trunc(reference), trunc(as_f32(*actual)));
    }
}

#[test]
fn limits_range() {
    let curve = Curve::new(fixed(-2.0));
    let range = curve.limits_range(fixed(-3.0), fixed(3.0), 10);
    assert_eq!(range.len(), 10);
    assert!(as_f32(range[0]) < 0.01);
    assert!(as_f32(range[3]) > as_f32(range[6]));
}

#[test]
fn domain() {
    let grid = Curve::domain(fixed(3.0), 120);
    assert_eq!(grid.len(), 721);
    assert_eq!(grid[0], Fixed { raw: -3_000_000_000 });
    assert_eq!(grid[1], Fixed { raw: -2_991_666_667 });
    assert_eq!(grid[361], Fixed { raw: 8_333_333 });
    assert_eq!(grid[720], Fixed { raw: 3_000_000_000 });
    let coarse = Curve::domain(Fixed { raw: 500_000_000 }, 3);
    let raws: Vec<i64> = coarse.iter().map(|x| x.raw).collect();
    assert_eq!(raws, vec![-500_000_000, -166_666_667, 166_666_666, 500_000_000]);
}

#[test]
fn domain_of_no_extent_is_one_point() {
    let grid = Curve::domain(fixed(0.0), 7);
    assert_eq!(grid, vec![Fixed { raw: 0 }]);
}

#[test]
fn domain_of_negative_extent_is_empty() {
    assert!(Curve::domain(fixed(-1.0), 3).is_empty());
}

#[test]
fn symmetric_range() {
    let curve = Curve::new(fixed(-3.0));
    let range = curve.symmetric_range(fixed(1.0), 2);
    let raws: Vec<i64> = range.iter().map(|y| y.raw).collect();
    assert_eq!(raws, vec![483_941_449, 654_621_466, 398_942_280, 49_509_186, 0]);
    assert_eq!(curve.symmetric_range(fixed(5.0), 16).len(), 161);
}

#[test]
fn range_x_y_tuple() {
    let curve = Curve::new(fixed(-3.0));
    let range = curve.range_x_y_tuple(fixed(1.0), 2);
    let xs: Vec<i64> = range.iter().map(|p| p.0.raw).collect();
    assert_eq!(xs, vec![-1_000_000_000, -500_000_000, 0, 500_000_000, 1_000_000_000]);
    for &(x, y) in range.iter() {
        assert_eq!(y, curve.density_at(x));
    }
}

#[test]
fn limits_range_starts_at_lower_and_stops_short_of_upper() {
    let curve = Curve::new(fixed(-2.0));
    let range = curve.limits_range(fixed(-3.0), fixed(3.0), 10);
    let raws: Vec<i64> = range.iter().map(|y| y.raw).collect();
    assert_eq!(
        raws,
        vec![
            8_863_696,
            44_789_060,
            157_900_316,
            386_624_435,
            585_475_627,
            398_942_280,
            80_973_578,
            1_747_674,
            0,
            0
        ]
    );
    assert_eq!(range[0], curve.density_at(fixed(-3.0)));
    for (i, y) in range.iter().enumerate() {
        let x = Fixed { raw: -3_000_000_000 + 600_000_000 * i as i64 };
        assert_eq!(*y, curve.density_at(x));
    }
}

#[test]
fn limits_range_of_no_samples_is_empty() {
    let curve = Curve::new(fixed(1.0));
    assert!(curve.limits_range(fixed(-2.0), fixed(3.0), 0).is_empty());
}

#[test]
fn limits_range_runs_downwards_when_upper_is_below_lower() {
    let curve = Curve::new(fixed(-3.0));
    let range = curve.limits_range(fixed(1.0), fixed(-1.0), 4);
    for (i, y) in range.iter().enumerate() {
        let x = Fixed { raw: 1_000_000_000 - 500_000_000 * i as i64 };
        assert_eq!(*y, curve.density_at(x));
    }
}

#[test]
fn density_in_each_region() {
    let curve = Curve::new(fixed(3.0));
    // below the boundary at minus three: skew * x = -3.3
    assert_eq!(curve.density_at(Fixed { raw: -1_100_000_000 }).raw, 0);
    // at the boundary at minus three the bracket is zero
    assert_eq!(curve.density_at(Fixed { raw: -1_000_000_000 }).raw, 0);
    // between minus three and minus one: skew * x = -1.5
    assert_eq!(curve.density_at(Fixed { raw: -500_000_000 }).raw, 49_509_186);
    // between minus one and one: skew * x = 0
    assert_eq!(curve.density_at(Fixed { raw: 0 }).raw, 398_942_280);
    // between one and three: skew * x = 1, the boundary itself
    assert_eq!(curve.density_at(Fixed { raw: 333_333_333 }).raw, 628_972_046);
    // from three on: the plain bell
    assert_eq!(curve.density_at(Fixed { raw: 1_000_000_000 }).raw, 483_941_449);
    assert_eq!(Curve::new(fixed(2.0)).density_at(Fixed { raw: 1_000_000_000 }).raw, 473_859_335);
}

#[test]
fn density_without_skew_is_the_scaled_bell() {
    let curve = Curve::new(fixed(0.0));
    assert_eq!(curve.density_at(fixed(0.0)).raw, 797_884_560);
    assert_eq!(curve.density_at(fixed(1.0)).raw, 483_941_449);
    assert_eq!(curve.density_at(fixed(-1.0)).raw, 483_941_449);
}

#[test]
fn density_follows_the_formulas_in_floating_point() {
    for &skew in [-3.0f64, -1.0, -0.25, 0.5, 2.0, 3.0].iter() {
        let curve = Curve::new(Fixed { raw: (skew * 1e9) as i64 });
        for step in -400..=400 {
            let x = step as f64 / 80.0;
            let u = skew * x;
            let bell = (-x * x / 2.0).exp();
            let root = (2.0 * std::f64::consts::PI).sqrt();
            let expected = if u < -3.0 {
                0.0
            } else if u < -1.0 {
                bell / (8.0 * root) * (9.0 * u + 3.0 * u * u + u * u * u / 3.0 + 9.0)
            } else if u < 1.0 {
                bell / (4.0 * root) * (3.0 * u - u * u * u / 3.0 + 4.0)
            } else if u < 3.0 {
                bell / (8.0 * root) * (9.0 * u - 3.0 * u * u + u * u * u / 3.0 + 7.0)
            } else {
                (2.0 / std::f64::consts::PI).sqrt() * bell
            };
            let got = curve.density_at(Fixed { raw: (x * 1e9).round() as i64 }).raw as f64 / 1e9;
            assert!((got - expected).abs() < 3e-9, "skew {} x {}: {} against {}", skew, x, got, expected);
        }
    }
}

#[test]
fn density_at_the_ends_of_the_range() {
    let curve = Curve::new(Fixed { raw: i64::MIN });
    assert_eq!(curve.density_at(Fixed { raw: i64::MIN }).raw, 0);
    assert_eq!(curve.density_at(Fixed { raw: i64::MAX }).raw, 0);
    let curve = Curve::new(Fixed { raw: i64::MAX });
    assert_eq!(curve.density_at(Fixed { raw: i64::MAX }).raw, 0);
    assert_eq!(curve.density_at(Fixed { raw: 0 }).raw, 398_942_280);
}

#[test]
fn compare_tells_the_side_of_the_boundary() {
    let one = Fixed { raw: 1_000_000_000 };
    let three = Fixed { raw: 3_000_000_000 };
    // positive skew: x < num / skew
    assert!(compare(three, Fixed { raw: 333_333_333 }, one));
    assert!(!compare(three, Fixed { raw: 333_333_334 }, one));
    // negative skew: x > num / skew
    let minus_three = Fixed { raw: -3_000_000_000 };
    assert!(compare(minus_three, Fixed { raw: -333_333_333 }, one));
    assert!(!compare(minus_three, Fixed { raw: -333_333_334 }, one));
    // no skew: no boundary
    assert!(!compare(Fixed { raw: 0 }, Fixed { raw: -5_000_000_000 }, one));
}

//! The Heligman-Pollard mortality curve: an infant term, an accident hump and
//! an adult term, added as odds and turned into a probability.

use vstd::prelude::*;
use crate::fixed::Fixed;
use crate::fixed::SCALE;
use crate::special::UNIT;
use crate::special::LN2;
use crate::special::LN10;
use crate::special::EXP_TERMS;
use crate::special::ln;
use crate::special::ln_spec;
use crate::special::lemma_ln_sign;
use crate::special::lemma_ln_upper_bounds;
use crate::special::exp_neg;
use crate::special::exp_neg_spec;
use crate::special::lemma_exp_neg_vanishes;
use crate::special::square;
use crate::special::square_spec;
use crate::special::power;
use crate::special::power_spec;
use crate::special::power_overflows;
use crate::special::lemma_power_overflow_lower;
use crate::special::lemma_power_nonnegative;
use crate::special::lemma_exp_neg_bounds;

verus! {

/// Why a set of parameters was refused: the sentence that names the parameter.
#[derive(Debug)]
pub struct HPError {
    problem: String,
}

impl View for HPError {
    type V = Seq<char>;

    closed spec fn view(&self) -> Seq<char> {
        self.problem@
    }
}

impl HPError {
    /// The sentence that names the offending parameter.
    pub fn description(&self) -> (text: &str)
        ensures
            text@ == self@,
    {
        self.problem.as_str()
    }
}

/// The eight parameters of a curve, in billionths.
pub struct HPParameters {
    pub infant_mortality: int,
    pub first_year_mortality: int,
    pub infant_mortality_dropoff: int,
    pub accident_severity: int,
    pub accident_spread: int,
    pub accident_midpoint: int,
    pub adult_mortality: int,
    pub adult_mortality_increase: int,
}

/// Whether a parameter lies between zero and one, both included.
pub open spec fn in_unit_interval(x: int) -> bool {
    0 <= x <= SCALE
}

/// Whether a parameter is above zero.
pub open spec fn is_positive(x: int) -> bool {
    0 < x
}

/// The sentence for a parameter outside zero to one.
pub open spec fn out_of_range_message(name: Seq<char>) -> Seq<char> {
    "Value of "@ + name + " out of range 0...1."@
}

/// The sentence for a parameter that is not positive.
pub open spec fn not_positive_message(name: Seq<char>) -> Seq<char> {
    "Value of "@ + name + " is not positive."@
}

impl HPParameters {
    /// The first four parameters are probabilities and shape factors within
    /// zero to one; the last four are scale, location and rate factors above
    /// zero.
    pub open spec fn wf(self) -> bool {
        &&& in_unit_interval(self.infant_mortality)
        &&& in_unit_interval(self.first_year_mortality)
        &&& in_unit_interval(self.infant_mortality_dropoff)
        &&& in_unit_interval(self.accident_severity)
        &&& is_positive(self.accident_spread)
        &&& is_positive(self.accident_midpoint)
        &&& is_positive(self.adult_mortality)
        &&& is_positive(self.adult_mortality_increase)
    }

    /// The sentence for the first parameter, in the order of the fields, that
    /// breaks its bound.
    pub open spec fn first_problem(self) -> Seq<char> {
        if !in_unit_interval(self.infant_mortality) {
            out_of_range_message("infant_mortality"@)
        } else if !in_unit_interval(self.first_year_mortality) {
            out_of_range_message("first_year_mortality"@)
        } else if !in_unit_interval(self.infant_mortality_dropoff) {
            out_of_range_message("infant_mortality_dropoff"@)
        } else if !in_unit_interval(self.accident_severity) {
            out_of_range_message("accident_severity"@)
        } else if !is_positive(self.accident_spread) {
            not_positive_message("accident_spread"@)
        } else if !is_positive(self.accident_midpoint) {
            not_positive_message("accident_midpoint"@)
        } else if !is_positive(self.adult_mortality) {
            not_positive_message("adult_mortality"@)
        } else {
            not_positive_message("adult_mortality_increase"@)
        }
    }
}

/// The baseline curve for males.
pub open spec fn baseline_male_spec() -> HPParameters {
    HPParameters {
        infant_mortality: 400_000,
        first_year_mortality: 19_200_000,
        infant_mortality_dropoff: 104_800_000,
        accident_severity: 1_000_000,
        accident_spread: 9_000_000_000,
        accident_midpoint: 21_000_000_000,
        adult_mortality: 100_000,
        adult_mortality_increase: 1_100_000_000,
    }
}

/// The baseline curve for females.
pub open spec fn baseline_female_spec() -> HPParameters {
    HPParameters {
        infant_mortality: 400_000,
        first_year_mortality: 19_200_000,
        infant_mortality_dropoff: 104_800_000,
        accident_severity: 400_000,
        accident_spread: 3_000_000_000,
        accident_midpoint: 19_000_000_000,
        adult_mortality: 20_000,
        adult_mortality_increase: 1_100_000_000,
    }
}

/// The exponent of the infant term, `(age + first_year_mortality) ^ dropoff`.
pub open spec fn infant_exponent_spec(m: HPParameters, age: int) -> int {
    power_spec(
        (age * SCALE + m.first_year_mortality) * SCALE,
        m.infant_mortality_dropoff,
        SCALE as int,
    )
}

/// The infant term, `infant_mortality ^ ((age + first_year_mortality) ^ dropoff)`.
pub open spec fn infant_term_spec(m: HPParameters, age: int) -> int {
    power_spec(m.infant_mortality * SCALE, infant_exponent_spec(m, age), UNIT as int)
}

/// The size of the decimal logarithm of `age / accident_midpoint`.
pub open spec fn accident_distance_spec(m: HPParameters, age: int) -> int {
    let l = ln_spec(age * UNIT) - ln_spec(m.accident_midpoint * SCALE);
    (if l < 0 {
        -l
    } else {
        l
    }) * UNIT / (LN10 as int)
}

/// The accident term, `severity * exp(-spread * log10(age / midpoint)^2)`;
/// at age zero the logarithm is unbounded and the term is zero.
pub open spec fn accident_term_spec(m: HPParameters, age: int) -> int {
    if age == 0 {
        0
    } else {
        m.accident_severity * exp_neg_spec(
            m.accident_spread * square_spec(accident_distance_spec(m, age)) / (SCALE as int),
        ) / (SCALE as int)
    }
}

/// The adult term, `adult_mortality * increase ^ age`.
pub open spec fn adult_term_spec(m: HPParameters, age: int) -> int {
    m.adult_mortality * power_spec(m.adult_mortality_increase * SCALE, age, 1) / (SCALE as int)
}

/// The three terms added: the odds of dying within the year.
pub open spec fn odds_spec(m: HPParameters, age: int) -> int {
    infant_term_spec(m, age) + accident_term_spec(m, age) + adult_term_spec(m, age)
}

/// The probability `odds / (odds + 1)`, in billionths.
pub open spec fn probability_spec(odds: int) -> int {
    odds * SCALE / (odds + UNIT)
}

/// The probability of dying within the year at the given age, in billionths.
pub open spec fn at_age_spec(m: HPParameters, age: int) -> int {
    probability_spec(odds_spec(m, age))
}

/// A probability lies in zero to one, one excluded, and reaches its last
/// step below one once the odds pass a billion.
pub proof fn lemma_probability_bounds(odds: int)
    by (nonlinear_arith)
    requires
        0 <= odds,
        SCALE == 1_000_000_000,
        UNIT == 1_000_000_000_000_000_000,
    ensures
        0 <= probability_spec(odds) < SCALE,
        odds >= UNIT * (SCALE - 1) ==> probability_spec(odds) == SCALE - 1,
        odds == 0 ==> probability_spec(odds) == 0,
{
    let d: int = odds + UNIT;
    let q: int = odds * SCALE / d;
    assert(d > 0);
    assert(odds * SCALE < SCALE * d);
    assert(q * d <= odds * SCALE);
    assert(q < SCALE) by {
        if q >= SCALE {
            assert(q * d >= SCALE * d);
        }
    }
    if odds >= UNIT * (SCALE - 1) {
        assert(odds * SCALE >= (SCALE - 1) * d);
        assert(q >= SCALE - 1) by {
            if q < SCALE - 1 {
                assert((q + 1) * d <= (SCALE - 1) * d);
                assert(odds * SCALE < (q + 1) * d);
            }
        }
    }
}

/// Each of the three terms is an odds that is not negative.
pub proof fn lemma_terms_nonnegative(m: HPParameters, age: int)
    requires
        m.wf(),
        0 <= age,
    ensures
        0 <= infant_exponent_spec(m, age),
        0 <= infant_term_spec(m, age),
        0 <= accident_term_spec(m, age),
        0 <= adult_term_spec(m, age),
        0 <= odds_spec(m, age),
{
    let base: int = (age * SCALE + m.first_year_mortality) * SCALE;
    assert(base >= 0) by (nonlinear_arith)
        requires
            base == (age * SCALE + m.first_year_mortality) * SCALE,
            age >= 0,
            m.first_year_mortality >= 0,
            SCALE == 1_000_000_000,
    ;
    lemma_power_nonnegative(base, m.infant_mortality_dropoff, SCALE as int);
    assert(m.infant_mortality * SCALE >= 0) by (nonlinear_arith)
        requires
            m.infant_mortality >= 0,
            SCALE == 1_000_000_000,
    ;
    lemma_power_nonnegative(m.infant_mortality * SCALE, infant_exponent_spec(m, age), UNIT as int);
    if age != 0 {
        let distance: int = accident_distance_spec(m, age);
        let t: int = m.accident_spread * square_spec(distance) / (SCALE as int);
        assert(t >= 0) by (nonlinear_arith)
            requires
                t == m.accident_spread * (distance * distance / (UNIT as int)) / (SCALE as int),
                m.accident_spread > 0,
                SCALE == 1_000_000_000,
                UNIT == 1_000_000_000_000_000_000,
        {
            assert(distance * distance >= 0);
            assert(distance * distance / (UNIT as int) >= 0);
        }
        lemma_exp_neg_bounds(t);
        let fade: int = exp_neg_spec(t);
        assert(m.accident_severity * fade / (SCALE as int) >= 0) by (nonlinear_arith)
            requires
                m.accident_severity >= 0,
                fade >= 0,
                SCALE == 1_000_000_000,
        ;
    }
    assert(m.adult_mortality_increase * SCALE >= 0) by (nonlinear_arith)
        requires
            m.adult_mortality_increase > 0,
            SCALE == 1_000_000_000,
    ;
    lemma_power_nonnegative(m.adult_mortality_increase * SCALE, age, 1);
    let grown: int = power_spec(m.adult_mortality_increase * SCALE, age, 1);
    assert(m.adult_mortality * grown / (SCALE as int) >= 0) by (nonlinear_arith)
        requires
            m.adult_mortality > 0,
            grown >= 0,
            SCALE == 1_000_000_000,
    ;
}

/// At every age the curve gives a probability: from zero up to, and short
/// of, one.
pub proof fn lemma_at_age_bounds(m: HPParameters, age: int)
    requires
        m.wf(),
        0 <= age,
    ensures
        0 <= at_age_spec(m, age) < SCALE,
{
    lemma_terms_nonnegative(m, age);
    lemma_probability_bounds(odds_spec(m, age));
}

fn clamp(x: Fixed, name: &str) -> (r: Result<Fixed, HPError>)
    ensures
        match r {
            Ok(v) => in_unit_interval(x@) && v == x,
            Err(e) => !in_unit_interval(x@) && e@ == out_of_range_message(name@),
        },
{
    if 0 > x.raw || x.raw > SCALE {
        let problem: String = String::from_str("Value of ").concat(name).concat(
            " out of range 0...1.",
        );
        Err(HPError { problem })
    } else {
        Ok(x)
    }
}

fn positive(x: Fixed, name: &str) -> (r: Result<Fixed, HPError>)
    ensures
        match r {
            Ok(v) => is_positive(x@) && v == x,
            Err(e) => !is_positive(x@) && e@ == not_positive_message(name@),
        },
{
    if x.raw > 0 {
        Ok(x)
    } else {
        let problem: String = String::from_str("Value of ").concat(name).concat(
            " is not positive.",
        );
        Err(HPError { problem })
    }
}

/// A validated Heligman-Pollard curve.
#[derive(Debug, PartialEq, Eq)]
pub struct HPMortalityModel {
    infant_mortality: Fixed,
    first_year_mortality: Fixed,
    infant_mortality_dropoff: Fixed,
    accident_severity: Fixed,
    accident_spread: Fixed,
    accident_midpoint: Fixed,
    adult_mortality: Fixed,
    adult_mortality_increase: Fixed,
}

impl View for HPMortalityModel {
    type V = HPParameters;

    closed spec fn view(&self) -> HPParameters {
        HPParameters {
            infant_mortality: self.infant_mortality@,
            first_year_mortality: self.first_year_mortality@,
            infant_mortality_dropoff: self.infant_mortality_dropoff@,
            accident_severity: self.accident_severity@,
            accident_spread: self.accident_spread@,
            accident_midpoint: self.accident_midpoint@,
            adult_mortality: self.adult_mortality@,
            adult_mortality_increase: self.adult_mortality_increase@,
        }
    }
}

impl HPMortalityModel {
    #[verifier::type_invariant]
    pub open spec fn valid(&self) -> bool {
        self@.wf()
    }

    /// Validates the eight parameters in the order of the fields and reports
    /// the first that breaks its bound.
    pub fn new(
        infant_mortality: Fixed,
        first_year_mortality: Fixed,
        infant_mortality_dropoff: Fixed,
        accident_severity: Fixed,
        accident_spread: Fixed,
        accident_midpoint: Fixed,
        adult_mortality: Fixed,
        adult_mortality_increase: Fixed,
    ) -> (r: Result<HPMortalityModel, HPError>)
        ensures
            match r {
                Ok(model) => {
                    &&& model@.wf()
                    &&& model@ == (HPParameters {
                        infant_mortality: infant_mortality@,
                        first_year_mortality: first_year_mortality@,
                        infant_mortality_dropoff: infant_mortality_dropoff@,
                        accident_severity: accident_severity@,
                        accident_spread: accident_spread@,
                        accident_midpoint: accident_midpoint@,
                        adult_mortality: adult_mortality@,
                        adult_mortality_increase: adult_mortality_increase@,
                    })
                },
                Err(e) => {
                    let given = HPParameters {
                        infant_mortality: infant_mortality@,
                        first_year_mortality: first_year_mortality@,
                        infant_mortality_dropoff: infant_mortality_dropoff@,
                        accident_severity: accident_severity@,
                        accident_spread: accident_spread@,
                        accident_midpoint: accident_midpoint@,
                        adult_mortality: adult_mortality@,
                        adult_mortality_increase: adult_mortality_increase@,
                    };
                    !given.wf() && e@ == given.first_problem()
                },
            },
    {
        let infant_mortality = match clamp(infant_mortality, "infant_mortality") {
            Ok(v) => v,
            Err(e) => {
                return Err(e);
            },
        };
        let first_year_mortality = match clamp(first_year_mortality, "first_year_mortality") {
            Ok(v) => v,
            Err(e) => {
                return Err(e);
            },
        };
        let infant_mortality_dropoff = match clamp(
            infant_mortality_dropoff,
            "infant_mortality_dropoff",
        ) {
            Ok(v) => v,
            Err(e) => {
                return Err(e);
            },
        };
        let accident_severity = match clamp(accident_severity, "accident_severity") {
            Ok(v) => v,
            Err(e) => {
                return Err(e);
            },
        };
        let accident_spread = match positive(accident_spread, "accident_spread") {
            Ok(v) => v,
            Err(e) => {
                return Err(e);
            },
        };
        let accident_midpoint = match positive(accident_midpoint, "accident_midpoint") {
            Ok(v) => v,
            Err(e) => {
                return Err(e);
            },
        };
        let adult_mortality = match positive(adult_mortality, "adult_mortality") {
            Ok(v) => v,
            Err(e) => {
                return Err(e);
            },
        };
        let adult_mortality_increase = match positive(
            adult_mortality_increase,
            "adult_mortality_increase",
        ) {
            Ok(v) => v,
            Err(e) => {
                return Err(e);
            },
        };
        Ok(
            HPMortalityModel {
                infant_mortality,
                first_year_mortality,
                infant_mortality_dropoff,
                accident_severity,
                accident_spread,
                accident_midpoint,
                adult_mortality,
                adult_mortality_increase,
            },
        )
    }

    /// The baseline curve for males.
    pub fn baseline_male() -> (model: HPMortalityModel)
        ensures
            model@ == baseline_male_spec(),
    {
        HPMortalityModel {
            infant_mortality: Fixed { raw: 400_000 },
            first_year_mortality: Fixed { raw: 19_200_000 },
            infant_mortality_dropoff: Fixed { raw: 104_800_000 },
            accident_severity: Fixed { raw: 1_000_000 },
            accident_spread: Fixed { raw: 9_000_000_000 },
            accident_midpoint: Fixed { raw: 21_000_000_000 },
            adult_mortality: Fixed { raw: 100_000 },
            adult_mortality_increase: Fixed { raw: 1_100_000_000 },
        }
    }

    /// The baseline curve for females.
    pub fn baseline_female() -> (model: HPMortalityModel)
        ensures
            model@ == baseline_female_spec(),
    {
        HPMortalityModel {
            infant_mortality: Fixed { raw: 400_000 },
            first_year_mortality: Fixed { raw: 19_200_000 },
            infant_mortality_dropoff: Fixed { raw: 104_800_000 },
            accident_severity: Fixed { raw: 400_000 },
            accident_spread: Fixed { raw: 3_000_000_000 },
            accident_midpoint: Fixed { raw: 19_000_000_000 },
            adult_mortality: Fixed { raw: 20_000 },
            adult_mortality_increase: Fixed { raw: 1_100_000_000 },
        }
    }

    /// The eight parameters in the order of the fields.
    pub fn parameters(&self) -> (p: [Fixed; 8])
        ensures
            p[0]@ == self@.infant_mortality,
            p[1]@ == self@.first_year_mortality,
            p[2]@ == self@.infant_mortality_dropoff,
            p[3]@ == self@.accident_severity,
            p[4]@ == self@.accident_spread,
            p[5]@ == self@.accident_midpoint,
            p[6]@ == self@.adult_mortality,
            p[7]@ == self@.adult_mortality_increase,
    {
        [
            self.infant_mortality,
            self.first_year_mortality,
            self.infant_mortality_dropoff,
            self.accident_severity,
            self.accident_spread,
            self.accident_midpoint,
            self.adult_mortality,
            self.adult_mortality_increase,
        ]
    }

    /// The infant term at the given age.
    fn infant_term(&self, age: u32) -> (v: u128)
        ensures
            v == infant_term_spec(self@, age as int),
            v <= EXP_TERMS * UNIT,
    {
        proof {
            use_type_invariant(self);
        }
        let base: u128 = ((age as u128) * 1_000_000_000 + (self.first_year_mortality.raw as u128))
            * 1_000_000_000;
        proof {
            let b: int = base as int;
            let c: int = self.infant_mortality_dropoff@;
            if b != 0 && ln_spec(b) >= 0 {
                if b >= UNIT {
                    vstd::arithmetic::power2::lemma2_to64();
                    lemma_ln_upper_bounds(b, 32);
                } else {
                    lemma_ln_sign(b);
                }
                let l: int = ln_spec(b);
                assert(c * l / (SCALE as int) <= l) by (nonlinear_arith)
                    requires
                        0 <= c <= SCALE,
                        0 <= l,
                        SCALE == 1_000_000_000,
                ;
            }
            assert(!power_overflows(b, c, SCALE as int));
        }
        let exponent: u128 = match power(
            base,
            self.infant_mortality_dropoff.raw as u128,
            1_000_000_000,
        ) {
            Some(e) => e,
            None => 0,
        };
        let mortality: u128 = (self.infant_mortality.raw as u128) * 1_000_000_000;
        proof {
            let a: int = mortality as int;
            if a != 0 {
                lemma_ln_sign(a);
                if ln_spec(a) >= 0 {
                    assert(exponent * ln_spec(a) / (UNIT as int) == 0) by (nonlinear_arith)
                        requires
                            ln_spec(a) == 0,
                    ;
                }
            }
            assert(!power_overflows(a, exponent as int, UNIT as int));
        }
        match power(mortality, exponent, UNIT) {
            Some(v) => v,
            None => 0,
        }
    }

    /// The accident term at the given age.
    fn accident_term(&self, age: u32) -> (v: u128)
        ensures
            v == accident_term_spec(self@, age as int),
            v <= UNIT,
    {
        proof {
            use_type_invariant(self);
        }
        if age == 0 {
            return 0;
        }
        let from_age: i128 = ln((age as u128) * UNIT);
        let from_midpoint: i128 = ln((self.accident_midpoint.raw as u128) * 1_000_000_000);
        let gap: i128 = from_age - from_midpoint;
        let size: u128 = if gap < 0 {
            (-gap) as u128
        } else {
            gap as u128
        };
        let distance: u128 = size * UNIT / LN10;
        assert(distance < 0x1_0000_0000_0000_0000_0000) by (nonlinear_arith)
            requires
                distance == size * UNIT / (LN10 as int),
                size <= 2 * (128 * LN2 + UNIT),
                UNIT == 1_000_000_000_000_000_000,
                LN2 == 693_147_180_559_945_309,
                LN10 == 2_302_585_092_994_045_684,
        ;
        let squared: u128 = square(distance);
        let fade: u128 = match (self.accident_spread.raw as u128).checked_mul(squared) {
            Some(product) => exp_neg(product / 1_000_000_000),
            None => {
                proof {
                    let product: int = self.accident_spread@ * squared;
                    assert(product / (SCALE as int) >= 64 * LN2) by (nonlinear_arith)
                        requires
                            product > u128::MAX,
                            SCALE == 1_000_000_000,
                            LN2 == 693_147_180_559_945_309,
                    ;
                    lemma_exp_neg_vanishes(product / (SCALE as int));
                }
                0
            },
        };
        let severity: u128 = self.accident_severity.raw as u128;
        assert(severity * fade <= 1_000_000_000 * UNIT && severity * fade / 1_000_000_000 <= UNIT)
            by (nonlinear_arith)
            requires
                severity <= 1_000_000_000,
                fade <= UNIT,
        ;
        severity * fade / 1_000_000_000
    }

    /// The adult term at the given age, or `None` where it alone carries the
    /// odds past a billion.
    fn adult_term(&self, age: u32) -> (r: Option<u128>)
        ensures
            r matches Some(v) ==> v == adult_term_spec(self@, age as int) && v
                <= 0x10_0000_0000_0000_0000_0000_0000,
            r is None ==> adult_term_spec(self@, age as int) >= UNIT * (SCALE - 1),
    {
        proof {
            use_type_invariant(self);
        }
        let base: u128 = (self.adult_mortality_increase.raw as u128) * 1_000_000_000;
        let weight: u128 = self.adult_mortality.raw as u128;
        match power(base, age as u128, 1) {
            None => {
                proof {
                    lemma_power_overflow_lower(base as int, age as int, 1);
                    let grown: int = power_spec(base as int, age as int, 1);
                    assert(weight == 0 ==> weight * grown / (SCALE as int) == 0)
                        by (nonlinear_arith)
                        requires
                            SCALE == 1_000_000_000,
                    ;
                    assert(weight >= 1 ==> weight * grown / (SCALE as int) >= UNIT * (SCALE - 1))
                        by (nonlinear_arith)
                        requires
                            grown >= UNIT * 0x1_0000_0000_0000_0000,
                            SCALE == 1_000_000_000,
                            UNIT == 1_000_000_000_000_000_000,
                    ;
                }
                if weight == 0 {
                    Some(0)
                } else {
                    None
                }
            },
            Some(grown) => {
                match weight.checked_mul(grown) {
                    Some(product) => Some(product / 1_000_000_000),
                    None => {
                        proof {
                            let product: int = weight * grown;
                            assert(product / (SCALE as int) >= UNIT * (SCALE - 1))
                                by (nonlinear_arith)
                                requires
                                    product > u128::MAX,
                                    SCALE == 1_000_000_000,
                                    UNIT == 1_000_000_000_000_000_000,
                            ;
                        }
                        None
                    },
                }
            },
        }
    }

    /// The probability of dying within the year at any age a cohort can reach.
    pub(crate) fn rate_at(&self, age: u32) -> (rate: Fixed)
        ensures
            rate@ == at_age_spec(self@, age as int),
            0 <= rate@ < SCALE,
    {
        let infant: u128 = self.infant_term(age);
        let accident: u128 = self.accident_term(age);
        match self.adult_term(age) {
            None => {
                proof {
                    lemma_probability_bounds(odds_spec(self@, age as int));
                }
                Fixed { raw: SCALE - 1 }
            },
            Some(adult) => {
                let odds: u128 = infant + accident + adult;
                proof {
                    lemma_probability_bounds(odds as int);
                }
                if odds >= UNIT * 999_999_999 {
                    Fixed { raw: SCALE - 1 }
                } else {
                    let rate: u128 = odds * 1_000_000_000 / (odds + UNIT);
                    Fixed { raw: rate as i64 }
                }
            },
        }
    }

    /// The probability of dying within the year at the given age: the odds
    /// `infant + accident + adult` turned into `odds / (odds + 1)`.
    pub fn at_age(&self, age_i: i32) -> (rate: Fixed)
        requires
            age_i >= 0,
        ensures
            rate@ == at_age_spec(self@, age_i as int),
            0 <= rate@ < SCALE,
    {
        self.rate_at(age_i as u32)
    }
}

} // verus!

//! One birth-year group and the curves that govern it.

pub mod fertility;
pub mod heligman_pollard;
pub mod members;

use vstd::prelude::*;
use crate::fixed::Fixed;
use crate::fixed::SCALE;
use crate::fixed::lemma_mul_range;
use crate::population::attributes::AttributeData;
use crate::population::cohort::fertility::Fertility;
use crate::population::cohort::fertility::FertilityModel;
use crate::population::cohort::fertility::fertility_new_spec;
use crate::population::cohort::fertility::lemma_fertility_new_wf;
use crate::population::cohort::heligman_pollard::HPMortalityModel;
use crate::population::cohort::heligman_pollard::HPParameters;
use crate::population::cohort::heligman_pollard::at_age_spec;
use crate::population::cohort::heligman_pollard::lemma_at_age_bounds;
use crate::population::cohort::heligman_pollard::baseline_female_spec;
use crate::population::cohort::heligman_pollard::baseline_male_spec;
use crate::population::cohort::members::Members;
use crate::population::cohort::members::MembersModel;
use crate::population::cohort::members::alive_after;
use crate::population::cohort::members::apply_deaths;
use crate::population::cohort::members::deaths_spec;
use crate::population::cohort::members::remainder_after;

verus! {

/// The youngest fertile age of a cohort made by `Cohort::new`.
pub const FERTILE_FROM: usize = 15;

/// The age at which the fertility of such a cohort ends.
pub const FERTILE_UNTIL: usize = 50;

/// A cohort: all people born within one year. It tracks the living of each
/// sex, its fertility curve, and a mortality curve for each sex.
#[derive(Debug)]
pub struct Cohort {
    pub members: Members,
    pub birth_year: i32,
    pub attributes: Vec<AttributeData>,
    pub fertility: Fertility,
    pub male_mortality: HPMortalityModel,
    pub female_mortality: HPMortalityModel,
}

/// A cohort as plain values.
pub struct CohortModel {
    pub members: MembersModel,
    pub birth_year: int,
    pub attributes: Seq<AttributeData>,
    pub fertility: FertilityModel,
    pub male_mortality: HPParameters,
    pub female_mortality: HPParameters,
}

impl View for Cohort {
    type V = CohortModel;

    open spec fn view(&self) -> CohortModel {
        CohortModel {
            members: self.members@,
            birth_year: self.birth_year as int,
            attributes: self.attributes@,
            fertility: self.fertility@,
            male_mortality: self.male_mortality@,
            female_mortality: self.female_mortality@,
        }
    }
}

impl CohortModel {
    /// Every part is well formed and the birth year fits the machine.
    pub open spec fn wf(self) -> bool {
        &&& self.members.wf()
        &&& i32::MIN <= self.birth_year <= i32::MAX
        &&& self.fertility.wf()
        &&& self.male_mortality.wf()
        &&& self.female_mortality.wf()
    }

    /// The births expected in `year` of the females of the cohort, in
    /// billionths: nothing before the cohort is born.
    pub open spec fn births(self, year: int, total_fertility_rate: int) -> int {
        if year < self.birth_year {
            0
        } else {
            self.fertility.birth_rate(year - self.birth_year, total_fertility_rate)
                * self.members.females
        }
    }

    /// All male deaths of `year`, in billionths.
    pub open spec fn male_deaths(self, year: int, extraordinary: int) -> int {
        deaths_spec(
            self.members.males,
            extraordinary,
            at_age_spec(self.male_mortality, year - self.birth_year),
            self.members.male_dying,
        )
    }

    /// All female deaths of `year`, in billionths.
    pub open spec fn female_deaths(self, year: int, extraordinary: int) -> int {
        deaths_spec(
            self.members.females,
            extraordinary,
            at_age_spec(self.female_mortality, year - self.birth_year),
            self.members.female_dying,
        )
    }

    /// The members left by the deaths of `year`.
    pub open spec fn members_after(
        self,
        year: int,
        extraordinary_male_deaths: int,
        extraordinary_female_deaths: int,
    ) -> MembersModel {
        MembersModel {
            males: alive_after(
                self.members.males,
                self.male_deaths(year, extraordinary_male_deaths),
            ),
            females: alive_after(
                self.members.females,
                self.female_deaths(year, extraordinary_female_deaths),
            ),
            male_dying: remainder_after(self.male_deaths(year, extraordinary_male_deaths)),
            female_dying: remainder_after(self.female_deaths(year, extraordinary_female_deaths)),
        }
    }

    /// The cohort after the deaths of `year`: unchanged before its birth
    /// year, gone once nobody is left.
    pub open spec fn perform_deaths(
        self,
        year: int,
        extraordinary_male_deaths: int,
        extraordinary_female_deaths: int,
    ) -> Option<CohortModel> {
        if year < self.birth_year {
            Some(self)
        } else {
            let after = self.members_after(
                year,
                extraordinary_male_deaths,
                extraordinary_female_deaths,
            );
            if after.males + after.females == 0 {
                None
            } else {
                Some(CohortModel { members: after, ..self })
            }
        }
    }
}

/// The cohort that `Cohort::new` builds.
pub open spec fn cohort_new_spec(males: int, females: int, birth_year: int) -> CohortModel {
    CohortModel {
        members: MembersModel { males, females, male_dying: 0, female_dying: 0 },
        birth_year,
        attributes: Seq::empty(),
        fertility: fertility_new_spec(FERTILE_FROM as int, FERTILE_UNTIL as int),
        male_mortality: baseline_male_spec(),
        female_mortality: baseline_female_spec(),
    }
}

/// A cohort whose curves allow no natural death keeps its counts and its
/// remainders through a year without forced deaths; if it is empty it is
/// retired.
pub proof fn lemma_no_mortality_no_change(c: CohortModel, year: int)
    requires
        c.wf(),
        year >= c.birth_year,
        at_age_spec(c.male_mortality, year - c.birth_year) == 0,
        at_age_spec(c.female_mortality, year - c.birth_year) == 0,
    ensures
        c.members_after(year, 0, 0) == c.members,
        c.perform_deaths(year, 0, 0) == (if c.members.males + c.members.females == 0 {
            None
        } else {
            Some(c)
        }),
{
    assert(c.members.males * 0 == 0 && c.members.females * 0 == 0) by (nonlinear_arith);
}

/// Whether in `year` the curves of the cohort allow no natural death.
pub open spec fn no_mortality_in(c: CohortModel, year: int) -> bool {
    &&& at_age_spec(c.male_mortality, year - c.birth_year) == 0
    &&& at_age_spec(c.female_mortality, year - c.birth_year) == 0
}

/// The cohort after the deaths of `years` years in a row, the first of them
/// `year`, without forced deaths.
pub open spec fn deaths_for_years(c: CohortModel, year: int, years: nat) -> Option<CohortModel>
    decreases years,
{
    if years == 0 {
        Some(c)
    } else {
        match deaths_for_years(c, year, (years - 1) as nat) {
            Some(before) => before.perform_deaths(year + years - 1, 0, 0),
            None => None,
        }
    }
}

/// Through any number of years in which its curves allow no natural death,
/// a cohort with somebody in it keeps its counts and its remainders.
pub proof fn lemma_no_mortality_for_years(c: CohortModel, year: int, years: nat)
    requires
        c.wf(),
        year >= c.birth_year,
        c.members.males + c.members.females > 0,
        forall|y: int| year <= y < year + years ==> #[trigger] no_mortality_in(c, y),
    ensures
        deaths_for_years(c, year, years) == Some(c),
    decreases years,
{
    if years > 0 {
        lemma_no_mortality_for_years(c, year, (years - 1) as nat);
        assert(no_mortality_in(c, year + years - 1));
        lemma_no_mortality_no_change(c, year + years - 1);
    }
}

/// Forced deaths that cover both sexes retire the cohort.
pub proof fn lemma_forced_deaths_retire(
    c: CohortModel,
    year: int,
    extraordinary_male_deaths: int,
    extraordinary_female_deaths: int,
)
    requires
        c.wf(),
        year >= c.birth_year,
        extraordinary_male_deaths >= c.members.males,
        extraordinary_female_deaths >= c.members.females,
    ensures
        c.perform_deaths(year, extraordinary_male_deaths, extraordinary_female_deaths) is None,
{
    let male_rate: int = at_age_spec(c.male_mortality, year - c.birth_year);
    let female_rate: int = at_age_spec(c.female_mortality, year - c.birth_year);
    assert(0 * male_rate == 0 && 0 * female_rate == 0) by (nonlinear_arith);
    lemma_whole_deaths(extraordinary_male_deaths, c.members.male_dying);
    lemma_whole_deaths(extraordinary_female_deaths, c.members.female_dying);
}

/// One sex through one year: nobody is added, the count stays a count, and
/// what is carried over is a fraction of one death.
pub proof fn lemma_deaths_bounds(count: int, extraordinary: int, rate: int, remainder: int)
    by (nonlinear_arith)
    requires
        0 <= count,
        0 <= extraordinary,
        0 <= rate,
        0 <= remainder,
        SCALE == 1_000_000_000,
    ensures
        0 <= deaths_spec(count, extraordinary, rate, remainder),
        0 <= alive_after(count, deaths_spec(count, extraordinary, rate, remainder)) <= count,
        0 <= remainder_after(deaths_spec(count, extraordinary, rate, remainder)) < SCALE,
{
    let survivors: int = if count >= extraordinary {
        count - extraordinary
    } else {
        0
    };
    assert(survivors * rate >= 0);
    assert(extraordinary * SCALE >= 0);
    let deaths: int = survivors * rate + remainder + extraordinary * SCALE;
    assert(deaths / (SCALE as int) >= 0);
}

/// The deaths of a year leave a well-formed cohort, or none, and never add
/// to the living of either sex.
pub proof fn lemma_perform_deaths_wf(
    c: CohortModel,
    year: int,
    extraordinary_male_deaths: int,
    extraordinary_female_deaths: int,
)
    requires
        c.wf(),
        0 <= extraordinary_male_deaths,
        0 <= extraordinary_female_deaths,
    ensures
        c.perform_deaths(year, extraordinary_male_deaths, extraordinary_female_deaths) matches Some(
            after,
        ) ==> {
            &&& after.wf()
            &&& after.members.males <= c.members.males
            &&& after.members.females <= c.members.females
            &&& after.members.males + after.members.females > 0 || year < c.birth_year
            &&& after.birth_year == c.birth_year
        },
{
    if year >= c.birth_year {
        let age: int = year - c.birth_year;
        lemma_at_age_bounds(c.male_mortality, age);
        lemma_at_age_bounds(c.female_mortality, age);
        lemma_deaths_bounds(
            c.members.males,
            extraordinary_male_deaths,
            at_age_spec(c.male_mortality, age),
            c.members.male_dying,
        );
        lemma_deaths_bounds(
            c.members.females,
            extraordinary_female_deaths,
            at_age_spec(c.female_mortality, age),
            c.members.female_dying,
        );
    }
}

/// A cohort made by `Cohort::new` is well formed.
pub proof fn lemma_cohort_new_wf(males: int, females: int, birth_year: int)
    requires
        0 <= males <= usize::MAX,
        0 <= females <= usize::MAX,
        i32::MIN <= birth_year <= i32::MAX,
    ensures
        cohort_new_spec(males, females, birth_year).wf(),
{
    lemma_fertility_new_wf(FERTILE_FROM as int, FERTILE_UNTIL as int);
}

proof fn lemma_whole_deaths(forced: int, remainder: int)
    by (nonlinear_arith)
    requires
        0 <= forced,
        0 <= remainder < SCALE,
        SCALE == 1_000_000_000,
    ensures
        (remainder + forced * SCALE) / (SCALE as int) == forced,
{
}

/// Timed effects and demographic detail that a cohort may carry.
pub trait Dimension: core::fmt::Debug {
    /// The dimension as text. A dimension that gives no text of its own
    /// answers with the one word `unimplemented`.
    fn to_yaml(&self) -> (text: String)
        default_ensures
            text@ == "unimplemented"@,
    {
        "unimplemented".to_owned()
    }
}

impl Cohort {
    /// A cohort with the baseline curves: fertile from fifteen to fifty, the
    /// baseline mortality of each sex, and nothing carried over.
    pub fn new(males: usize, females: usize, birth_year: i32) -> (cohort: Cohort)
        ensures
            cohort@ == cohort_new_spec(males as int, females as int, birth_year as int),
            cohort@.wf(),
    {
        let fertility: Fertility = Fertility::new(FERTILE_FROM, FERTILE_UNTIL);
        let members: Members = Members::new(males, females);
        let male_mortality: HPMortalityModel = HPMortalityModel::baseline_male();
        let female_mortality: HPMortalityModel = HPMortalityModel::baseline_female();
        let attributes: Vec<AttributeData> = Vec::new();
        Cohort { members, birth_year, attributes, fertility, male_mortality, female_mortality }
    }

    /// The births expected in `year` of the females of the cohort, in
    /// billionths, where a lifetime brings `tfr` births.
    pub fn births(&self, year: i32, tfr: Fixed) -> (expected: i128)
        ensures
            expected == self@.births(year as int, tfr@),
            year < self@.birth_year ==> expected == 0,
            tfr@ >= 0 ==> 0 <= expected <= tfr@ * self@.members.females,
    {
        proof {
            use_type_invariant(&self.members);
        }
        if year < self.birth_year {
            proof {
                assert(tfr@ * self@.members.females >= 0 || tfr@ < 0) by (nonlinear_arith)
                    requires
                        self@.members.females >= 0,
                ;
            }
            0
        } else {
            let age: usize = (year as i64 - self.birth_year as i64) as usize;
            let rate: Fixed = self.fertility.birth_rate(age, tfr);
            let females: usize = self.members.females();
            proof {
                lemma_mul_range(rate@, females as int, 0x8000_0000_0000_0000, 0xffff_ffff_ffff_ffff);
                assert(tfr@ >= 0 ==> 0 <= rate@ * females <= tfr@ * females) by (nonlinear_arith)
                    requires
                        tfr@ >= 0 ==> 0 <= rate@ <= tfr@,
                        0 <= females,
                ;
            }
            (rate.raw as i128) * (females as i128)
        }
    }

    /// Takes the deaths of `year` from the cohort and carries the fraction of
    /// a death of each sex over to the next year. Forced deaths are taken from
    /// the living before the mortality curve is applied, and counted in full.
    /// Before the birth year nothing changes; once nobody is left the result
    /// is `None` and the cohort is gone.
    pub fn perform_deaths(
        self,
        year: i32,
        extraordinary_male_deaths: usize,
        extraordinary_female_deaths: usize,
    ) -> (after: Option<Cohort>)
        ensures
            match after {
                Some(cohort) => self@.perform_deaths(
                    year as int,
                    extraordinary_male_deaths as int,
                    extraordinary_female_deaths as int,
                ) == Some(cohort@),
                None => self@.perform_deaths(
                    year as int,
                    extraordinary_male_deaths as int,
                    extraordinary_female_deaths as int,
                ) is None,
            },
            after matches Some(cohort) ==> cohort@.wf(),
    {
        proof {
            use_type_invariant(&self.members);
            use_type_invariant(&self.fertility);
            use_type_invariant(&self.male_mortality);
            use_type_invariant(&self.female_mortality);
        }
        if year < self.birth_year {
            return Some(self);
        }
        let age: u32 = (year as i64 - self.birth_year as i64) as u32;
        let male_rate: Fixed = self.male_mortality.rate_at(age);
        let (males, male_dying) = apply_deaths(
            self.members.males(),
            extraordinary_male_deaths,
            male_rate,
            self.members.male_dying(),
        );
        let female_rate: Fixed = self.female_mortality.rate_at(age);
        let (females, female_dying) = apply_deaths(
            self.members.females(),
            extraordinary_female_deaths,
            female_rate,
            self.members.female_dying(),
        );
        if males == 0 && females == 0 {
            return None;
        }
        let survivors: Members = Members::from_parts(males, females, male_dying, female_dying);
        let mut cohort: Cohort = self;
        cohort.members = survivors;
        Some(cohort)
    }
}

} // verus!

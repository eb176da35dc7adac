//! The population: its cohorts, the year, and the step from one year to the next.

pub mod attributes;
pub mod cohort;

use vstd::prelude::*;
use crate::fixed::Fixed;
use crate::fixed::SCALE;
use crate::fixed::seq_sum;
use crate::fixed::lemma_prefix_sum;
use crate::population::cohort::Cohort;
use crate::population::cohort::CohortModel;
use crate::population::cohort::cohort_new_spec;

verus! {

/// The births that a lifetime brings, in billionths: two and one tenth.
pub const TOTAL_FERTILITY_RATE: i64 = 2_100_000_000;

/// The cohorts of a sequence as plain values.
pub open spec fn models(cohorts: Seq<Cohort>) -> Seq<CohortModel> {
    Seq::new(cohorts.len(), |i: int| cohorts[i]@)
}

/// The living males of each cohort.
pub open spec fn male_counts(cohorts: Seq<CohortModel>) -> Seq<int> {
    Seq::new(cohorts.len(), |i: int| cohorts[i].members.males)
}

/// The living females of each cohort.
pub open spec fn female_counts(cohorts: Seq<CohortModel>) -> Seq<int> {
    Seq::new(cohorts.len(), |i: int| cohorts[i].members.females)
}

/// The births expected in `year` of all the cohorts together, in billionths.
pub open spec fn births_sum(cohorts: Seq<CohortModel>, year: int) -> int
    decreases cohorts.len(),
{
    if cohorts.len() == 0 {
        0
    } else {
        births_sum(cohorts.drop_last(), year) + cohorts.last().births(
            year,
            TOTAL_FERTILITY_RATE as int,
        )
    }
}

/// The cohorts after the deaths of `year`, in their order, without those
/// that the year has emptied.
pub open spec fn survivors(cohorts: Seq<CohortModel>, year: int) -> Seq<CohortModel>
    decreases cohorts.len(),
{
    if cohorts.len() == 0 {
        Seq::empty()
    } else {
        match cohorts.last().perform_deaths(year, 0, 0) {
            Some(cohort) => survivors(cohorts.drop_last(), year).push(cohort),
            None => survivors(cohorts.drop_last(), year),
        }
    }
}

/// The whole newborns in an expected number of billionths, as far as the
/// machine can count.
pub open spec fn newborn_count(expected: int) -> int {
    if expected / (SCALE as int) > usize::MAX {
        usize::MAX as int
    } else {
        expected / (SCALE as int)
    }
}

/// A population as plain values.
pub struct PopulationModel {
    pub cohorts: Seq<CohortModel>,
    pub male_remainder: int,
    pub female_remainder: int,
    pub current_year: int,
}

impl PopulationModel {
    /// Every cohort is well formed, a remainder is less than one newborn, the
    /// year counts up from zero, and there is at most one cohort for each year
    /// gone by beside those the population started with.
    pub open spec fn wf(self) -> bool {
        &&& forall|i: int| 0 <= i < self.cohorts.len() ==> (#[trigger] self.cohorts[i]).wf()
        &&& 0 <= self.male_remainder < SCALE
        &&& 0 <= self.female_remainder < SCALE
        &&& 0 <= self.current_year <= i32::MAX
        &&& self.cohorts.len() <= 0x8000_0000 + self.current_year
    }

    /// The living males.
    pub open spec fn total_male(self) -> int {
        seq_sum(male_counts(self.cohorts))
    }

    /// The living females.
    pub open spec fn total_female(self) -> int {
        seq_sum(female_counts(self.cohorts))
    }

    /// The living of both sexes.
    pub open spec fn total_pop(self) -> int {
        self.total_male() + self.total_female()
    }

    /// The births expected this year, in billionths.
    pub open spec fn expected_births(self) -> int {
        births_sum(self.cohorts, self.current_year)
    }

    /// The boys expected this year with the remainder of the year before: one
    /// half of the births, rounded down.
    pub open spec fn expected_males(self) -> int {
        self.expected_births() / 2 + self.male_remainder
    }

    /// The girls expected this year with the remainder of the year before:
    /// the other half of the births.
    pub open spec fn expected_females(self) -> int {
        (self.expected_births() - self.expected_births() / 2) + self.female_remainder
    }

    /// The cohort born this year, before its first deaths.
    pub open spec fn newborn(self) -> CohortModel {
        cohort_new_spec(
            newborn_count(self.expected_males()),
            newborn_count(self.expected_females()),
            self.current_year,
        )
    }

    /// The population one year on: the newborn cohort comes first, every
    /// cohort goes through the deaths of the year, the fractions of a newborn
    /// are carried over, and the year counts up.
    pub open spec fn advance_year(self) -> PopulationModel {
        PopulationModel {
            cohorts: survivors(seq![self.newborn()] + self.cohorts, self.current_year),
            male_remainder: self.expected_males() % (SCALE as int),
            female_remainder: self.expected_females() % (SCALE as int),
            current_year: self.current_year + 1,
        }
    }
}

/// The population that `Population::new` builds: the pair at index `i`
/// becomes the cohort born in the year `-(i + 1)`.
pub open spec fn population_new_spec(initial_gens: Seq<(usize, usize)>) -> PopulationModel {
    PopulationModel {
        cohorts: Seq::new(
            initial_gens.len(),
            |i: int| cohort_new_spec(initial_gens[i].0 as int, initial_gens[i].1 as int, -(i + 1)),
        ),
        male_remainder: 0,
        female_remainder: 0,
        current_year: 0,
    }
}

/// A population: its cohorts, the fraction of a newborn of each sex carried
/// over from the year before, and the current year.
#[derive(Debug)]
pub struct Population {
    cohorts: Vec<Cohort>,
    male_remainder: Fixed,
    female_remainder: Fixed,
    current_year: i32,
}

impl View for Population {
    type V = PopulationModel;

    closed spec fn view(&self) -> PopulationModel {
        PopulationModel {
            cohorts: models(self.cohorts@),
            male_remainder: self.male_remainder@,
            female_remainder: self.female_remainder@,
            current_year: self.current_year as int,
        }
    }
}

impl Population {
    #[verifier::type_invariant]
    pub open spec fn valid(&self) -> bool {
        self@.wf()
    }

    /// A population in the year zero. The pairs give the males and females of
    /// the cohorts that exist already, the youngest first.
    pub fn new(initial_gens: Vec<(usize, usize)>) -> (population: Population)
        requires
            initial_gens.len() <= 0x8000_0000,
        ensures
            population@ == population_new_spec(initial_gens@),
            population@.wf(),
    {
        let mut cohorts: Vec<Cohort> = Vec::new();
        let mut i: usize = 0;
        while i < initial_gens.len()
            invariant
                i <= initial_gens.len(),
                initial_gens.len() <= 0x8000_0000,
                cohorts.len() == i,
                forall|j: int|
                    0 <= j < i ==> (#[trigger] cohorts[j])@ == cohort_new_spec(
                        initial_gens[j].0 as int,
                        initial_gens[j].1 as int,
                        -(j + 1),
                    ),
                forall|j: int| 0 <= j < i ==> (#[trigger] cohorts[j])@.wf(),
            decreases initial_gens.len() - i,
        {
            let pair: (usize, usize) = initial_gens[i];
            let birth_year: i64 = -(i as i64 + 1);
            cohorts.push(Cohort::new(pair.0, pair.1, birth_year as i32));
            i = i + 1;
        }
        proof {
            assert(models(cohorts@) =~= population_new_spec(initial_gens@).cohorts);
        }
        Population {
            cohorts,
            male_remainder: Fixed { raw: 0 },
            female_remainder: Fixed { raw: 0 },
            current_year: 0,
        }
    }

    /// A population in the given state, if the state is well formed: each
    /// remainder a fraction of one newborn, the year not before zero, and no
    /// more cohorts than two to the thirty-first and one for each year gone by.
    pub fn with_state(
        cohorts: Vec<Cohort>,
        male_remainder: Fixed,
        female_remainder: Fixed,
        current_year: i32,
    ) -> (population: Option<Population>)
        ensures
            population is Some <==> {
                &&& 0 <= male_remainder@ < SCALE
                &&& 0 <= female_remainder@ < SCALE
                &&& 0 <= current_year
                &&& cohorts.len() <= 0x8000_0000 + current_year
            },
            population matches Some(p) ==> p@ == (PopulationModel {
                cohorts: models(cohorts@),
                male_remainder: male_remainder@,
                female_remainder: female_remainder@,
                current_year: current_year as int,
            }),
    {
        if male_remainder.raw < 0 || male_remainder.raw >= SCALE || female_remainder.raw < 0
            || female_remainder.raw >= SCALE || current_year < 0 {
            return None;
        }
        if cohorts.len() as u128 > 0x8000_0000u128 + (current_year as u128) {
            return None;
        }
        let mut i: usize = 0;
        while i < cohorts.len()
            invariant
                i <= cohorts.len(),
                forall|j: int| 0 <= j < i ==> (#[trigger] cohorts[j])@.wf(),
            decreases cohorts.len() - i,
        {
            let cohort: &Cohort = &cohorts[i];
            proof {
                use_type_invariant(&cohort.members);
                use_type_invariant(&cohort.fertility);
                use_type_invariant(&cohort.male_mortality);
                use_type_invariant(&cohort.female_mortality);
            }
            i = i + 1;
        }
        Some(Population { cohorts, male_remainder, female_remainder, current_year })
    }

    /// Whether the living of both sexes together can be counted by the machine,
    /// which is what the three totals ask for.
    pub fn countable(&self) -> (fits: bool)
        ensures
            fits == (self@.total_pop() <= usize::MAX),
    {
        proof {
            use_type_invariant(self);
            lemma_totals_nonnegative(self@);
        }
        let ghost males: Seq<int> = male_counts(self@.cohorts);
        let ghost females: Seq<int> = female_counts(self@.cohorts);
        proof {
            assert forall|j: int| 0 <= j < males.len() implies 0 <= #[trigger] males[j] by {
                assert(self@.cohorts[j].wf());
            }
            assert forall|j: int| 0 <= j < females.len() implies 0 <= #[trigger] females[j] by {
                assert(self@.cohorts[j].wf());
            }
        }
        let mut total: u128 = 0;
        let mut i: usize = 0;
        while i < self.cohorts.len()
            invariant
                i <= self.cohorts.len(),
                self.cohorts.len() <= 0xffff_ffff,
                males == male_counts(self@.cohorts),
                females == female_counts(self@.cohorts),
                males.len() == self.cohorts.len(),
                females.len() == self.cohorts.len(),
                forall|j: int| 0 <= j < males.len() ==> 0 <= #[trigger] males[j],
                forall|j: int| 0 <= j < females.len() ==> 0 <= #[trigger] females[j],
                total == seq_sum(males.take(i as int)) + seq_sum(females.take(i as int)),
                total <= i * 0x2_0000_0000_0000_0000,
            decreases self.cohorts.len() - i,
        {
            proof {
                assert(males.take(i + 1).drop_last() =~= males.take(i as int));
                assert(males.take(i + 1).last() == self.cohorts[i as int]@.members.males);
                assert(females.take(i + 1).drop_last() =~= females.take(i as int));
                assert(females.take(i + 1).last() == self.cohorts[i as int]@.members.females);
            }
            total = total + (self.cohorts[i].members.males() as u128) + (
            self.cohorts[i].members.females() as u128);
            i = i + 1;
        }
        proof {
            assert(males.take(self.cohorts.len() as int) =~= males);
            assert(females.take(self.cohorts.len() as int) =~= females);
        }
        total <= usize::MAX as u128
    }

    /// The living males of all cohorts.
    pub fn total_male(&self) -> (total: usize)
        requires
            self@.total_male() <= usize::MAX,
        ensures
            total == self@.total_male(),
    {
        proof {
            use_type_invariant(self);
        }
        let ghost counts: Seq<int> = male_counts(self@.cohorts);
        proof {
            assert forall|j: int| 0 <= j < counts.len() implies 0 <= #[trigger] counts[j] by {
                assert(self@.cohorts[j].wf());
            }
        }
        let mut total: usize = 0;
        let mut i: usize = 0;
        while i < self.cohorts.len()
            invariant
                i <= self.cohorts.len(),
                counts == male_counts(self@.cohorts),
                counts.len() == self.cohorts.len(),
                forall|j: int| 0 <= j < counts.len() ==> 0 <= #[trigger] counts[j],
                seq_sum(counts) <= usize::MAX,
                total == seq_sum(counts.take(i as int)),
            decreases self.cohorts.len() - i,
        {
            proof {
                lemma_prefix_sum(counts, i + 1);
                assert(counts.take(i + 1).drop_last() =~= counts.take(i as int));
                assert(counts.take(i + 1).last() == self.cohorts[i as int]@.members.males);
            }
            total = total + self.cohorts[i].members.males();
            i = i + 1;
        }
        proof {
            assert(counts.take(self.cohorts.len() as int) =~= counts);
        }
        total
    }

    /// The living females of all cohorts.
    pub fn total_female(&self) -> (total: usize)
        requires
            self@.total_female() <= usize::MAX,
        ensures
            total == self@.total_female(),
    {
        proof {
            use_type_invariant(self);
        }
        let ghost counts: Seq<int> = female_counts(self@.cohorts);
        proof {
            assert forall|j: int| 0 <= j < counts.len() implies 0 <= #[trigger] counts[j] by {
                assert(self@.cohorts[j].wf());
            }
        }
        let mut total: usize = 0;
        let mut i: usize = 0;
        while i < self.cohorts.len()
            invariant
                i <= self.cohorts.len(),
                counts == female_counts(self@.cohorts),
                counts.len() == self.cohorts.len(),
                forall|j: int| 0 <= j < counts.len() ==> 0 <= #[trigger] counts[j],
                seq_sum(counts) <= usize::MAX,
                total == seq_sum(counts.take(i as int)),
            decreases self.cohorts.len() - i,
        {
            proof {
                lemma_prefix_sum(counts, i + 1);
                assert(counts.take(i + 1).drop_last() =~= counts.take(i as int));
                assert(counts.take(i + 1).last() == self.cohorts[i as int]@.members.females);
            }
            total = total + self.cohorts[i].members.females();
            i = i + 1;
        }
        proof {
            assert(counts.take(self.cohorts.len() as int) =~= counts);
        }
        total
    }

    /// The living of both sexes of all cohorts.
    pub fn total_pop(&self) -> (total: usize)
        requires
            self@.total_pop() <= usize::MAX,
        ensures
            total == self@.total_pop(),
    {
        proof {
            use_type_invariant(self);
            lemma_totals_nonnegative(self@);
        }
        self.total_male() + self.total_female()
    }

    /// The current year.
    pub fn current_year(&self) -> (year: i32)
        ensures
            year == self@.current_year,
            year >= 0,
    {
        proof {
            use_type_invariant(self);
        }
        self.current_year
    }

    /// The cohorts, the youngest first.
    pub fn cohorts(&self) -> (cohorts: &Vec<Cohort>)
        ensures
            models(cohorts@) == self@.cohorts,
    {
        &self.cohorts
    }

    /// The fraction of a newborn boy carried over from the year before.
    pub fn male_remainder(&self) -> (remainder: Fixed)
        ensures
            remainder@ == self@.male_remainder,
            0 <= remainder@ < SCALE,
    {
        proof {
            use_type_invariant(self);
        }
        self.male_remainder
    }

    /// The fraction of a newborn girl carried over from the year before.
    pub fn female_remainder(&self) -> (remainder: Fixed)
        ensures
            remainder@ == self@.female_remainder,
            0 <= remainder@ < SCALE,
    {
        proof {
            use_type_invariant(self);
        }
        self.female_remainder
    }

    /// The births expected this year of all cohorts, in billionths.
    fn expected_births(&self) -> (total: i128)
        ensures
            total == self@.expected_births(),
            0 <= total <= self@.cohorts.len() * BIRTHS_BOUND,
    {
        proof {
            use_type_invariant(self);
        }
        let year: i32 = self.current_year;
        let ghost all: Seq<CohortModel> = self@.cohorts;
        let mut total: i128 = 0;
        let mut i: usize = 0;
        while i < self.cohorts.len()
            invariant
                i <= self.cohorts.len(),
                all == models(self.cohorts@),
                forall|j: int| 0 <= j < all.len() ==> (#[trigger] all[j]).wf(),
                self.cohorts.len() <= 0xffff_ffff,
                year == self.current_year,
                total == births_sum(all.take(i as int), year as int),
                0 <= total <= i * BIRTHS_BOUND,
            decreases self.cohorts.len() - i,
        {
            let expected: i128 = self.cohorts[i].births(year, Fixed { raw: TOTAL_FERTILITY_RATE });
            proof {
                assert(all.take(i + 1).drop_last() =~= all.take(i as int));
                assert(all.take(i + 1).last() == self.cohorts[i as int]@);
                let females: int = self.cohorts[i as int]@.members.females;
                assert(all[i as int].wf());
                assert(TOTAL_FERTILITY_RATE * females <= BIRTHS_BOUND) by (nonlinear_arith)
                    requires
                        0 <= females <= 0xffff_ffff_ffff_ffff,
                        TOTAL_FERTILITY_RATE == 2_100_000_000,
                        BIRTHS_BOUND == 2_100_000_000 * 0xffff_ffff_ffff_ffff,
                ;
                assert((i + 1) * BIRTHS_BOUND == i * BIRTHS_BOUND + BIRTHS_BOUND
                    && (i + 1) * BIRTHS_BOUND <= 0xffff_ffff * BIRTHS_BOUND) by (nonlinear_arith)
                    requires
                        i + 1 <= 0xffff_ffff,
                        BIRTHS_BOUND >= 0,
                ;
            }
            total = total + expected;
            i = i + 1;
        }
        proof {
            assert(all.take(self.cohorts.len() as int) =~= all);
        }
        total
    }

    /// One year on. The births of every cohort are added, halved between the
    /// sexes and joined to the remainders of the year before; their whole
    /// numbers make the new cohort, which comes first, and their fractions are
    /// carried over. Then every cohort, the new one too, goes through the
    /// deaths of the year, the emptied ones are dropped, and the year counts up.
    pub fn advance_year(self) -> (next: Population)
        requires
            self@.current_year < i32::MAX,
        ensures
            next@ == self@.advance_year(),
            next@.wf(),
    {
        proof {
            use_type_invariant(&self);
        }
        let year: i32 = self.current_year;
        let total: i128 = self.expected_births();
        proof {
            assert(self@.cohorts.len() * BIRTHS_BOUND <= 0xffff_ffff * BIRTHS_BOUND)
                by (nonlinear_arith)
                requires
                    self@.cohorts.len() <= 0xffff_ffff,
                    BIRTHS_BOUND >= 0,
            ;
        }
        let half: i128 = total / 2;
        let males: u128 = (half + self.male_remainder.raw as i128) as u128;
        let females: u128 = ((total - half) + self.female_remainder.raw as i128) as u128;
        let new_gen: Cohort = Cohort::new(whole_newborns(males), whole_newborns(females), year);
        let male_remainder: Fixed = Fixed { raw: (males % 1_000_000_000) as i64 };
        let female_remainder: Fixed = Fixed { raw: (females % 1_000_000_000) as i64 };
        let ghost before: Seq<CohortModel> = seq![new_gen@] + self@.cohorts;
        proof {
            assert forall|j: int| 0 <= j < self.cohorts.len() implies (#[trigger] self.cohorts[j])@.wf() by {
                assert(self@.cohorts[j].wf());
            }
        }
        let Population { cohorts, male_remainder: _, female_remainder: _, current_year: _ } = self;
        let mut alive: Vec<Cohort> = Vec::new();
        proof {
            assert(before.take(1).drop_last() =~= Seq::<CohortModel>::empty());
            assert(before.take(1).last() == new_gen@);
            assert(survivors(Seq::<CohortModel>::empty(), year as int) =~= Seq::<
                CohortModel,
            >::empty());
        }
        match new_gen.perform_deaths(year, 0, 0) {
            Some(cohort) => {
                alive.push(cohort);
            },
            None => {},
        }
        proof {
            assert(models(alive@) =~= survivors(before.take(1), year as int));
        }
        for cohort in it: cohorts.into_iter()
            invariant
                before == seq![new_gen@] + models(cohorts@),
                models(alive@) == survivors(before.take(it.index() + 1), year as int),
                alive.len() <= it.index() + 1,
                forall|j: int| 0 <= j < alive.len() ==> (#[trigger] alive[j])@.wf(),
                forall|j: int| 0 <= j < cohorts.len() ==> (#[trigger] cohorts[j])@.wf(),
        {
            proof {
                let k: int = it.index() as int;
                assert(before.take(k + 2).drop_last() =~= before.take(k + 1));
                assert(before.take(k + 2).last() == cohort@);
            }
            let ghost kept: Seq<CohortModel> = models(alive@);
            match cohort.perform_deaths(year, 0, 0) {
                Some(survivor) => {
                    alive.push(survivor);
                    proof {
                        assert(models(alive@) =~= kept.push(survivor@));
                    }
                },
                None => {},
            }
        }
        proof {
            assert(before.take(cohorts.len() + 1) =~= before);
        }
        Population { cohorts: alive, male_remainder, female_remainder, current_year: year + 1 }
    }
}

/// The most that one cohort can add to the births of a year, in billionths.
pub const BIRTHS_BOUND: i128 = 2_100_000_000 * 0xffff_ffff_ffff_ffff;

/// Neither sex has a negative total.
pub proof fn lemma_totals_nonnegative(p: PopulationModel)
    requires
        p.wf(),
    ensures
        0 <= p.total_male(),
        0 <= p.total_female(),
{
    let males: Seq<int> = male_counts(p.cohorts);
    let females: Seq<int> = female_counts(p.cohorts);
    assert forall|j: int| 0 <= j < males.len() implies 0 <= #[trigger] males[j] by {
        assert(p.cohorts[j].wf());
    }
    assert forall|j: int| 0 <= j < females.len() implies 0 <= #[trigger] females[j] by {
        assert(p.cohorts[j].wf());
    }
    lemma_prefix_sum(males, males.len() as int);
    lemma_prefix_sum(females, females.len() as int);
    assert(males.take(males.len() as int) =~= males);
    assert(females.take(females.len() as int) =~= females);
}

/// The births expected of well-formed cohorts are not negative.
pub proof fn lemma_births_nonnegative(cohorts: Seq<CohortModel>, year: int)
    requires
        forall|i: int| 0 <= i < cohorts.len() ==> (#[trigger] cohorts[i]).wf(),
    ensures
        0 <= births_sum(cohorts, year),
    decreases cohorts.len(),
{
    if cohorts.len() > 0 {
        lemma_births_nonnegative(cohorts.drop_last(), year);
        let last: CohortModel = cohorts.last();
        assert(last.wf());
        if year >= last.birth_year {
            let age: int = year - last.birth_year;
            let rate: int = last.fertility.birth_rate(age, TOTAL_FERTILITY_RATE as int);
            if last.fertility.min_age <= age <= last.fertility.max_age && age
                - last.fertility.min_age < last.fertility.curve.len() {
                let share: int = last.fertility.curve[age - last.fertility.min_age];
                assert(share * TOTAL_FERTILITY_RATE / (SCALE as int) >= 0) by (nonlinear_arith)
                    requires
                        0 <= share,
                        TOTAL_FERTILITY_RATE == 2_100_000_000,
                        SCALE == 1_000_000_000,
                ;
                assert(share * TOTAL_FERTILITY_RATE >= 0) by (nonlinear_arith)
                    requires
                        0 <= share,
                        TOTAL_FERTILITY_RATE == 2_100_000_000,
                ;
            }
            assert(rate * last.members.females >= 0) by (nonlinear_arith)
                requires
                    rate >= 0,
                    last.members.females >= 0,
            ;
        }
    }
}

/// The deaths of a year leave well-formed cohorts, no more of them than
/// before, and no more of either sex.
pub proof fn lemma_survivors(cohorts: Seq<CohortModel>, year: int)
    requires
        forall|i: int| 0 <= i < cohorts.len() ==> (#[trigger] cohorts[i]).wf(),
    ensures
        forall|i: int|
            0 <= i < survivors(cohorts, year).len() ==> (#[trigger] survivors(
                cohorts,
                year,
            )[i]).wf(),
        survivors(cohorts, year).len() <= cohorts.len(),
        0 <= seq_sum(male_counts(survivors(cohorts, year))) <= seq_sum(male_counts(cohorts)),
        0 <= seq_sum(female_counts(survivors(cohorts, year))) <= seq_sum(female_counts(cohorts)),
    decreases cohorts.len(),
{
    if cohorts.len() == 0 {
        assert(male_counts(cohorts) =~= Seq::<int>::empty());
        assert(female_counts(cohorts) =~= Seq::<int>::empty());
        assert(male_counts(survivors(cohorts, year)) =~= Seq::<int>::empty());
        assert(female_counts(survivors(cohorts, year)) =~= Seq::<int>::empty());
        assert(seq_sum(Seq::<int>::empty()) == 0);
    } else {
        let head: Seq<CohortModel> = cohorts.drop_last();
        let last: CohortModel = cohorts.last();
        lemma_survivors(head, year);
        assert(last.wf());
        crate::population::cohort::lemma_perform_deaths_wf(last, year, 0, 0);
        let kept: Seq<CohortModel> = survivors(head, year);
        assert(male_counts(cohorts).drop_last() =~= male_counts(head));
        assert(female_counts(cohorts).drop_last() =~= female_counts(head));
        assert(male_counts(cohorts).last() == last.members.males);
        assert(female_counts(cohorts).last() == last.members.females);
        match last.perform_deaths(year, 0, 0) {
            Some(after) => {
                let all: Seq<CohortModel> = kept.push(after);
                assert(male_counts(all).drop_last() =~= male_counts(kept));
                assert(female_counts(all).drop_last() =~= female_counts(kept));
                assert(male_counts(all).last() == after.members.males);
                assert(female_counts(all).last() == after.members.females);
                assert forall|i: int| 0 <= i < all.len() implies (#[trigger] all[i]).wf() by {
                    if i < kept.len() {
                        assert(all[i] == kept[i]);
                    }
                }
            },
            None => {},
        }
    }
}

/// A year on, a well-formed population is well formed, with at most one
/// cohort more, and of each sex no more than the living and the newborn.
pub proof fn lemma_advance_year_wf(p: PopulationModel)
    requires
        p.wf(),
        p.current_year < i32::MAX,
    ensures
        p.advance_year().wf(),
        p.newborn().wf(),
        p.advance_year().cohorts.len() <= p.cohorts.len() + 1,
        0 <= p.advance_year().total_male() <= p.total_male() + p.newborn().members.males,
        0 <= p.advance_year().total_female() <= p.total_female() + p.newborn().members.females,
{
    lemma_births_nonnegative(p.cohorts, p.current_year);
    let births: int = p.expected_births();
    assert(births / 2 >= 0 && births - births / 2 >= 0);
    assert(p.expected_males() / (SCALE as int) >= 0 && p.expected_females() / (SCALE as int) >= 0)
        by (nonlinear_arith)
        requires
            p.expected_males() >= 0,
            p.expected_females() >= 0,
            SCALE == 1_000_000_000,
    ;
    let newborn: CohortModel = p.newborn();
    crate::population::cohort::lemma_cohort_new_wf(
        newborn.members.males,
        newborn.members.females,
        p.current_year,
    );
    let all: Seq<CohortModel> = seq![newborn] + p.cohorts;
    assert forall|i: int| 0 <= i < all.len() implies (#[trigger] all[i]).wf() by {
        if i > 0 {
            assert(all[i] == p.cohorts[i - 1]);
        }
    }
    lemma_survivors(all, p.current_year);
    assert(male_counts(all) =~= seq![newborn.members.males] + male_counts(p.cohorts));
    assert(female_counts(all) =~= seq![newborn.members.females] + female_counts(p.cohorts));
    crate::fixed::lemma_sum_prepend(newborn.members.males, male_counts(p.cohorts));
    crate::fixed::lemma_sum_prepend(newborn.members.females, female_counts(p.cohorts));
}

/// The population `years` years on.
pub open spec fn years_on(p: PopulationModel, years: nat) -> PopulationModel
    decreases years,
{
    if years == 0 {
        p
    } else {
        years_on(p, (years - 1) as nat).advance_year()
    }
}

/// Whether in each of the next `years` years the newborns of each sex can
/// be counted by the machine.
pub open spec fn newborns_countable(p: PopulationModel, years: nat) -> bool
    decreases years,
{
    if years == 0 {
        true
    } else {
        let last = years_on(p, (years - 1) as nat);
        &&& newborns_countable(p, (years - 1) as nat)
        &&& last.expected_males() / (SCALE as int) <= usize::MAX
        &&& last.expected_females() / (SCALE as int) <= usize::MAX
    }
}

/// The boys born in the next `years` years.
pub open spec fn boys_born(p: PopulationModel, years: nat) -> int
    decreases years,
{
    if years == 0 {
        0
    } else {
        boys_born(p, (years - 1) as nat) + years_on(
            p,
            (years - 1) as nat,
        ).newborn().members.males
    }
}

/// The girls born in the next `years` years.
pub open spec fn girls_born(p: PopulationModel, years: nat) -> int
    decreases years,
{
    if years == 0 {
        0
    } else {
        girls_born(p, (years - 1) as nat) + years_on(
            p,
            (years - 1) as nat,
        ).newborn().members.females
    }
}

/// The births expected in the next `years` years, in billionths.
pub open spec fn births_expected(p: PopulationModel, years: nat) -> int
    decreases years,
{
    if years == 0 {
        0
    } else {
        births_expected(p, (years - 1) as nat) + years_on(
            p,
            (years - 1) as nat,
        ).expected_births()
    }
}

/// In one year the newborns of each sex and the fraction carried over make
/// up exactly what was expected, and the two halves make up all the births.
pub proof fn lemma_births_conserved(p: PopulationModel)
    ensures
        p.expected_males() + p.expected_females() == p.expected_births() + p.male_remainder
            + p.female_remainder,
        p.expected_males() / (SCALE as int) <= usize::MAX ==> p.newborn().members.males * SCALE
            + p.advance_year().male_remainder == p.expected_males(),
        p.expected_females() / (SCALE as int) <= usize::MAX ==> p.newborn().members.females
            * SCALE + p.advance_year().female_remainder == p.expected_females(),
        0 <= p.advance_year().male_remainder < SCALE,
        0 <= p.advance_year().female_remainder < SCALE,
{
    vstd::arithmetic::div_mod::lemma_fundamental_div_mod(p.expected_males(), SCALE as int);
    vstd::arithmetic::div_mod::lemma_fundamental_div_mod(p.expected_females(), SCALE as int);
    assert(SCALE * (p.expected_males() / (SCALE as int)) == (p.expected_males() / (SCALE as int))
        * SCALE) by (nonlinear_arith);
    assert(SCALE * (p.expected_females() / (SCALE as int)) == (p.expected_females() / (
    SCALE as int)) * SCALE) by (nonlinear_arith);
}

/// Over any number of years the fractions carried over lose nothing: the
/// newborns of both sexes, with what the last year carries over, make up
/// exactly the births expected and what the first year had carried over.
pub proof fn lemma_remainders_conserve_births(p: PopulationModel, years: nat)
    requires
        newborns_countable(p, years),
    ensures
        (boys_born(p, years) + girls_born(p, years)) * SCALE + years_on(p, years).male_remainder
            + years_on(p, years).female_remainder == births_expected(p, years) + p.male_remainder
            + p.female_remainder,
    decreases years,
{
    if years == 0 {
        assert((0 + 0) * SCALE == 0) by (nonlinear_arith);
    } else {
        let before: nat = (years - 1) as nat;
        let last: PopulationModel = years_on(p, before);
        lemma_remainders_conserve_births(p, before);
        lemma_births_conserved(last);
        let boys: int = last.newborn().members.males;
        let girls: int = last.newborn().members.females;
        let born: int = boys_born(p, before) + girls_born(p, before);
        assert((born + boys + girls) * SCALE == born * SCALE + boys * SCALE + girls * SCALE)
            by (nonlinear_arith);
    }
}

/// A population without cohorts stays without cohorts: nobody is born, the
/// fractions carried over stay as they are, and only the year counts up.
pub proof fn lemma_empty_stays_empty(p: PopulationModel)
    requires
        p.wf(),
        p.cohorts.len() == 0,
    ensures
        p.advance_year().cohorts.len() == 0,
        p.advance_year().male_remainder == p.male_remainder,
        p.advance_year().female_remainder == p.female_remainder,
        p.advance_year().current_year == p.current_year + 1,
        p.advance_year().total_pop() == 0,
{
    let year: int = p.current_year;
    assert(p.expected_births() == 0);
    assert(p.expected_males() == p.male_remainder);
    assert(p.expected_females() == p.female_remainder);
    let newborn: CohortModel = p.newborn();
    assert(newborn.members.males == 0 && newborn.members.females == 0);
    let male_rate: int = crate::population::cohort::heligman_pollard::at_age_spec(
        newborn.male_mortality,
        0,
    );
    let female_rate: int = crate::population::cohort::heligman_pollard::at_age_spec(
        newborn.female_mortality,
        0,
    );
    assert(0 * male_rate == 0 && 0 * female_rate == 0) by (nonlinear_arith);
    assert(newborn.perform_deaths(year, 0, 0) is None);
    let all: Seq<CohortModel> = seq![newborn] + p.cohorts;
    assert(all.len() == 1);
    assert(all.last() == newborn);
    assert(all.drop_last() =~= Seq::<CohortModel>::empty());
    assert(survivors(all.drop_last(), year) =~= Seq::<CohortModel>::empty());
    assert(survivors(all, year) =~= Seq::<CohortModel>::empty());
    let next: PopulationModel = p.advance_year();
    assert(male_counts(next.cohorts) =~= Seq::<int>::empty());
    assert(female_counts(next.cohorts) =~= Seq::<int>::empty());
    assert(seq_sum(Seq::<int>::empty()) == 0);
}

/// Over any number of years a population without cohorts has nobody in it.
pub proof fn lemma_empty_for_years(p: PopulationModel, years: nat)
    requires
        p.wf(),
        p.cohorts.len() == 0,
        p.current_year + years <= i32::MAX,
    ensures
        years_on(p, years).wf(),
        years_on(p, years).cohorts.len() == 0,
        years_on(p, years).total_pop() == p.total_pop(),
        years_on(p, years).current_year == p.current_year + years,
    decreases years,
{
    assert(male_counts(p.cohorts) =~= Seq::<int>::empty());
    assert(female_counts(p.cohorts) =~= Seq::<int>::empty());
    assert(seq_sum(Seq::<int>::empty()) == 0);
    if years > 0 {
        lemma_empty_for_years(p, (years - 1) as nat);
        lemma_empty_stays_empty(years_on(p, (years - 1) as nat));
    }
}

/// The whole newborns in an expected number of billionths.
fn whole_newborns(expected: u128) -> (count: usize)
    ensures
        count == newborn_count(expected as int),
{
    let whole: u128 = expected / 1_000_000_000;
    if whole > usize::MAX as u128 {
        usize::MAX
    } else {
        whole as usize
    }
}

} // verus!

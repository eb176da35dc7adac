//! The living members of a cohort and the deaths carried over between years.

use vstd::prelude::*;
use crate::fixed::Fixed;
use crate::fixed::SCALE;

verus! {

/// The counts of a cohort: the living of each sex, and for each sex the
/// fraction of a death, in billionths, carried over from the year before.
pub struct MembersModel {
    pub males: int,
    pub females: int,
    pub male_dying: int,
    pub female_dying: int,
}

impl MembersModel {
    /// Counts fit the machine, and a remainder is less than one whole death.
    pub open spec fn wf(self) -> bool {
        &&& 0 <= self.males <= usize::MAX
        &&& 0 <= self.females <= usize::MAX
        &&& 0 <= self.male_dying < SCALE
        &&& 0 <= self.female_dying < SCALE
    }
}

/// Those of `count` left alive by `extraordinary` forced deaths.
pub open spec fn unnatural_survivors(count: int, extraordinary: int) -> int {
    if count >= extraordinary {
        count - extraordinary
    } else {
        0
    }
}

/// All deaths of one sex in a year, in billionths: the natural deaths among
/// the survivors of the forced ones, the remainder of the year before, and
/// the forced deaths in full.
pub open spec fn deaths_spec(count: int, extraordinary: int, rate: int, remainder: int) -> int {
    unnatural_survivors(count, extraordinary) * rate + remainder + extraordinary * SCALE
}

/// Those of `count` left alive once the whole deaths are taken away.
pub open spec fn alive_after(count: int, deaths: int) -> int {
    if count >= deaths / (SCALE as int) {
        count - deaths / (SCALE as int)
    } else {
        0
    }
}

/// The fraction of a death that is carried into the next year.
pub open spec fn remainder_after(deaths: int) -> int {
    deaths % (SCALE as int)
}

/// The living members of a cohort.
#[derive(Debug)]
pub struct Members {
    males: usize,
    females: usize,
    male_dying: Fixed,
    female_dying: Fixed,
}

impl View for Members {
    type V = MembersModel;

    closed spec fn view(&self) -> MembersModel {
        MembersModel {
            males: self.males as int,
            females: self.females as int,
            male_dying: self.male_dying@,
            female_dying: self.female_dying@,
        }
    }
}

/// One sex through one year: the count left alive and the remainder carried over.
pub fn apply_deaths(count: usize, extraordinary: usize, rate: Fixed, remainder: Fixed) -> (after: (
    usize,
    Fixed,
))
    requires
        0 <= rate@ <= SCALE,
        0 <= remainder@ < SCALE,
    ensures
        after.0 == alive_after(
            count as int,
            deaths_spec(count as int, extraordinary as int, rate@, remainder@),
        ),
        after.1@ == remainder_after(
            deaths_spec(count as int, extraordinary as int, rate@, remainder@),
        ),
        after.0 <= count,
        0 <= after.1@ < SCALE,
{
    let survivors: u128 = count.saturating_sub(extraordinary) as u128;
    assert(survivors * (rate.raw as u128) <= 0xffff_ffff_ffff_ffff * 1_000_000_000)
        by (nonlinear_arith)
        requires
            survivors <= 0xffff_ffff_ffff_ffff,
            0 <= rate.raw <= 1_000_000_000,
    ;
    let natural: u128 = survivors * (rate.raw as u128) + (remainder.raw as u128);
    let deaths: u128 = natural + (extraordinary as u128) * 1_000_000_000;
    let dead: u128 = deaths / 1_000_000_000;
    let left: u128 = deaths % 1_000_000_000;
    let alive: usize = if dead >= count as u128 {
        0
    } else {
        count - (dead as usize)
    };
    (alive, Fixed { raw: left as i64 })
}

impl Members {
    #[verifier::type_invariant]
    pub open spec fn valid(&self) -> bool {
        self@.wf()
    }

    /// Members with nothing carried over.
    pub fn new(males: usize, females: usize) -> (members: Members)
        ensures
            members@ == (MembersModel {
                males: males as int,
                females: females as int,
                male_dying: 0,
                female_dying: 0,
            }),
    {
        Members { males, females, male_dying: Fixed { raw: 0 }, female_dying: Fixed { raw: 0 } }
    }

    /// Members with remainders known to be fractions of one death.
    pub(crate) fn from_parts(
        males: usize,
        females: usize,
        male_dying: Fixed,
        female_dying: Fixed,
    ) -> (members: Members)
        requires
            0 <= male_dying@ < SCALE,
            0 <= female_dying@ < SCALE,
        ensures
            members@ == (MembersModel {
                males: males as int,
                females: females as int,
                male_dying: male_dying@,
                female_dying: female_dying@,
            }),
    {
        Members { males, females, male_dying, female_dying }
    }

    /// Members with the given remainders, where each is a fraction of one death.
    pub fn with_remainders(
        males: usize,
        females: usize,
        male_dying: Fixed,
        female_dying: Fixed,
    ) -> (members: Option<Members>)
        ensures
            members is Some <==> 0 <= male_dying@ < SCALE && 0 <= female_dying@ < SCALE,
            members matches Some(m) ==> m@ == (MembersModel {
                males: males as int,
                females: females as int,
                male_dying: male_dying@,
                female_dying: female_dying@,
            }),
    {
        if 0 <= male_dying.raw && male_dying.raw < SCALE && 0 <= female_dying.raw
            && female_dying.raw < SCALE {
            Some(Members { males, females, male_dying, female_dying })
        } else {
            None
        }
    }

    /// The living males.
    pub fn males(&self) -> (n: usize)
        ensures
            n == self@.males,
    {
        self.males
    }

    /// The living females.
    pub fn females(&self) -> (n: usize)
        ensures
            n == self@.females,
    {
        self.females
    }

    /// The fraction of a male death carried over.
    pub fn male_dying(&self) -> (f: Fixed)
        ensures
            f@ == self@.male_dying,
            0 <= f@ < SCALE,
    {
        proof {
            use_type_invariant(self);
        }
        self.male_dying
    }

    /// The fraction of a female death carried over.
    pub fn female_dying(&self) -> (f: Fixed)
        ensures
            f@ == self@.female_dying,
            0 <= f@ < SCALE,
    {
        proof {
            use_type_invariant(self);
        }
        self.female_dying
    }

    /// The living of both sexes.
    pub fn total(&self) -> (n: usize)
        requires
            self@.males + self@.females <= usize::MAX,
        ensures
            n == self@.males + self@.females,
    {
        self.males + self.females
    }
}

} // verus!

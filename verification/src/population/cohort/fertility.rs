//! The fertility curve: a skew-normal density sampled over the fertile ages
//! and normalised, so that each age holds its share of a lifetime's births.

use vstd::prelude::*;
use crate::fixed::Fixed;
use crate::fixed::SCALE;
use crate::fixed::trunc_div;
use crate::fixed::lemma_mul_range;
use crate::fixed::seq_sum;
use crate::fixed::lemma_sum_bounds;
use crate::special::UNIT;
use crate::special::EXP_TERMS;
use crate::special::LN2;
use crate::special::lemma_exp_neg_lower;
use crate::skew_normal::Curve;
use crate::skew_normal::SQRT_2_OVER_PI;
use crate::skew_normal::bell_spec;
use crate::skew_normal::density_spec;
use crate::skew_normal::lemma_density_bounds;
use crate::skew_normal::sample_point;

verus! {

/// Every element as a share of the sum, in billionths and rounded down.
pub open spec fn normalize_spec(v: Seq<int>) -> Seq<int> {
    Seq::new(v.len(), |i: int| v[i] * SCALE / seq_sum(v))
}

/// The raw values of a sequence of fixed-point numbers.
pub open spec fn raws(v: Seq<Fixed>) -> Seq<int> {
    Seq::new(v.len(), |i: int| v[i]@)
}

/// The density of skew minus three at `count` points from minus two up to,
/// and short of, three.
pub open spec fn samples_spec(count: int) -> Seq<int> {
    Seq::new(
        count as nat,
        |i: int| density_spec(-3 * SCALE, sample_point(-2 * SCALE, 3 * SCALE, count, i)),
    )
}

/// A fertility curve: the share of each age from `min_age` on, in billionths.
pub struct FertilityModel {
    pub curve: Seq<int>,
    pub min_age: int,
    pub max_age: int,
}

impl FertilityModel {
    /// One share for each age below `max_age`, each within zero to one.
    pub open spec fn wf(self) -> bool {
        &&& 0 <= self.min_age < self.max_age <= usize::MAX
        &&& self.curve.len() == self.max_age - self.min_age
        &&& forall|i: int| 0 <= i < self.curve.len() ==> 0 <= #[trigger] self.curve[i] <= SCALE
    }

    /// The births expected of one female of the given age, for a lifetime
    /// total of `total_fertility_rate`: nothing outside the fertile ages.
    pub open spec fn birth_rate(self, age: int, total_fertility_rate: int) -> int {
        if age < self.min_age || age > self.max_age {
            0
        } else if age - self.min_age < self.curve.len() {
            trunc_div(self.curve[age - self.min_age] * total_fertility_rate, SCALE as int)
        } else {
            0
        }
    }
}

/// The curve that `Fertility::new` builds.
pub open spec fn fertility_new_spec(min_age: int, max_age: int) -> FertilityModel {
    FertilityModel { curve: normalize_spec(samples_spec(max_age - min_age)), min_age, max_age }
}

proof fn lemma_share_step(value: int, total: int)
    by (nonlinear_arith)
    requires
        0 <= value,
        0 < total,
        SCALE == 1_000_000_000,
    ensures
        0 <= value * SCALE / total,
        (value * SCALE / total) * total <= value * SCALE,
        value * SCALE <= (value * SCALE / total + 1) * total - 1,
        value <= total ==> value * SCALE / total <= SCALE,
{
    let q: int = value * SCALE / total;
    if value <= total {
        assert(value * SCALE <= SCALE * total);
        assert(q <= SCALE) by {
            if q > SCALE {
                assert(q * total >= (SCALE + 1) * total);
            }
        }
    }
}

proof fn lemma_normalized_prefix(v: Seq<int>, n: int)
    requires
        forall|j: int| 0 <= j < v.len() ==> 0 <= #[trigger] v[j],
        seq_sum(v) > 0,
        0 <= n <= v.len(),
    ensures
        seq_sum(normalize_spec(v).take(n)) * seq_sum(v) <= SCALE * seq_sum(v.take(n)),
        SCALE * seq_sum(v.take(n)) <= (seq_sum(normalize_spec(v).take(n)) + n) * seq_sum(v) - n,
    decreases n,
{
    let total: int = seq_sum(v);
    let shares: Seq<int> = normalize_spec(v);
    if n == 0 {
        assert(seq_sum(shares.take(0)) == 0);
        assert(seq_sum(v.take(0)) == 0);
        assert(0 * total == 0) by (nonlinear_arith);
        assert(SCALE * 0 == 0) by (nonlinear_arith);
    } else {
        lemma_normalized_prefix(v, n - 1);
        assert(shares.take(n).drop_last() =~= shares.take(n - 1));
        assert(v.take(n).drop_last() =~= v.take(n - 1));
        let a: int = seq_sum(shares.take(n - 1));
        let b: int = seq_sum(v.take(n - 1));
        let share: int = shares[n - 1];
        let value: int = v[n - 1];
        assert(seq_sum(shares.take(n)) == a + share);
        assert(seq_sum(v.take(n)) == b + value);
        lemma_share_step(value, total);
        assert((a + share) * total <= SCALE * (b + value) && SCALE * (b + value) <= (a + share + n)
            * total - n) by (nonlinear_arith)
            requires
                a * total <= SCALE * b,
                SCALE * b <= (a + (n - 1)) * total - (n - 1),
                share * total <= value * SCALE,
                value * SCALE <= (share + 1) * total - 1,
        ;
    }
}

/// Normalised shares add up to one, short by less than one billionth for
/// each share.
pub proof fn lemma_normalized_sum(v: Seq<int>)
    requires
        forall|j: int| 0 <= j < v.len() ==> 0 <= #[trigger] v[j],
        seq_sum(v) > 0,
    ensures
        SCALE - v.len() < seq_sum(normalize_spec(v)) <= SCALE,
{
    let n: int = v.len() as int;
    let total: int = seq_sum(v);
    let shares: Seq<int> = normalize_spec(v);
    lemma_normalized_prefix(v, n);
    assert(shares.take(n) =~= shares);
    assert(v.take(n) =~= v);
    let sum: int = seq_sum(shares);
    assert(n >= 1) by {
        if n == 0 {
            assert(seq_sum(v) == 0);
        }
    }
    assert(sum <= SCALE) by (nonlinear_arith)
        requires
            sum * total <= SCALE * total,
            total > 0,
    ;
    assert(SCALE - n < sum) by (nonlinear_arith)
        requires
            SCALE * total <= (sum + n) * total - n,
            total > 0,
            n >= 1,
    {
        assert((sum + n - SCALE) * total >= n);
        if sum + n - SCALE <= 0 {
            assert((sum + n - SCALE) * total <= 0);
        }
    }
}

/// The first sample of a fertility curve, at minus two, is above zero.
pub proof fn lemma_first_sample_positive()
    ensures
        density_spec(-3 * SCALE, -2 * SCALE) >= 1,
{
    let x: int = -2 * SCALE;
    let skew: int = -3 * SCALE;
    assert(x * skew == 6_000_000_000_000_000_000) by (nonlinear_arith)
        requires
            x == -2_000_000_000,
            skew == -3_000_000_000,
    ;
    assert(x * x / 2 == 2_000_000_000_000_000_000) by (nonlinear_arith)
        requires
            x == -2_000_000_000,
    ;
    assert(skew * x == x * skew) by (nonlinear_arith);
    let t: int = 2_000_000_000_000_000_000;
    lemma_exp_neg_lower(t);
    vstd::arithmetic::power2::lemma2_to64();
    assert(t / (LN2 as int) == 2);
    assert(((UNIT as int) / (EXP_TERMS as int)) / 4 >= 10_000_000_000_000_000);
    let bell: int = bell_spec(x);
    assert(bell * SQRT_2_OVER_PI / (UNIT * SCALE) >= 1) by (nonlinear_arith)
        requires
            bell >= 10_000_000_000_000_000,
            SQRT_2_OVER_PI == 797_884_560_802_865_355,
            UNIT == 1_000_000_000_000_000_000,
            SCALE == 1_000_000_000,
    ;
}

/// The curve that `Fertility::new` builds over any ages is well formed, and
/// its shares add up to one, short by less than one billionth for each age.
pub proof fn lemma_fertility_new_wf(min_age: int, max_age: int)
    requires
        0 <= min_age < max_age <= usize::MAX,
    ensures
        fertility_new_spec(min_age, max_age).wf(),
        SCALE - (max_age - min_age) < seq_sum(fertility_new_spec(min_age, max_age).curve) <= SCALE,
{
    let count: int = max_age - min_age;
    let samples: Seq<int> = samples_spec(count);
    assert forall|j: int| 0 <= j < samples.len() implies 0 <= #[trigger] samples[j] <= SCALE by {
        lemma_density_bounds(-3 * SCALE, sample_point(-2 * SCALE, 3 * SCALE, count, j));
    }
    lemma_first_sample_positive();
    assert(sample_point(-2 * SCALE, 3 * SCALE, count, 0) == -2 * SCALE) by (nonlinear_arith)
        requires
            sample_point(-2 * SCALE, 3 * SCALE, count, 0) == -2 * SCALE
                + crate::skew_normal::step_spec(-2 * SCALE, 3 * SCALE, count) * 0,
    ;
    lemma_sum_bounds(samples, 0);
    lemma_normalized_sum(samples);
    let curve: Seq<int> = normalize_spec(samples);
    assert forall|i: int| 0 <= i < curve.len() implies 0 <= #[trigger] curve[i] <= SCALE by {
        lemma_sum_bounds(samples, i);
        lemma_share_step(samples[i], seq_sum(samples));
    }
}

/// Every element as a share of the sum.
fn normalize(vector: Vec<Fixed>) -> (shares: Vec<Fixed>)
    requires
        forall|j: int| 0 <= j < vector.len() ==> 0 <= (#[trigger] vector[j])@ <= SCALE,
        seq_sum(raws(vector@)) > 0,
    ensures
        raws(shares@) == normalize_spec(raws(vector@)),
        forall|j: int| 0 <= j < shares.len() ==> 0 <= (#[trigger] shares[j])@ <= SCALE,
{
    let ghost values: Seq<int> = raws(vector@);
    let mut sum: u128 = 0;
    let mut i: usize = 0;
    while i < vector.len()
        invariant
            i <= vector.len(),
            values == raws(vector@),
            forall|j: int| 0 <= j < vector.len() ==> 0 <= (#[trigger] vector[j])@ <= SCALE,
            sum == seq_sum(values.take(i as int)),
            sum <= i * SCALE,
        decreases vector.len() - i,
    {
        proof {
            assert(values.take(i + 1).drop_last() =~= values.take(i as int));
            assert(values.take(i + 1).last() == vector[i as int]@);
        }
        sum = sum + (vector[i].raw as u128);
        i = i + 1;
    }
    proof {
        assert(values.take(vector.len() as int) =~= values);
    }
    let mut shares: Vec<Fixed> = Vec::new();
    let mut k: usize = 0;
    while k < vector.len()
        invariant
            k <= vector.len(),
            values == raws(vector@),
            forall|j: int| 0 <= j < vector.len() ==> 0 <= (#[trigger] vector[j])@ <= SCALE,
            sum == seq_sum(values),
            sum > 0,
            shares.len() == k,
            forall|j: int|
                0 <= j < k ==> (#[trigger] shares[j])@ == values[j] * SCALE / seq_sum(values),
            forall|j: int| 0 <= j < k ==> 0 <= (#[trigger] shares[j])@ <= SCALE,
        decreases vector.len() - k,
    {
        let value: u128 = vector[k].raw as u128;
        proof {
            assert(values[k as int] == vector[k as int]@);
            assert forall|j: int| 0 <= j < values.len() implies 0 <= #[trigger] values[j] by {
                assert(values[j] == vector[j]@);
            }
            lemma_sum_bounds(values, k as int);
            lemma_share_step(value as int, sum as int);
        }
        let share: u128 = value * 1_000_000_000 / sum;
        shares.push(Fixed { raw: share as i64 });
        k = k + 1;
    }
    proof {
        assert(raws(shares@) =~= normalize_spec(values));
    }
    shares
}

/// The fertility of a cohort by age.
#[derive(Debug)]
pub struct Fertility {
    curve: Vec<Fixed>,
    min_age: usize,
    max_age: usize,
}

impl View for Fertility {
    type V = FertilityModel;

    closed spec fn view(&self) -> FertilityModel {
        FertilityModel {
            curve: raws(self.curve@),
            min_age: self.min_age as int,
            max_age: self.max_age as int,
        }
    }
}

impl Fertility {
    #[verifier::type_invariant]
    pub open spec fn valid(&self) -> bool {
        self@.wf()
    }

    /// The curve over the ages from `min_age` up to, and short of, `max_age`:
    /// a density of skew minus three sampled from minus two to three and
    /// divided by its sum.
    pub fn new(min_age: usize, max_age: usize) -> (fertility: Fertility)
        requires
            min_age < max_age,
        ensures
            fertility@ == fertility_new_spec(min_age as int, max_age as int),
            fertility@.wf(),
            SCALE - (max_age - min_age) < seq_sum(fertility@.curve) <= SCALE,
    {
        let count: usize = max_age - min_age;
        let samples: Vec<Fixed> = Curve::new(Fixed { raw: -3 * SCALE }).limits_range(
            Fixed { raw: -2 * SCALE },
            Fixed { raw: 3 * SCALE },
            count,
        );
        proof {
            let values: Seq<int> = raws(samples@);
            assert(values =~= samples_spec(count as int));
            lemma_first_sample_positive();
            assert(values[0] == samples[0]@);
            assert forall|j: int| 0 <= j < values.len() implies 0 <= #[trigger] values[j] by {
                assert(values[j] == samples[j]@);
            }
            lemma_sum_bounds(values, 0);
            lemma_normalized_sum(values);
        }
        let curve: Vec<Fixed> = normalize(samples);
        proof {
            assert forall|i: int| 0 <= i < raws(curve@).len() implies 0 <= #[trigger] raws(
                curve@,
            )[i] <= SCALE by {
                assert(raws(curve@)[i] == curve[i]@);
            }
        }
        Fertility { curve, min_age, max_age }
    }

    /// A curve with the given shares, if there is one share within zero to one
    /// for each age from `min_age` up to, and short of, `max_age`.
    pub fn with_curve(curve: Vec<Fixed>, min_age: usize, max_age: usize) -> (fertility: Option<
        Fertility,
    >)
        ensures
            fertility is Some <==> (FertilityModel {
                curve: raws(curve@),
                min_age: min_age as int,
                max_age: max_age as int,
            }).wf(),
            fertility matches Some(f) ==> f@ == (FertilityModel {
                curve: raws(curve@),
                min_age: min_age as int,
                max_age: max_age as int,
            }),
    {
        if min_age >= max_age || curve.len() != max_age - min_age {
            return None;
        }
        let mut i: usize = 0;
        while i < curve.len()
            invariant
                i <= curve.len(),
                forall|j: int| 0 <= j < i ==> 0 <= (#[trigger] raws(curve@)[j]) <= SCALE,
            decreases curve.len() - i,
        {
            if curve[i].raw < 0 || curve[i].raw > SCALE {
                proof {
                    assert(raws(curve@)[i as int] == curve[i as int]@);
                }
                return None;
            }
            proof {
                assert(raws(curve@)[i as int] == curve[i as int]@);
            }
            i = i + 1;
        }
        Some(Fertility { curve, min_age, max_age })
    }

    /// The births expected this year of one female of the given age, where a
    /// lifetime brings `total_fertility_rate` births: her age's share of that
    /// total, and nothing below `min_age` or above `max_age`.
    pub fn birth_rate(&self, age: usize, total_fertility_rate: Fixed) -> (rate: Fixed)
        ensures
            rate@ == self@.birth_rate(age as int, total_fertility_rate@),
            age < self@.min_age || age > self@.max_age ==> rate@ == 0,
            total_fertility_rate@ >= 0 ==> 0 <= rate@ <= total_fertility_rate@,
    {
        proof {
            use_type_invariant(self);
        }
        if age < self.min_age || age > self.max_age {
            Fixed { raw: 0 }
        } else if age - self.min_age < self.curve.len() {
            let share: i128 = self.curve[age - self.min_age].raw as i128;
            let wanted: i128 = total_fertility_rate.raw as i128;
            proof {
                assert(raws(self.curve@)[age - self.min_age] == self.curve[age - self.min_age]@);
                lemma_mul_range(share as int, wanted as int, 1_000_000_000, 0x8000_0000_0000_0000);
                assert(-0x8000_0000_0000_0000 <= trunc_div(share * wanted, SCALE as int)
                    <= 0x7fff_ffff_ffff_ffff && (wanted >= 0 ==> 0 <= trunc_div(
                    share * wanted,
                    SCALE as int,
                ) <= wanted)) by (nonlinear_arith)
                    requires
                        0 <= share <= 1_000_000_000,
                        -0x8000_0000_0000_0000 <= wanted <= 0x7fff_ffff_ffff_ffff,
                        SCALE == 1_000_000_000,
                ;
            }
            Fixed { raw: (share * wanted / 1_000_000_000) as i64 }
        } else {
            Fixed { raw: 0 }
        }
    }

    /// The youngest fertile age.
    pub fn min_age(&self) -> (age: usize)
        ensures
            age == self@.min_age,
    {
        self.min_age
    }

    /// The age at which fertility ends.
    pub fn max_age(&self) -> (age: usize)
        ensures
            age == self@.max_age,
    {
        self.max_age
    }

    /// The share of each age from `min_age` on.
    pub fn curve(&self) -> (curve: &Vec<Fixed>)
        ensures
            raws(curve@) == self@.curve,
    {
        &self.curve
    }
}

} // verus!

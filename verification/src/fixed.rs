//! Fixed-point reals: an integer count of billionths.

use vstd::prelude::*;

verus! {

/// The raw value that stands for one whole unit.
pub const SCALE: i64 = 1_000_000_000;

/// A real number with nine decimal places, held as `raw` billionths.
#[derive(Clone, Copy, Debug, PartialEq, Eq, Structural)]
pub struct Fixed {
    pub raw: i64,
}

impl View for Fixed {
    type V = int;

    open spec fn view(&self) -> int {
        self.raw as int
    }
}

/// Integer division that rounds toward zero, for a positive divisor.
pub open spec fn trunc_div(a: int, b: int) -> int {
    if a >= 0 {
        a / b
    } else {
        -((-a) / b)
    }
}

/// A product lies within the product of the bounds of its factors.
pub proof fn lemma_mul_range(a: int, b: int, bound_a: int, bound_b: int)
    by (nonlinear_arith)
    requires
        -bound_a <= a <= bound_a,
        -bound_b <= b <= bound_b,
    ensures
        -(bound_a * bound_b) <= a * b <= bound_a * bound_b,
{
}

/// The sum of a sequence.
pub open spec fn seq_sum(v: Seq<int>) -> int
    decreases v.len(),
{
    if v.len() == 0 {
        0
    } else {
        seq_sum(v.drop_last()) + v.last()
    }
}

/// In a sequence without negative elements no element exceeds the sum.
pub proof fn lemma_sum_bounds(v: Seq<int>, i: int)
    requires
        forall|j: int| 0 <= j < v.len() ==> 0 <= #[trigger] v[j],
        0 <= i < v.len(),
    ensures
        0 <= v[i] <= seq_sum(v),
        seq_sum(v.drop_last()) >= 0,
    decreases v.len(),
{
    let head: Seq<int> = v.drop_last();
    if head.len() == 0 {
        assert(seq_sum(head) == 0);
    } else {
        lemma_sum_bounds(head, 0);
        if i < head.len() {
            lemma_sum_bounds(head, i);
        }
    }
}

/// The sum of the first elements of a sequence without negative elements
/// does not exceed the sum of all.
pub proof fn lemma_prefix_sum(v: Seq<int>, n: int)
    requires
        forall|j: int| 0 <= j < v.len() ==> 0 <= #[trigger] v[j],
        0 <= n <= v.len(),
    ensures
        0 <= seq_sum(v.take(n)) <= seq_sum(v),
    decreases v.len() - n,
{
    if n == v.len() {
        assert(v.take(n) =~= v);
        if n > 0 {
            lemma_sum_bounds(v, 0);
        } else {
            assert(seq_sum(v) == 0);
        }
    } else {
        lemma_prefix_sum(v, n + 1);
        assert(v.take(n + 1).drop_last() =~= v.take(n));
        assert(v.take(n + 1).last() == v[n]);
        if n > 0 {
            lemma_sum_bounds(v.take(n), 0);
        } else {
            assert(seq_sum(v.take(0)) == 0);
        }
    }
}

/// An element put in front adds itself to the sum.
pub proof fn lemma_sum_prepend(first: int, v: Seq<int>)
    ensures
        seq_sum(seq![first] + v) == first + seq_sum(v),
    decreases v.len(),
{
    let all: Seq<int> = seq![first] + v;
    if v.len() == 0 {
        assert(all.drop_last() =~= Seq::<int>::empty());
        assert(seq_sum(Seq::<int>::empty()) == 0);
        assert(seq_sum(v) == 0);
        assert(all.last() == first);
    } else {
        lemma_sum_prepend(first, v.drop_last());
        assert(all.drop_last() =~= seq![first] + v.drop_last());
        assert(all.last() == v.last());
    }
}

} // verus!

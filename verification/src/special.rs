//! Exponential and logarithm on eighteen-digit fixed point.
//!
//! Arguments and results are integers that count units of `1 / UNIT`.
//! Each function is a truncated power series after a range reduction by
//! powers of two; the spec functions fix every rounding step, so a result
//! is a function of its argument alone.

use vstd::prelude::*;
use vstd::arithmetic::power2::pow2;
use vstd::arithmetic::power2::lemma_pow2_pos;
use vstd::arithmetic::power2::lemma_pow2_unfold;
use vstd::arithmetic::power2::lemma_pow2_strictly_increases;
use vstd::arithmetic::power2::lemma2_to64;

verus! {

/// One whole unit of the eighteen-digit scale.
pub const UNIT: u128 = 1_000_000_000_000_000_000;

/// The natural logarithm of two.
pub const LN2: u128 = 693_147_180_559_945_309;

/// How many terms of the exponential series are summed.
pub const EXP_TERMS: u32 = 22;

/// The `i`-th term `r^i / i!` of the exponential series.
pub open spec fn exp_term(r: int, i: nat) -> int
    decreases i,
{
    if i == 0 {
        UNIT as int
    } else {
        exp_term(r, (i - 1) as nat) * r / (UNIT * i)
    }
}

/// The sum of the first `n` terms of the exponential series.
pub open spec fn exp_sum(r: int, n: nat) -> int
    decreases n,
{
    if n == 0 {
        0
    } else {
        exp_sum(r, (n - 1) as nat) + exp_term(r, (n - 1) as nat)
    }
}

/// `e^r` for a reduced argument `0 <= r < LN2`.
pub open spec fn exp_reduced(r: int) -> int {
    exp_sum(r, EXP_TERMS as nat)
}

/// `e^(-t)` for `t >= 0`.
pub open spec fn exp_neg_spec(t: int) -> int {
    (UNIT * UNIT / exp_reduced(t % (LN2 as int))) / (pow2((t / (LN2 as int)) as nat) as int)
}

/// `e^t` for `t >= 0`.
pub open spec fn exp_pos_spec(t: int) -> int {
    exp_reduced(t % (LN2 as int)) * pow2((t / (LN2 as int)) as nat)
}

proof fn lemma_term_step(term: int, r: int, i: int)
    by (nonlinear_arith)
    requires
        0 <= term <= UNIT,
        0 <= r <= UNIT,
        1 <= i,
    ensures
        0 <= term * r <= UNIT * UNIT,
        0 <= term * r / (UNIT * i) <= term,
{
}

/// Every term of the series lies between zero and one, and the partial
/// sums between one and the number of terms.
pub proof fn lemma_exp_sum_bounds(r: int, n: nat)
    requires
        0 <= r <= UNIT,
    ensures
        0 <= exp_term(r, n) <= UNIT,
        0 <= exp_sum(r, n) <= n * UNIT,
        n >= 1 ==> exp_sum(r, n) >= UNIT,
    decreases n,
{
    if n > 0 {
        lemma_exp_sum_bounds(r, (n - 1) as nat);
        lemma_term_step(exp_term(r, (n - 1) as nat), r, n as int);
    }
}

proof fn lemma_term_ratio(term: int, r: int, i: int)
    by (nonlinear_arith)
    requires
        0 <= term,
        0 <= r,
        1 <= i,
    ensures
        UNIT * (term * r / (UNIT * i)) <= r * term,
{
    let q: int = term * r / (UNIT * i);
    assert(q * (UNIT * i) <= term * r);
    assert(0 <= q);
    assert(UNIT * q <= q * (UNIT * i));
}

proof fn lemma_exp_sum_geometric(r: int, n: nat)
    requires
        0 <= r <= UNIT,
    ensures
        (UNIT - r) * exp_sum(r, n) + UNIT * exp_term(r, n) <= UNIT * UNIT,
    decreases n,
{
    if n == 0 {
        assert((UNIT - r) * 0 == 0) by (nonlinear_arith);
    } else {
        let m: nat = (n - 1) as nat;
        lemma_exp_sum_geometric(r, m);
        lemma_exp_sum_bounds(r, m);
        lemma_term_ratio(exp_term(r, m), r, n as int);
        let sum: int = exp_sum(r, m);
        let term: int = exp_term(r, m);
        let next: int = exp_term(r, n);
        assert((UNIT - r) * (sum + term) + UNIT * next <= (UNIT - r) * sum + UNIT * term)
            by (nonlinear_arith)
            requires
                UNIT * next <= r * term,
        ;
    }
}

/// The series lies between its first two terms and the geometric series:
/// `1 + r <= e^r <= 1 / (1 - r)`.
pub proof fn lemma_exp_reduced_brackets(r: int)
    requires
        0 <= r <= UNIT,
    ensures
        UNIT + r <= exp_reduced(r),
        (UNIT - r) * exp_reduced(r) <= UNIT * UNIT,
{
    lemma_exp_sum_geometric(r, EXP_TERMS as nat);
    lemma_exp_sum_bounds(r, EXP_TERMS as nat);
    lemma_exp_sum_from_two(r, EXP_TERMS as nat);
    let last: int = exp_term(r, EXP_TERMS as nat);
    assert(UNIT * last >= 0) by (nonlinear_arith)
        requires
            last >= 0,
    ;
}

proof fn lemma_exp_sum_from_two(r: int, n: nat)
    requires
        0 <= r <= UNIT,
        n >= 2,
    ensures
        exp_sum(r, n) >= UNIT + r,
    decreases n,
{
    if n == 2 {
        assert(exp_sum(r, 0) == 0);
        assert(exp_sum(r, 1) == exp_sum(r, 0) + exp_term(r, 0));
        assert(exp_term(r, 0) == UNIT);
        assert(exp_term(r, 1) == exp_term(r, 0) * r / (UNIT * 1));
        assert(UNIT * r / (UNIT * 1) == r) by (nonlinear_arith)
            requires
                UNIT == 1_000_000_000_000_000_000,
        ;
    } else {
        lemma_exp_sum_from_two(r, (n - 1) as nat);
        lemma_exp_sum_bounds(r, (n - 1) as nat);
    }
}

fn exp_reduced_exec(r: u128) -> (s: u128)
    requires
        r <= UNIT,
    ensures
        s == exp_reduced(r as int),
        UNIT <= s <= EXP_TERMS * UNIT,
{
    let mut term: u128 = UNIT;
    let mut sum: u128 = 0;
    let mut i: u32 = 0;
    while i < EXP_TERMS
        invariant
            i <= EXP_TERMS,
            r <= UNIT,
            term == exp_term(r as int, i as nat),
            sum == exp_sum(r as int, i as nat),
            term <= UNIT,
            sum <= i * UNIT,
        decreases EXP_TERMS - i,
    {
        sum = sum + term;
        i = i + 1;
        proof {
            lemma_term_step(term as int, r as int, i as int);
        }
        term = term * r / (UNIT * (i as u128));
    }
    proof {
        lemma_exp_sum_bounds(r as int, EXP_TERMS as nat);
    }
    sum
}

/// Two to the power `k`, for an exponent below 128.
fn pow2_exec(k: u32) -> (p: u128)
    requires
        k < 128,
    ensures
        p == pow2(k as nat),
        p >= 1,
{
    let mut p: u128 = 1;
    let mut i: u32 = 0;
    proof {
        lemma2_to64();
    }
    while i < k
        invariant
            i <= k,
            k < 128,
            p == pow2(i as nat),
            p >= 1,
        decreases k - i,
    {
        proof {
            lemma_pow2_unfold((i + 1) as nat);
            lemma_pow2_strictly_increases((i + 1) as nat, 128);
            lemma_pow2_128();
        }
        p = p * 2;
        i = i + 1;
    }
    p
}

proof fn lemma_pow2_128()
    ensures
        pow2(128) == 0x1_0000_0000_0000_0000_0000_0000_0000_0000,
{
    lemma2_to64();
    vstd::arithmetic::power2::lemma_pow2_adds(64, 64);
}

proof fn lemma_unit_quotient(s: int)
    by (nonlinear_arith)
    requires
        UNIT <= s,
    ensures
        0 <= UNIT * UNIT / s <= UNIT,
{
}

proof fn lemma_quotient_positive(s: int, n: int)
    by (nonlinear_arith)
    requires
        0 < s <= n * UNIT,
        0 < n,
    ensures
        UNIT * UNIT / s >= (UNIT as int) / n,
{
    let u: int = UNIT as int;
    assert(u * u >= (u / n) * s) by {
        assert((u / n) * n <= u);
        assert((u / n) * s <= (u / n) * (n * u));
        assert((u / n) * (n * u) == ((u / n) * n) * u);
    }
}

proof fn lemma_small_quotient(v: int, p: int)
    by (nonlinear_arith)
    requires
        0 <= v < p,
    ensures
        v / p == 0,
{
}

/// Past sixty-four halvings nothing of `e^(-t)` is left.
pub proof fn lemma_exp_neg_vanishes(t: int)
    requires
        t >= 64 * LN2,
    ensures
        exp_neg_spec(t) == 0,
{
    let k: int = t / (LN2 as int);
    let r: int = t % (LN2 as int);
    assert(k >= 64 && 0 <= r < LN2) by (nonlinear_arith)
        requires
            t >= 64 * LN2,
            k == t / (LN2 as int),
            r == t % (LN2 as int),
            LN2 > 0,
    ;
    lemma_exp_sum_bounds(r, EXP_TERMS as nat);
    lemma_unit_quotient(exp_reduced(r));
    lemma2_to64();
    if k > 64 {
        lemma_pow2_strictly_increases(64, k as nat);
    }
    lemma_small_quotient(UNIT * UNIT / exp_reduced(r), pow2(k as nat) as int);
}

/// `e^(-t)` is at least the inverse of the number of terms, halved once for
/// each whole multiple of `LN2` in `t`.
pub proof fn lemma_exp_neg_lower(t: int)
    requires
        t >= 0,
    ensures
        exp_neg_spec(t) >= ((UNIT as int) / (EXP_TERMS as int)) / (pow2((t / (LN2 as int)) as nat) as int),
{
    let k: int = t / (LN2 as int);
    let r: int = t % (LN2 as int);
    assert(k >= 0 && 0 <= r < LN2) by (nonlinear_arith)
        requires
            t >= 0,
            k == t / (LN2 as int),
            r == t % (LN2 as int),
            LN2 > 0,
    ;
    lemma_exp_sum_bounds(r, EXP_TERMS as nat);
    lemma_quotient_positive(exp_reduced(r), EXP_TERMS as int);
    lemma_pow2_pos(k as nat);
    vstd::arithmetic::div_mod::lemma_div_is_ordered(
        (UNIT as int) / (EXP_TERMS as int),
        UNIT * UNIT / exp_reduced(r),
        pow2(k as nat) as int,
    );
}

/// `e^(-t)` never exceeds one and never falls below zero.
pub proof fn lemma_exp_neg_bounds(t: int)
    requires
        t >= 0,
    ensures
        0 <= exp_neg_spec(t) <= UNIT,
{
    let k: int = t / (LN2 as int);
    let r: int = t % (LN2 as int);
    assert(k >= 0 && 0 <= r < LN2) by (nonlinear_arith)
        requires
            t >= 0,
            k == t / (LN2 as int),
            r == t % (LN2 as int),
            LN2 > 0,
    ;
    lemma_exp_sum_bounds(r, EXP_TERMS as nat);
    lemma_unit_quotient(exp_reduced(r));
    lemma_pow2_pos(k as nat);
    let v: int = UNIT * UNIT / exp_reduced(r);
    let p: int = pow2(k as nat) as int;
    assert(0 <= v / p <= v) by (nonlinear_arith)
        requires
            0 <= v,
            1 <= p,
    ;
}

/// `e^(-t)` for any `t >= 0`.
pub fn exp_neg(t: u128) -> (v: u128)
    ensures
        v == exp_neg_spec(t as int),
        v <= UNIT,
{
    proof {
        lemma_exp_neg_bounds(t as int);
    }
    if t >= 64 * LN2 {
        proof {
            lemma_exp_neg_vanishes(t as int);
        }
        return 0;
    }
    let k: u128 = t / LN2;
    let r: u128 = t % LN2;
    assert(k < 64) by (nonlinear_arith)
        requires
            t < 64 * LN2,
            k == t / LN2,
            LN2 > 0,
    ;
    let s: u128 = exp_reduced_exec(r);
    let p: u128 = pow2_exec(k as u32);
    (UNIT * UNIT / s) / p
}

/// `e^t` is at least two to the number of whole multiples of `LN2` in `t`.
pub proof fn lemma_exp_pos_lower(t: int)
    requires
        t >= 0,
    ensures
        exp_pos_spec(t) >= UNIT * pow2((t / (LN2 as int)) as nat),
{
    let k: int = t / (LN2 as int);
    let r: int = t % (LN2 as int);
    assert(k >= 0 && 0 <= r < LN2) by (nonlinear_arith)
        requires
            t >= 0,
            k == t / (LN2 as int),
            r == t % (LN2 as int),
            LN2 > 0,
    ;
    lemma_exp_sum_bounds(r, EXP_TERMS as nat);
    let s: int = exp_reduced(r);
    let p: int = pow2(k as nat) as int;
    assert(s * p >= UNIT * p) by (nonlinear_arith)
        requires
            s >= UNIT,
            p >= 0,
    ;
}

/// `e^t` for `0 <= t < 64 * LN2`, where the result still fits.
pub fn exp_pos(t: u128) -> (v: u128)
    requires
        t < 64 * LN2,
    ensures
        v == exp_pos_spec(t as int),
        UNIT <= v <= EXP_TERMS * UNIT * 0x8000_0000_0000_0000,
{
    let k: u128 = t / LN2;
    let r: u128 = t % LN2;
    assert(k < 64) by (nonlinear_arith)
        requires
            t < 64 * LN2,
            k == t / LN2,
            LN2 > 0,
    ;
    let s: u128 = exp_reduced_exec(r);
    let p: u128 = pow2_exec(k as u32);
    proof {
        lemma2_to64();
        vstd::arithmetic::power2::lemma2_to64_rest();
        if k < 63 {
            lemma_pow2_strictly_increases(k as nat, 63);
        }
        assert(UNIT * 1 <= s * p <= (EXP_TERMS * UNIT) * 0x8000_0000_0000_0000) by (nonlinear_arith)
            requires
                UNIT <= s <= EXP_TERMS * UNIT,
                1 <= p <= 0x8000_0000_0000_0000,
        ;
    }
    s * p
}

/// How many terms of the logarithm series are summed.
pub const LN_TERMS: u32 = 20;

/// The odd power `z^(2j+1)`, given `z` and its square `z2`.
pub open spec fn odd_power(z: int, z2: int, j: nat) -> int
    decreases j,
{
    if j == 0 {
        z
    } else {
        odd_power(z, z2, (j - 1) as nat) * z2 / (UNIT as int)
    }
}

/// The first `n` terms of `z + z^3/3 + z^5/5 + ...`.
pub open spec fn atanh_sum(z: int, z2: int, n: nat) -> int
    decreases n,
{
    if n == 0 {
        0
    } else {
        atanh_sum(z, z2, (n - 1) as nat) + odd_power(z, z2, (n - 1) as nat) / (2 * n - 1)
    }
}

/// The ratio `(m - 1) / (m + 1)` through which the logarithm is summed.
pub open spec fn ln_ratio(m: int) -> int {
    (m - UNIT) * UNIT / (m + UNIT)
}

/// `ln m` for a reduced argument `UNIT <= m < 2 * UNIT`.
pub open spec fn ln_reduced(m: int) -> int {
    2 * atanh_sum(ln_ratio(m), ln_ratio(m) * ln_ratio(m) / (UNIT as int), LN_TERMS as nat)
}

/// `ln x` for `x >= UNIT`: halve down to the reduced range, one `LN2` a time.
pub open spec fn ln_upper(x: int) -> int
    decreases x,
{
    if x >= 2 * UNIT {
        ln_upper(x / 2) + LN2
    } else {
        ln_reduced(x)
    }
}

/// `ln x` for `x > 0`; below one it is minus the logarithm of the inverse.
pub open spec fn ln_spec(x: int) -> int {
    if x >= UNIT {
        ln_upper(x)
    } else {
        -ln_upper(UNIT * UNIT / x)
    }
}

proof fn lemma_ratio_bounds(m: int)
    by (nonlinear_arith)
    requires
        UNIT <= m < 2 * UNIT,
    ensures
        0 <= 3 * ln_ratio(m) <= UNIT,
        0 <= 9 * (ln_ratio(m) * ln_ratio(m) / (UNIT as int)) <= UNIT,
        m == UNIT ==> ln_ratio(m) == 0,
{
    let u: int = UNIT as int;
    let n: int = (m - u) * u;
    let d: int = m + u;
    let z: int = n / d;
    assert(0 <= n && 0 < d);
    assert(0 <= z && z * d <= n);
    assert(3 * n <= u * d);
    assert(3 * z <= u) by {
        assert(3 * z * d <= u * d);
    }
    let z2: int = z * z / u;
    assert(0 <= z2 && z2 * u <= z * z);
    assert(9 * (z * z) <= u * u);
    assert(9 * z2 <= u) by {
        assert(9 * z2 * u <= u * u);
    }
}

proof fn lemma_power_step(pw: int, z2: int)
    by (nonlinear_arith)
    requires
        0 <= pw <= UNIT,
        0 <= 9 * z2 <= UNIT,
    ensures
        0 <= pw * z2 <= UNIT * UNIT,
        0 <= 9 * (pw * z2 / (UNIT as int)) <= pw,
{
    let u: int = UNIT as int;
    let q: int = pw * z2 / u;
    assert(0 <= q && q * u <= pw * z2);
    assert(9 * (pw * z2) <= pw * u);
    assert(9 * q <= pw) by {
        assert(9 * q * u <= pw * u);
    }
}

proof fn lemma_term_quotient(pw: int, d: int)
    by (nonlinear_arith)
    requires
        0 <= pw,
        1 <= d,
    ensures
        0 <= pw / d <= pw,
{
}

/// The series lies between its first term and nine eighths of it.
pub proof fn lemma_atanh_bounds(z: int, z2: int, n: nat)
    requires
        0 <= z <= UNIT,
        0 <= 9 * z2 <= UNIT,
    ensures
        0 <= odd_power(z, z2, n) <= z,
        0 <= atanh_sum(z, z2, n),
        n >= 1 ==> z <= atanh_sum(z, z2, n),
        8 * atanh_sum(z, z2, n) + 9 * odd_power(z, z2, n) <= 9 * z,
    decreases n,
{
    if n > 0 {
        let m: nat = (n - 1) as nat;
        lemma_atanh_bounds(z, z2, m);
        lemma_power_step(odd_power(z, z2, m), z2);
        lemma_term_quotient(odd_power(z, z2, m), 2 * n - 1);
        if n == 1 {
            assert(atanh_sum(z, z2, 0) == 0);
            assert(odd_power(z, z2, 0) == z);
            assert(z / 1 == z);
            assert(atanh_sum(z, z2, 1) == atanh_sum(z, z2, 0) + odd_power(z, z2, 0) / (2 * 1 - 1));
        }
    }
}

/// A reduced logarithm lies between twice the ratio `(m - 1) / (m + 1)`
/// and nine quarters of it, and so between zero and three quarters.
pub proof fn lemma_ln_reduced_bounds(m: int)
    requires
        UNIT <= m < 2 * UNIT,
    ensures
        0 <= 4 * ln_reduced(m) <= 3 * UNIT,
        2 * ln_ratio(m) <= ln_reduced(m),
        4 * ln_reduced(m) <= 9 * ln_ratio(m),
        m == UNIT ==> ln_reduced(m) == 0,
{
    lemma_ratio_bounds(m);
    let z: int = ln_ratio(m);
    let z2: int = z * z / (UNIT as int);
    lemma_atanh_bounds(z, z2, LN_TERMS as nat);
}

/// After at most `n` halvings the logarithm is at most `n * LN2` and three quarters.
pub proof fn lemma_ln_upper_bounds(x: int, n: nat)
    requires
        UNIT <= x < 2 * UNIT * pow2(n),
    ensures
        0 <= ln_upper(x) <= n * LN2 + 3 * (UNIT as int) / 4,
        x == UNIT ==> ln_upper(x) == 0,
    decreases n,
{
    if x >= 2 * UNIT {
        if n == 0 {
            lemma2_to64();
        } else {
            lemma_pow2_unfold(n);
            let half: int = pow2((n - 1) as nat) as int;
            assert(x / 2 < 2 * UNIT * half) by (nonlinear_arith)
                requires
                    x < 2 * UNIT * (2 * half),
            ;
            lemma_ln_upper_bounds(x / 2, (n - 1) as nat);
        }
    } else {
        lemma_ln_reduced_bounds(x);
    }
}

fn ln_reduced_exec(m: u128) -> (v: u128)
    requires
        UNIT <= m < 2 * UNIT,
    ensures
        v == ln_reduced(m as int),
        4 * v <= 3 * UNIT,
        m == UNIT ==> v == 0,
{
    proof {
        lemma_ratio_bounds(m as int);
        lemma_ln_reduced_bounds(m as int);
    }
    let z: u128 = (m - UNIT) * UNIT / (m + UNIT);
    let z2: u128 = z * z / UNIT;
    let mut pw: u128 = z;
    let mut sum: u128 = 0;
    let mut j: u32 = 0;
    while j < LN_TERMS
        invariant
            j <= LN_TERMS,
            z <= UNIT,
            9 * z2 <= UNIT,
            pw == odd_power(z as int, z2 as int, j as nat),
            sum == atanh_sum(z as int, z2 as int, j as nat),
            pw <= z,
            8 * sum + 9 * pw <= 9 * z,
        decreases LN_TERMS - j,
    {
        proof {
            lemma_atanh_bounds(z as int, z2 as int, (j + 1) as nat);
            lemma_power_step(pw as int, z2 as int);
        }
        sum = sum + pw / ((2 * j + 1) as u128);
        pw = pw * z2 / UNIT;
        j = j + 1;
    }
    2 * sum
}

fn ln_upper_exec(x: u128) -> (v: u128)
    requires
        UNIT <= x,
    ensures
        v == ln_upper(x as int),
        v <= 128 * LN2 + UNIT,
        x == UNIT ==> v == 0,
{
    let mut m: u128 = x;
    let mut k: u128 = 0;
    proof {
        lemma_pow2_128();
    }
    while m >= 2 * UNIT
        invariant
            UNIT <= m,
            k <= 128,
            m < pow2((128 - k) as nat),
            ln_upper(x as int) == ln_upper(m as int) + k * LN2,
            x == UNIT ==> m == UNIT && k == 0,
        decreases m,
    {
        proof {
            lemma2_to64();
            if k >= 127 {
                if k == 128 {
                } else {
                }
                assert(pow2((128 - k) as nat) <= 2);
            }
            lemma_pow2_unfold((128 - k) as nat);
        }
        m = m / 2;
        k = k + 1;
    }
    let tail: u128 = ln_reduced_exec(m);
    assert(k * LN2 <= 128 * LN2) by (nonlinear_arith)
        requires
            k <= 128,
    ;
    k * LN2 + tail
}

/// The natural logarithm of `x / UNIT`, in units of `1 / UNIT`.
pub fn ln(x: u128) -> (v: i128)
    requires
        x > 0,
    ensures
        v == ln_spec(x as int),
        x <= UNIT ==> v <= 0,
        x >= UNIT ==> v >= 0,
        -(128 * LN2 + UNIT) <= v <= 128 * LN2 + UNIT,
{
    if x >= UNIT {
        let up: u128 = ln_upper_exec(x);
        up as i128
    } else {
        assert(UNIT * UNIT / (x as int) >= UNIT) by (nonlinear_arith)
            requires
                0 < x < UNIT,
        ;
        let up: u128 = ln_upper_exec(UNIT * UNIT / x);
        -(up as i128)
    }
}

/// The square of `v`, in units of `1 / UNIT`.
pub open spec fn square_spec(v: int) -> int {
    v * v / (UNIT as int)
}

/// The square of a value below two to the eightieth, with a single rounding.
pub fn square(v: u128) -> (sq: u128)
    requires
        v < 0x1_0000_0000_0000_0000_0000,
    ensures
        sq == square_spec(v as int),
{
    let hi: u128 = v / 1_000_000_000;
    let lo: u128 = v % 1_000_000_000;
    assert(hi < 0x8_0000_0000_0000);
    assert(hi * hi < 0x8_0000_0000_0000 * 0x8_0000_0000_0000) by (nonlinear_arith)
        requires
            hi < 0x8_0000_0000_0000,
    ;
    assert(hi * lo < 0x8_0000_0000_0000 * 1_000_000_000) by (nonlinear_arith)
        requires
            hi < 0x8_0000_0000_0000,
            lo < 1_000_000_000,
    ;
    assert(lo * lo < 1_000_000_000 * 1_000_000_000) by (nonlinear_arith)
        requires
            lo < 1_000_000_000,
    ;
    let cross: u128 = 2 * (hi * lo) * 1_000_000_000 + lo * lo;
    proof {
        let a: int = hi as int * hi as int;
        assert(v as int * v as int == a * UNIT + cross) by (nonlinear_arith)
            requires
                v == hi * 1_000_000_000 + lo,
                a == hi * hi,
                cross == 2 * (hi * lo) * 1_000_000_000 + lo * lo,
                UNIT == 1_000_000_000_000_000_000,
        ;
        vstd::arithmetic::div_mod::lemma_div_multiples_vanish_fancy(a, cross as int % (UNIT as int), UNIT as int);
        assert((a * UNIT + cross) / (UNIT as int) == a + cross as int / (UNIT as int)) by (nonlinear_arith)
            requires
                0 <= cross,
                0 <= a,
                UNIT == 1_000_000_000_000_000_000,
        ;
    }
    hi * hi + cross / UNIT
}

/// The natural logarithm of ten.
pub const LN10: u128 = 2_302_585_092_994_045_684;

/// `base` raised to `exponent / scale`, as `exp(exponent * ln(base) / scale)`.
/// Zero raised to zero is one, and zero raised to anything else is zero.
pub open spec fn power_spec(base: int, exponent: int, scale: int) -> int {
    if base == 0 {
        if exponent == 0 {
            UNIT as int
        } else {
            0
        }
    } else if ln_spec(base) >= 0 {
        exp_pos_spec(exponent * ln_spec(base) / scale)
    } else {
        exp_neg_spec(exponent * (-ln_spec(base)) / scale)
    }
}

/// Whether the power is a growth by sixty-four doublings or more.
pub open spec fn power_overflows(base: int, exponent: int, scale: int) -> bool {
    base != 0 && ln_spec(base) >= 0 && exponent * ln_spec(base) / scale >= 64 * LN2
}

/// The logarithm of a value up to one is not positive; from one up, not negative.
pub proof fn lemma_ln_sign(x: int)
    requires
        0 < x,
    ensures
        x >= UNIT ==> ln_spec(x) >= 0,
        x <= UNIT ==> ln_spec(x) <= 0,
{
    if x >= UNIT {
        lemma_halvings_cover(x);
        lemma_ln_upper_bounds(x, ln_halvings(x));
    } else {
        let inverse: int = UNIT * UNIT / x;
        assert(UNIT <= inverse <= UNIT * UNIT) by (nonlinear_arith)
            requires
                0 < x < UNIT,
                inverse == UNIT * UNIT / x,
        ;
        lemma_halvings_cover(inverse);
        lemma_ln_upper_bounds(inverse, ln_halvings(inverse));
    }
}

/// A power of a base that is not negative is not negative.
pub proof fn lemma_power_nonnegative(base: int, exponent: int, scale: int)
    requires
        0 <= base,
        0 <= exponent,
        0 < scale,
    ensures
        0 <= power_spec(base, exponent, scale),
{
    if base != 0 {
        let l: int = ln_spec(base);
        if l >= 0 {
            let t: int = exponent * l / scale;
            assert(t >= 0) by (nonlinear_arith)
                requires
                    t == exponent * l / scale,
                    exponent >= 0,
                    l >= 0,
                    scale > 0,
            ;
            lemma_exp_pos_lower(t);
            let k: int = t / (LN2 as int);
            assert(k >= 0) by (nonlinear_arith)
                requires
                    t >= 0,
                    k == t / (LN2 as int),
                    LN2 > 0,
            ;
            lemma_pow2_pos(k as nat);
            assert(UNIT * pow2(k as nat) >= 0) by (nonlinear_arith)
                requires
                    pow2(k as nat) > 0,
            ;
        } else {
            let t: int = exponent * (-l) / scale;
            assert(t >= 0) by (nonlinear_arith)
                requires
                    t == exponent * (-l) / scale,
                    exponent >= 0,
                    l < 0,
                    scale > 0,
            ;
            lemma_exp_neg_bounds(t);
        }
    }
}

/// How many halvings bring `x` below two.
pub open spec fn ln_halvings(x: int) -> nat
    decreases x,
{
    if x >= 2 * UNIT {
        1 + ln_halvings(x / 2)
    } else {
        0
    }
}

proof fn lemma_halvings_cover(x: int)
    requires
        UNIT <= x,
    ensures
        x < 2 * UNIT * pow2(ln_halvings(x)),
    decreases x,
{
    if x >= 2 * UNIT {
        lemma_halvings_cover(x / 2);
        let n: nat = ln_halvings(x / 2);
        assert(ln_halvings(x) == n + 1);
        lemma_pow2_unfold(n + 1);
        let half: int = pow2(n) as int;
        assert(x < 2 * UNIT * pow2(n + 1)) by (nonlinear_arith)
            requires
                x / 2 < 2 * UNIT * half,
                pow2(n + 1) == 2 * half,
        ;
    } else {
        lemma2_to64();
        assert(ln_halvings(x) == 0);
        assert(2 * UNIT * pow2(0) == 2 * UNIT) by (nonlinear_arith)
            requires
                pow2(0) == 1,
        ;
    }
}

/// A power that overflows is at least two to the sixty-fourth.
pub proof fn lemma_power_overflow_lower(base: int, exponent: int, scale: int)
    requires
        power_overflows(base, exponent, scale),
    ensures
        power_spec(base, exponent, scale) >= UNIT * 0x1_0000_0000_0000_0000,
{
    let t: int = exponent * ln_spec(base) / scale;
    lemma_exp_pos_lower(t);
    let k: int = t / (LN2 as int);
    assert(k >= 64) by (nonlinear_arith)
        requires
            t >= 64 * LN2,
            k == t / (LN2 as int),
            LN2 > 0,
    ;
    lemma2_to64();
    if k > 64 {
        lemma_pow2_strictly_increases(64, k as nat);
    }
    let p: int = pow2(k as nat) as int;
    assert(UNIT * p >= UNIT * 0x1_0000_0000_0000_0000) by (nonlinear_arith)
        requires
            p >= 0x1_0000_0000_0000_0000,
    ;
}

/// `base` raised to `exponent / scale`, or `None` where the power overflows.
pub fn power(base: u128, exponent: u128, scale: u128) -> (r: Option<u128>)
    requires
        0 < scale <= UNIT,
    ensures
        r is None <==> power_overflows(base as int, exponent as int, scale as int),
        r matches Some(v) ==> v == power_spec(base as int, exponent as int, scale as int) && v
            <= EXP_TERMS * UNIT * 0x8000_0000_0000_0000,
        r matches Some(v) ==> (base == 0 || ln_spec(base as int) <= 0) ==> v <= EXP_TERMS * UNIT,
{
    assert(EXP_TERMS * UNIT == 22_000_000_000_000_000_000) by (nonlinear_arith)
        requires
            EXP_TERMS == 22,
            UNIT == 1_000_000_000_000_000_000,
    ;
    if base == 0 {
        return Some(
            if exponent == 0 {
                UNIT
            } else {
                0
            },
        );
    }
    let l: i128 = ln(base);
    if l >= 0 {
        let log: u128 = l as u128;
        match exponent.checked_mul(log) {
            None => {
                proof {
                    let product: int = exponent * log;
                    assert(product / (scale as int) >= 64 * LN2) by (nonlinear_arith)
                        requires
                            product > u128::MAX,
                            0 < scale <= UNIT,
                            UNIT == 1_000_000_000_000_000_000,
                            LN2 == 693_147_180_559_945_309,
                    ;
                }
                None
            },
            Some(product) => {
                let t: u128 = product / scale;
                if t >= 64 * LN2 {
                    None
                } else {
                    let v: u128 = exp_pos(t);
                    proof {
                        if l == 0 {
                            assert(product == 0) by (nonlinear_arith)
                                requires
                                    product == exponent * log,
                                    log == 0,
                            ;
                            assert(t == 0) by (nonlinear_arith)
                                requires
                                    t == product / scale,
                                    product == 0,
                                    scale > 0,
                            ;
                            lemma_exp_zero(EXP_TERMS as nat);
                            lemma2_to64();
                            assert(v == UNIT) by (nonlinear_arith)
                                requires
                                    v == exp_reduced(0) * pow2(0),
                                    exp_reduced(0) == UNIT,
                                    pow2(0) == 1,
                            ;
                        }
                    }
                    Some(v)
                }
            },
        }
    } else {
        let log: u128 = (-l) as u128;
        match exponent.checked_mul(log) {
            None => {
                proof {
                    let product: int = exponent * log;
                    assert(product / (scale as int) >= 64 * LN2) by (nonlinear_arith)
                        requires
                            product > u128::MAX,
                            0 < scale <= UNIT,
                            UNIT == 1_000_000_000_000_000_000,
                            LN2 == 693_147_180_559_945_309,
                    ;
                    lemma_exp_neg_vanishes(product / (scale as int));
                }
                Some(0)
            },
            Some(product) => Some(exp_neg(product / scale)),
        }
    }
}

/// With a zero argument the series is its first term alone.
proof fn lemma_exp_zero(n: nat)
    ensures
        n >= 1 ==> exp_term(0, n) == 0,
        n >= 1 ==> exp_sum(0, n) == UNIT,
    decreases n,
{
    if n >= 1 {
        lemma_exp_zero((n - 1) as nat);
        assert(exp_sum(0, 0) == 0);
        assert(exp_term(0, 0) == UNIT);
        let prev: int = exp_term(0, (n - 1) as nat);
        assert(prev * 0 / (UNIT * n) == 0) by (nonlinear_arith)
            requires
                n >= 1,
        ;
    }
}

} // verus!

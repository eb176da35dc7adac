//! The truncated skew-normal density: a bell curve weighted by a piecewise
//! cubic in `skew * x`.

use vstd::prelude::*;
use crate::fixed::Fixed;
use crate::fixed::SCALE;
use crate::fixed::trunc_div;
use crate::fixed::lemma_mul_range;
use crate::special::UNIT;
use crate::special::exp_neg;
use crate::special::exp_neg_spec;
use crate::special::lemma_exp_neg_bounds;

verus! {

/// The square root of two pi, in units of `1 / UNIT`.
pub const SQRT_2PI: u128 = 2_506_628_274_631_000_502;

/// The square root of two over pi, in units of `1 / UNIT`.
pub const SQRT_2_OVER_PI: u128 = 797_884_560_802_865_355;

/// A skew-normal curve; its one parameter is the skew, zero for the symmetric bell.
pub struct Curve(Fixed);

impl View for Curve {
    type V = int;

    closed spec fn view(&self) -> int {
        self.0@
    }
}

/// Whether `x` lies on the near side of `num / skew`: above it for a negative
/// skew, below it for a positive one. Cleared of the division, both read
/// `x * skew < num`; with no skew there is no boundary and the answer is no.
pub open spec fn compare_spec(skew: int, x: int, num: int) -> bool {
    skew != 0 && x * skew < num * SCALE
}

/// The bell `exp(-x^2 / 2)`, in units of `1 / UNIT`.
pub open spec fn bell_spec(x: int) -> int {
    exp_neg_spec(x * x / 2)
}

/// Three times `9u + 3u^2 + u^3/3 + 9`, in units of `1 / SCALE^3`.
pub open spec fn bracket_low(u: int) -> int {
    27 * u * SCALE * SCALE + 9 * u * u * SCALE + u * u * u + 27 * SCALE * SCALE * SCALE
}

/// Three times `3u - u^3/3 + 4`, in units of `1 / SCALE^3`.
pub open spec fn bracket_mid(u: int) -> int {
    9 * u * SCALE * SCALE - u * u * u + 12 * SCALE * SCALE * SCALE
}

/// Three times `9u - 3u^2 + u^3/3 + 7`, in units of `1 / SCALE^3`.
pub open spec fn bracket_high(u: int) -> int {
    27 * u * SCALE * SCALE - 9 * u * u * SCALE + u * u * u + 21 * SCALE * SCALE * SCALE
}

/// `bell / (factor * sqrt(2 pi))` times a bracket, in billionths.
pub open spec fn weighted(bell: int, thrice_bracket: int, factor: int) -> int {
    bell * (thrice_bracket / (SCALE as int)) / (3 * factor * SQRT_2PI * SCALE)
}

/// The density of the curve with the given skew at `x`, both in billionths.
pub open spec fn density_spec(skew: int, x: int) -> int {
    let u = trunc_div(skew * x, SCALE as int);
    if compare_spec(skew, x, -3 * SCALE) {
        0
    } else if compare_spec(skew, x, -SCALE) {
        weighted(bell_spec(x), bracket_low(u), 8)
    } else if compare_spec(skew, x, SCALE as int) {
        weighted(bell_spec(x), bracket_mid(u), 4)
    } else if compare_spec(skew, x, 3 * SCALE) {
        weighted(bell_spec(x), bracket_high(u), 8)
    } else {
        bell_spec(x) * SQRT_2_OVER_PI / (UNIT * SCALE)
    }
}

/// The spacing of `count` samples that start at `lower` and stop short of `upper`.
pub open spec fn step_spec(lower: int, upper: int, count: int) -> int {
    trunc_div(upper - lower, count)
}

/// The `i`-th of `count` evenly spaced points from `lower` towards `upper`.
pub open spec fn sample_point(lower: int, upper: int, count: int, i: int) -> int {
    lower + step_spec(lower, upper, count) * i
}

/// How many grid points span `-extent ..= extent` at `resolution` points per unit.
pub open spec fn grid_len(extent: int, resolution: int) -> int {
    let n = trunc_div(2 * extent * resolution + SCALE, SCALE as int);
    if n < 0 {
        0
    } else if n > usize::MAX {
        usize::MAX as int
    } else {
        n
    }
}

/// The `i`-th grid point: `i / resolution - |extent|`.
pub open spec fn grid_point(extent: int, resolution: int, i: int) -> int {
    i * SCALE / resolution - (if extent < 0 {
        -extent
    } else {
        extent
    })
}

/// The density is even in `x` when the skew is zero.
pub proof fn lemma_zero_skew_symmetry(x: int)
    ensures
        density_spec(0, x) == density_spec(0, -x),
{
    assert(x * x == (-x) * (-x)) by (nonlinear_arith);
}

/// Mirroring both the skew and the point leaves the density unchanged.
pub proof fn lemma_sign_mirror(skew: int, x: int)
    ensures
        density_spec(skew, x) == density_spec(-skew, -x),
{
    assert(x * x == (-x) * (-x)) by (nonlinear_arith);
    assert(skew * x == (-skew) * (-x)) by (nonlinear_arith);
    assert(x * skew == (-x) * (-skew)) by (nonlinear_arith);
}

proof fn lemma_step_within(d: int, count: int, i: int)
    by (nonlinear_arith)
    requires
        0 <= i < count,
    ensures
        d >= 0 ==> 0 <= trunc_div(d, count) * i <= d,
        d < 0 ==> d <= trunc_div(d, count) * i <= 0,
{
    if d >= 0 {
        let q: int = d / count;
        assert(0 <= q && q * count <= d);
        assert(q * i <= q * count);
    } else {
        let q: int = (-d) / count;
        assert(0 <= q && q * count <= -d);
        assert(q * i <= q * count);
        assert((-q) * i == -(q * i));
    }
}

proof fn lemma_grid_within(extent: int, resolution: int, i: int)
    by (nonlinear_arith)
    requires
        0 <= extent,
        0 < resolution,
        0 <= i < grid_len(extent, resolution),
        SCALE == 1_000_000_000,
    ensures
        0 <= i * SCALE / resolution <= 2 * extent,
{
    let n: int = (2 * extent * resolution + SCALE) / (SCALE as int);
    assert(i + 1 <= n);
    assert(n * SCALE <= 2 * extent * resolution + SCALE);
    assert((i + 1) * SCALE <= n * SCALE);
    assert(i * SCALE <= (2 * extent) * resolution);
    assert(i * SCALE / resolution <= 2 * extent);
}

proof fn lemma_grid_empty(extent: int, resolution: int)
    by (nonlinear_arith)
    requires
        extent < 0,
        0 < resolution,
        SCALE == 1_000_000_000,
    ensures
        grid_len(extent, resolution) == 0,
{
    let v: int = 2 * extent * resolution + SCALE;
    assert(v < SCALE);
    if v >= 0 {
        assert(v / (SCALE as int) == 0);
    } else {
        assert((-v) / (SCALE as int) >= 0);
    }
}

proof fn lemma_cube_bounds(w: int, c: int)
    by (nonlinear_arith)
    requires
        0 <= w <= c,
    ensures
        0 <= w * w * w <= c * c * c,
{
    assert(w * w <= c * c);
    assert(w * w * w <= c * c * w);
    assert(c * c * w <= c * c * c);
}

proof fn lemma_bracket_low_bounds(u: int)
    requires
        -3 * SCALE <= u <= -SCALE,
    ensures
        0 <= bracket_low(u) <= 8_000_000_000_000_000_000_000_000_000,
        bracket_low(u) == 27_000_000_000_000_000_000 * u + 9_000_000_000 * (u * u) + u * u * u
            + 27_000_000_000_000_000_000_000_000_000,
{
    let w: int = u + 3_000_000_000;
    lemma_cube_bounds(w, 2_000_000_000);
    assert(bracket_low(u) == w * w * w && bracket_low(u) == 27_000_000_000_000_000_000 * u
        + 9_000_000_000 * (u * u) + u * u * u + 27_000_000_000_000_000_000_000_000_000)
        by (nonlinear_arith)
        requires
            w == u + 3_000_000_000,
            SCALE == 1_000_000_000,
            bracket_low(u) == 27 * u * SCALE * SCALE + 9 * u * u * SCALE + u * u * u + 27 * SCALE
                * SCALE * SCALE,
    ;
}

proof fn lemma_bracket_mid_bounds(u: int)
    requires
        -SCALE <= u <= SCALE,
    ensures
        2_000_000_000_000_000_000_000_000_000 <= bracket_mid(u)
            <= 22_000_000_000_000_000_000_000_000_000,
        bracket_mid(u) == 9_000_000_000_000_000_000 * u - u * u * u
            + 12_000_000_000_000_000_000_000_000_000,
{
    if u >= 0 {
        lemma_cube_bounds(u, 1_000_000_000);
    } else {
        lemma_cube_bounds(-u, 1_000_000_000);
        assert((-u) * (-u) * (-u) == -(u * u * u)) by (nonlinear_arith);
    }
    assert(bracket_mid(u) == 9_000_000_000_000_000_000 * u - u * u * u
        + 12_000_000_000_000_000_000_000_000_000) by (nonlinear_arith)
        requires
            SCALE == 1_000_000_000,
            bracket_mid(u) == 9 * u * SCALE * SCALE - u * u * u + 12 * SCALE * SCALE * SCALE,
    ;
}

proof fn lemma_bracket_high_bounds(u: int)
    requires
        SCALE <= u <= 3 * SCALE,
    ensures
        40_000_000_000_000_000_000_000_000_000 <= bracket_high(u)
            <= 48_000_000_000_000_000_000_000_000_000,
        bracket_high(u) == 27_000_000_000_000_000_000 * u - 9_000_000_000 * (u * u) + u * u * u
            + 21_000_000_000_000_000_000_000_000_000,
{
    let w: int = 3_000_000_000 - u;
    lemma_cube_bounds(w, 2_000_000_000);
    assert(bracket_high(u) == 48_000_000_000_000_000_000_000_000_000 - w * w * w && bracket_high(u)
        == 27_000_000_000_000_000_000 * u - 9_000_000_000 * (u * u) + u * u * u
        + 21_000_000_000_000_000_000_000_000_000) by (nonlinear_arith)
        requires
            w == 3_000_000_000 - u,
            SCALE == 1_000_000_000,
            bracket_high(u) == 27 * u * SCALE * SCALE - 9 * u * u * SCALE + u * u * u + 21 * SCALE
                * SCALE * SCALE,
    ;
}

/// A density lies within zero to one.
pub proof fn lemma_density_bounds(skew: int, x: int)
    ensures
        0 <= density_spec(skew, x) <= SCALE,
{
    let product: int = skew * x;
    let u: int = trunc_div(product, SCALE as int);
    assert(x * skew == product) by (nonlinear_arith)
        requires
            product == skew * x,
    ;
    assert(x * x / 2 >= 0) by (nonlinear_arith);
    lemma_exp_neg_bounds(x * x / 2);
    let bell: int = bell_spec(x);
    if compare_spec(skew, x, -3 * SCALE) {
    } else if compare_spec(skew, x, -SCALE) {
        assert(-3 * SCALE <= u <= -SCALE) by (nonlinear_arith)
            requires
                -3_000_000_000_000_000_000 <= product < -1_000_000_000_000_000_000,
                u == -((-product) / 1_000_000_000),
                SCALE == 1_000_000_000,
        ;
        lemma_bracket_low_bounds(u);
        lemma_weighted_bounds(bell, bracket_low(u), 8, 8);
    } else if compare_spec(skew, x, SCALE as int) {
        assert(-SCALE <= u <= SCALE) by (nonlinear_arith)
            requires
                -1_000_000_000_000_000_000 <= product < 1_000_000_000_000_000_000,
                u == trunc_div(product, 1_000_000_000),
                SCALE == 1_000_000_000,
        ;
        lemma_bracket_mid_bounds(u);
        lemma_weighted_bounds(bell, bracket_mid(u), 4, 22);
    } else if compare_spec(skew, x, 3 * SCALE) {
        assert(SCALE <= u <= 3 * SCALE) by (nonlinear_arith)
            requires
                1_000_000_000_000_000_000 <= product < 3_000_000_000_000_000_000,
                u == product / 1_000_000_000,
                SCALE == 1_000_000_000,
        ;
        lemma_bracket_high_bounds(u);
        lemma_weighted_bounds(bell, bracket_high(u), 8, 48);
    } else {
        assert(0 <= bell * SQRT_2_OVER_PI / (UNIT * SCALE) <= SCALE) by (nonlinear_arith)
            requires
                0 <= bell <= UNIT,
                SQRT_2_OVER_PI == 797_884_560_802_865_355,
                UNIT == 1_000_000_000_000_000_000,
                SCALE == 1_000_000_000,
        {
            assert(bell * SQRT_2_OVER_PI <= UNIT * SQRT_2_OVER_PI);
            assert(UNIT * SQRT_2_OVER_PI <= SCALE * (UNIT * SCALE));
        }
    }
}

proof fn lemma_weighted_bounds(bell: int, thrice_bracket: int, factor: int, cap: int)
    by (nonlinear_arith)
    requires
        0 <= bell <= UNIT,
        0 <= thrice_bracket <= cap * 1_000_000_000_000_000_000_000_000_000,
        0 <= cap <= 7 * factor,
        1 <= factor,
        SCALE == 1_000_000_000,
        UNIT == 1_000_000_000_000_000_000,
        SQRT_2PI == 2_506_628_274_631_000_502,
    ensures
        0 <= thrice_bracket / (SCALE as int) <= cap * UNIT,
        0 <= bell * (thrice_bracket / (SCALE as int)) <= cap * UNIT * UNIT,
        0 <= weighted(bell, thrice_bracket, factor) <= SCALE,
{
    let p: int = thrice_bracket / (SCALE as int);
    assert(0 <= p <= cap * UNIT);
    assert(0 <= bell * p <= UNIT * (cap * UNIT));
    let d: int = 3 * factor * SQRT_2PI * SCALE;
    assert(d > 0);
    assert(SCALE * d >= 7 * factor * UNIT * UNIT);
    assert(bell * p <= SCALE * d);
    assert(bell * p / d <= SCALE);
}

/// Whether `x` lies on the near side of `num / skew`.
pub fn compare(skew: Fixed, x: Fixed, num: Fixed) -> (near: bool)
    ensures
        near == compare_spec(skew@, x@, num@),
{
    if skew.raw == 0 {
        return false;
    }
    proof {
        lemma_mul_range(x@, skew@, 0x8000_0000_0000_0000, 0x8000_0000_0000_0000);
        lemma_mul_range(num@, SCALE as int, 0x8000_0000_0000_0000, 1_000_000_000);
    }
    let product: i128 = (x.raw as i128) * (skew.raw as i128);
    let bound: i128 = (num.raw as i128) * (SCALE as i128);
    product < bound
}

/// The bell `exp(-x^2 / 2)`, in units of `1 / UNIT`.
fn bell(x: Fixed) -> (b: u128)
    ensures
        b == bell_spec(x@),
        b <= UNIT,
{
    let wide: i128 = x.raw as i128;
    proof {
        lemma_mul_range(x@, x@, 0x8000_0000_0000_0000, 0x8000_0000_0000_0000);
        assert(x@ * x@ >= 0) by (nonlinear_arith);
    }
    let half_square: i128 = wide * wide / 2;
    exp_neg(half_square as u128)
}

/// `bell / (factor * sqrt(2 pi))` times a bracket that is at most `cap` whole units.
fn weigh(bell: u128, thrice_bracket: i128, factor: u128, Ghost(cap): Ghost<int>) -> (value: Fixed)
    requires
        bell <= UNIT,
        0 <= thrice_bracket <= cap * 1_000_000_000_000_000_000_000_000_000,
        0 <= cap <= 7 * factor,
        cap <= 48,
        factor == 4 || factor == 8,
    ensures
        value@ == weighted(bell as int, thrice_bracket as int, factor as int),
        0 <= value@ <= SCALE,
{
    proof {
        lemma_weighted_bounds(bell as int, thrice_bracket as int, factor as int, cap);
        assert(cap * UNIT * UNIT <= 48 * UNIT * UNIT) by (nonlinear_arith)
            requires
                0 <= cap <= 48,
        ;
    }
    let reduced: u128 = (thrice_bracket / 1_000_000_000) as u128;
    let divisor: u128 = 3 * factor * SQRT_2PI * 1_000_000_000;
    let value: u128 = bell * reduced / divisor;
    Fixed { raw: value as i64 }
}

impl Curve {
    /// The curve with the given skew.
    pub fn new(skew: Fixed) -> (curve: Curve)
        ensures
            curve@ == skew@,
    {
        Curve(skew)
    }

    /// The density at `x`: zero beyond the boundary at minus three, a cubic
    /// bracket on the bell between the boundaries at minus three, minus one,
    /// one and three, and the plain bell scaled by the square root of two over
    /// pi beyond three or when there is no skew.
    pub fn density_at(&self, x: Fixed) -> (density: Fixed)
        ensures
            density@ == density_spec(self@, x@),
            0 <= density@ <= SCALE,
    {
        let skew: Fixed = self.0;
        let b: u128 = bell(x);
        proof {
            lemma_mul_range(skew@, x@, 0x8000_0000_0000_0000, 0x8000_0000_0000_0000);
            assert(x@ * skew@ == skew@ * x@) by (nonlinear_arith);
        }
        let product: i128 = (skew.raw as i128) * (x.raw as i128);
        let u: i128 = product / 1_000_000_000;
        if compare(skew, x, Fixed { raw: -3 * SCALE }) {
            Fixed { raw: 0 }
        } else if compare(skew, x, Fixed { raw: -SCALE }) {
            proof {
                lemma_bracket_low_bounds(u as int);
                lemma_mul_range(u as int, u as int, 3_000_000_000, 3_000_000_000);
                lemma_mul_range(u * u, u as int, 9_000_000_000_000_000_000, 3_000_000_000);
            }
            let bracket: i128 = 27_000_000_000_000_000_000 * u + 9_000_000_000 * (u * u) + u * u * u
                + 27_000_000_000_000_000_000_000_000_000;
            weigh(b, bracket, 8, Ghost(8))
        } else if compare(skew, x, Fixed { raw: SCALE }) {
            proof {
                lemma_bracket_mid_bounds(u as int);
                lemma_mul_range(u as int, u as int, 1_000_000_000, 1_000_000_000);
                lemma_mul_range(u * u, u as int, 1_000_000_000_000_000_000, 1_000_000_000);
            }
            let bracket: i128 = 9_000_000_000_000_000_000 * u - u * u * u
                + 12_000_000_000_000_000_000_000_000_000;
            weigh(b, bracket, 4, Ghost(22))
        } else if compare(skew, x, Fixed { raw: 3 * SCALE }) {
            proof {
                lemma_bracket_high_bounds(u as int);
                lemma_mul_range(u as int, u as int, 3_000_000_000, 3_000_000_000);
                lemma_mul_range(u * u, u as int, 9_000_000_000_000_000_000, 3_000_000_000);
            }
            let bracket: i128 = 27_000_000_000_000_000_000 * u - 9_000_000_000 * (u * u) + u * u * u
                + 21_000_000_000_000_000_000_000_000_000;
            weigh(b, bracket, 8, Ghost(48))
        } else {
            assert(b * SQRT_2_OVER_PI <= UNIT * SQRT_2_OVER_PI) by (nonlinear_arith)
                requires
                    b <= UNIT,
            ;
            let value: u128 = b * SQRT_2_OVER_PI / 1_000_000_000_000_000_000_000_000_000;
            Fixed { raw: value as i64 }
        }
    }

    /// The grid `-|extent|, -|extent| + 1 / resolution, ...`, one point for each
    /// whole step up to `extent`.
    pub fn domain(extent: Fixed, resolution: u16) -> (grid: Vec<Fixed>)
        requires
            resolution > 0,
        ensures
            grid.len() == grid_len(extent@, resolution as int),
            forall|i: int|
                0 <= i < grid.len() ==> (#[trigger] grid[i])@ == grid_point(
                    extent@,
                    resolution as int,
                    i,
                ),
    {
        let mut grid: Vec<Fixed> = Vec::new();
        if extent.raw < 0 {
            proof {
                lemma_grid_empty(extent@, resolution as int);
            }
            return grid;
        }
        let res: i128 = resolution as i128;
        let ext: i128 = extent.raw as i128;
        proof {
            lemma_mul_range(2 * extent@, resolution as int, 0x1_0000_0000_0000_0000, 0x1_0000);
        }
        let whole: i128 = (2 * ext * res + 1_000_000_000) / 1_000_000_000;
        let length: usize = if whole > usize::MAX as i128 {
            usize::MAX
        } else {
            whole as usize
        };
        let mut i: usize = 0;
        while i < length
            invariant
                i <= length,
                length == grid_len(extent@, resolution as int),
                0 <= extent@,
                ext == extent@,
                res == resolution,
                0 < resolution,
                grid.len() == i,
                forall|j: int|
                    0 <= j < i ==> (#[trigger] grid[j])@ == grid_point(
                        extent@,
                        resolution as int,
                        j,
                    ),
            decreases length - i,
        {
            proof {
                lemma_grid_within(extent@, resolution as int, i as int);
                lemma_mul_range(i as int, SCALE as int, 0x1_0000_0000_0000_0000, 1_000_000_000);
            }
            let offset: i128 = (i as i128) * 1_000_000_000 / res;
            grid.push(Fixed { raw: (offset - ext) as i64 });
            i = i + 1;
        }
        grid
    }

    /// The density at every point of the grid that `domain` lays out.
    pub fn symmetric_range(&self, extent: Fixed, resolution: u16) -> (range: Vec<Fixed>)
        requires
            resolution > 0,
        ensures
            range.len() == grid_len(extent@, resolution as int),
            forall|i: int|
                0 <= i < range.len() ==> (#[trigger] range[i])@ == density_spec(
                    self@,
                    grid_point(extent@, resolution as int, i),
                ),
    {
        let grid: Vec<Fixed> = Curve::domain(extent, resolution);
        let mut range: Vec<Fixed> = Vec::new();
        let mut i: usize = 0;
        while i < grid.len()
            invariant
                i <= grid.len(),
                range.len() == i,
                forall|j: int|
                    0 <= j < grid.len() ==> (#[trigger] grid[j])@ == grid_point(
                        extent@,
                        resolution as int,
                        j,
                    ),
                forall|j: int|
                    0 <= j < i ==> (#[trigger] range[j])@ == density_spec(
                        self@,
                        grid_point(extent@, resolution as int, j),
                    ),
            decreases grid.len() - i,
        {
            let y: Fixed = self.density_at(grid[i]);
            range.push(y);
            i = i + 1;
        }
        range
    }

    /// Every grid point paired with the density there.
    pub fn range_x_y_tuple(&self, extent: Fixed, resolution: u16) -> (range: Vec<(Fixed, Fixed)>)
        requires
            resolution > 0,
        ensures
            range.len() == grid_len(extent@, resolution as int),
            forall|i: int|
                0 <= i < range.len() ==> {
                    &&& (#[trigger] range[i]).0@ == grid_point(extent@, resolution as int, i)
                    &&& range[i].1@ == density_spec(self@, range[i].0@)
                },
    {
        let grid: Vec<Fixed> = Curve::domain(extent, resolution);
        let mut range: Vec<(Fixed, Fixed)> = Vec::new();
        let mut i: usize = 0;
        while i < grid.len()
            invariant
                i <= grid.len(),
                range.len() == i,
                forall|j: int|
                    0 <= j < grid.len() ==> (#[trigger] grid[j])@ == grid_point(
                        extent@,
                        resolution as int,
                        j,
                    ),
                forall|j: int|
                    0 <= j < i ==> {
                        &&& (#[trigger] range[j]).0@ == grid_point(extent@, resolution as int, j)
                        &&& range[j].1@ == density_spec(self@, range[j].0@)
                    },
            decreases grid.len() - i,
        {
            let x: Fixed = grid[i];
            let y: Fixed = self.density_at(x);
            range.push((x, y));
            i = i + 1;
        }
        range
    }

    /// The density at `count` evenly spaced points that start at `lower` and
    /// stop one step short of `upper`.
    pub fn limits_range(&self, lower: Fixed, upper: Fixed, count: usize) -> (range: Vec<Fixed>)
        ensures
            range.len() == count,
            forall|i: int|
                0 <= i < count ==> (#[trigger] range[i])@ == density_spec(
                    self@,
                    sample_point(lower@, upper@, count as int, i),
                ),
            count > 0 ==> range[0]@ == density_spec(self@, lower@),
            forall|i: int| 0 <= i < count ==> 0 <= (#[trigger] range[i])@ <= SCALE,
    {
        let mut range: Vec<Fixed> = Vec::new();
        if count == 0 {
            return range;
        }
        let span: i128 = upper.raw as i128 - lower.raw as i128;
        let step: i128 = span / (count as i128);
        let mut i: usize = 0;
        while i < count
            invariant
                i <= count,
                span == upper@ - lower@,
                step == step_spec(lower@, upper@, count as int),
                range.len() == i,
                forall|j: int|
                    0 <= j < i ==> (#[trigger] range[j])@ == density_spec(
                        self@,
                        sample_point(lower@, upper@, count as int, j),
                    ),
                forall|j: int| 0 <= j < i ==> 0 <= (#[trigger] range[j])@ <= SCALE,
            decreases count - i,
        {
            proof {
                lemma_step_within(span as int, count as int, i as int);
            }
            let x: i128 = lower.raw as i128 + step * (i as i128);
            let y: Fixed = self.density_at(Fixed { raw: x as i64 });
            range.push(y);
            i = i + 1;
        }
        proof {
            assert(sample_point(lower@, upper@, count as int, 0) == lower@) by (nonlinear_arith)
                requires
                    sample_point(lower@, upper@, count as int, 0) == lower@ + step_spec(
                        lower@,
                        upper@,
                        count as int,
                    ) * 0,
            ;
        }
        range
    }
}

} // verus!

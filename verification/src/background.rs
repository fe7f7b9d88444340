//! Background estimation: the mean colour of the image border, and the test
//! that decides whether a pixel is close enough to it.

use vstd::prelude::*;
use crate::grid::{GridView, PixelGrid, Rgba};

verus! {

/// Selects the red, green or blue sample of a pixel by index 0, 1 or 2.
pub open spec fn channel(p: Rgba, c: int) -> int {
    if c == 0 {
        p.r as int
    } else if c == 1 {
        p.g as int
    } else {
        p.b as int
    }
}

/// Sum of channel `c` over the first `upto` pixels of row `y`.
pub open spec fn row_sum(grid: GridView, y: int, upto: int, c: int) -> int
    decreases upto,
{
    if upto <= 0 {
        0
    } else {
        row_sum(grid, y, upto - 1, c) + channel(grid.pixel(upto - 1, y), c)
    }
}

/// Sum of channel `c` over the first `upto` pixels of column `x`.
pub open spec fn column_sum(grid: GridView, x: int, upto: int, c: int) -> int
    decreases upto,
{
    if upto <= 0 {
        0
    } else {
        column_sum(grid, x, upto - 1, c) + channel(grid.pixel(x, upto - 1), c)
    }
}

/// Sum of channel `c` over the border samples: the top row, the bottom row, the
/// left column and the right column. A corner belongs to a row and to a column
/// and is counted with both; on an image one pixel high or wide the two rows or
/// the two columns are the same pixels, counted twice.
pub open spec fn border_sum(grid: GridView, c: int) -> int {
    row_sum(grid, 0, grid.width as int, c) + row_sum(grid, grid.height - 1, grid.width as int, c)
        + column_sum(grid, 0, grid.height as int, c) + column_sum(
        grid,
        grid.width - 1,
        grid.height as int,
        c,
    )
}

/// Number of border samples that `border_sum` adds up.
pub open spec fn border_samples(grid: GridView) -> int {
    2 * grid.width + 2 * grid.height
}

/// The estimated background colour: the arithmetic mean of the border samples.
/// The mean of a channel is the exact fraction `sum / samples`; it is kept as
/// numerator and denominator so that no rounding enters a comparison.
#[derive(Clone, Copy, Debug, PartialEq, Eq, Structural)]
pub struct BackgroundColor {
    pub sum_r: u64,
    pub sum_g: u64,
    pub sum_b: u64,
    pub samples: u64,
}

/// The mean border colour of `grid`.
pub open spec fn mean_background(grid: GridView) -> BackgroundColor {
    BackgroundColor {
        sum_r: border_sum(grid, 0) as u64,
        sum_g: border_sum(grid, 1) as u64,
        sum_b: border_sum(grid, 2) as u64,
        samples: border_samples(grid) as u64,
    }
}

/// Largest number of border samples an image can have.
pub const MAX_SAMPLES: u64 = 0x4_0000_0000;

/// From this tolerance on every colour counts as background.
pub const SATURATING_TOLERANCE: u32 = 256;

impl BackgroundColor {
    /// There is at least one sample, and each sum is one of that many bytes.
    pub open spec fn wf(&self) -> bool {
        &&& 1 <= self.samples <= MAX_SAMPLES
        &&& self.sum_r <= 255 * self.samples
        &&& self.sum_g <= 255 * self.samples
        &&& self.sum_b <= 255 * self.samples
    }

    /// Squared Euclidean distance in RGB space from `p` to the mean colour,
    /// multiplied by `samples` squared (which clears the denominators).
    pub open spec fn scaled_distance_sq(&self, p: Rgba) -> int {
        let n = self.samples as int;
        (n * p.r - self.sum_r) * (n * p.r - self.sum_r) + (n * p.g - self.sum_g) * (n * p.g
            - self.sum_g) + (n * p.b - self.sum_b) * (n * p.b - self.sum_b)
    }

    /// A pixel is background iff its squared distance to the mean colour is
    /// strictly below `3 * tolerance * tolerance`; alpha plays no part.
    pub open spec fn accepts(&self, tolerance: int, p: Rgba) -> bool {
        self.scaled_distance_sq(p) < 3 * tolerance * tolerance * (self.samples * self.samples)
    }

    /// Decides whether `p` counts as background under `tolerance`.
    pub fn is_background(&self, tolerance: u32, p: Rgba) -> (background: bool)
        requires
            self.wf(),
        ensures
            background == self.accepts(tolerance as int, p),
    {
        let n: u64 = self.samples;
        let dr: u128 = Self::gap(n, p.r, self.sum_r) as u128;
        let dg: u128 = Self::gap(n, p.g, self.sum_g) as u128;
        let db: u128 = Self::gap(n, p.b, self.sum_b) as u128;
        let bound: u128 = 255 * MAX_SAMPLES as u128;
        assert(dr * dr <= bound * bound && dg * dg <= bound * bound && db * db <= bound * bound)
            by (nonlinear_arith)
            requires
                0 <= dr <= bound,
                0 <= dg <= bound,
                0 <= db <= bound,
        ;
        assert(bound * bound <= 0x10_0000_0000_0000_0000_0000) by (nonlinear_arith)
            requires
                bound == 255 * 0x4_0000_0000,
        ;
        let distance: u128 = dr * dr + dg * dg + db * db;
        assert(distance == self.scaled_distance_sq(p)) by (nonlinear_arith)
            requires
                distance == dr * dr + dg * dg + db * db,
                dr == n * p.r - self.sum_r || dr == self.sum_r - n * p.r,
                dg == n * p.g - self.sum_g || dg == self.sum_g - n * p.g,
                db == n * p.b - self.sum_b || db == self.sum_b - n * p.b,
                self.scaled_distance_sq(p) == (n * p.r - self.sum_r) * (n * p.r - self.sum_r) + (n
                    * p.g - self.sum_g) * (n * p.g - self.sum_g) + (n * p.b - self.sum_b) * (n * p.b
                    - self.sum_b),
        ;
        let t: u128 = if tolerance > SATURATING_TOLERANCE {
            SATURATING_TOLERANCE as u128
        } else {
            tolerance as u128
        };
        assert(0 <= n * n <= 0x4_0000_0000 * 0x4_0000_0000) by (nonlinear_arith)
            requires
                0 <= n <= 0x4_0000_0000,
        ;
        let nn: u128 = (n as u128) * (n as u128);
        assert(3 * t * t <= 3 * 256 * 256) by (nonlinear_arith)
            requires
                0 <= t <= 256,
        ;
        assert(3 * t * t * nn <= (3 * 256 * 256) * (0x4_0000_0000 * 0x4_0000_0000))
            by (nonlinear_arith)
            requires
                0 <= 3 * t * t <= 3 * 256 * 256,
                0 <= nn <= 0x4_0000_0000 * 0x4_0000_0000,
        ;
        let threshold: u128 = 3 * t * t * nn;
        proof {
            if tolerance > SATURATING_TOLERANCE {
                self.lemma_saturated(tolerance as int, p);
                self.lemma_saturated(SATURATING_TOLERANCE as int, p);
            }
        }
        distance < threshold
    }

    /// From `SATURATING_TOLERANCE` on, every pixel is accepted: no colour is
    /// further than 255 from the mean in any channel.
    pub proof fn lemma_saturated(&self, tolerance: int, p: Rgba)
        requires
            self.wf(),
            tolerance >= SATURATING_TOLERANCE,
        ensures
            self.accepts(tolerance, p),
    {
        let n = self.samples as int;
        let far = 255 * n;
        Self::lemma_square_bound(n * p.r - self.sum_r, far);
        Self::lemma_square_bound(n * p.g - self.sum_g, far);
        Self::lemma_square_bound(n * p.b - self.sum_b, far);
        assert(n * p.r <= far && n * p.g <= far && n * p.b <= far && n * p.r >= 0 && n * p.g >= 0
            && n * p.b >= 0) by (nonlinear_arith)
            requires
                n >= 1,
                far == 255 * n,
                0 <= p.r <= 255,
                0 <= p.g <= 255,
                0 <= p.b <= 255,
        ;
        assert(3 * (far * far) < 3 * tolerance * tolerance * (n * n)) by (nonlinear_arith)
            requires
                far == 255 * n,
                n >= 1,
                tolerance >= 256,
        ;
    }

    proof fn lemma_square_bound(d: int, far: int)
        ensures
            -far <= d <= far ==> d * d <= far * far,
    {
        assert(-far <= d <= far ==> d * d <= far * far) by (nonlinear_arith);
    }

    /// The distance between `n * sample` and `sum`, whichever is larger.
    fn gap(n: u64, sample: u8, sum: u64) -> (d: u64)
        requires
            n <= MAX_SAMPLES,
            sum <= 255 * n,
        ensures
            d == n * sample - sum || d == sum - n * sample,
            d >= 0,
            d <= 255 * MAX_SAMPLES,
    {
        assert(0 <= n * sample <= 255 * MAX_SAMPLES) by (nonlinear_arith)
            requires
                0 <= n <= MAX_SAMPLES,
                0 <= sample <= 255,
        ;
        let scaled: u64 = n * (sample as u64);
        if scaled >= sum {
            scaled - sum
        } else {
            sum - scaled
        }
    }
}

/// Bounds a partial row sum by 255 per pixel.
pub proof fn lemma_row_sum_bound(grid: GridView, y: int, upto: int, c: int)
    requires
        0 <= upto,
    ensures
        0 <= row_sum(grid, y, upto, c) <= 255 * upto,
    decreases upto,
{
    if upto > 0 {
        lemma_row_sum_bound(grid, y, upto - 1, c);
    }
}

/// Bounds a partial column sum by 255 per pixel.
pub proof fn lemma_column_sum_bound(grid: GridView, x: int, upto: int, c: int)
    requires
        0 <= upto,
    ensures
        0 <= column_sum(grid, x, upto, c) <= 255 * upto,
    decreases upto,
{
    if upto > 0 {
        lemma_column_sum_bound(grid, x, upto - 1, c);
    }
}

/// Estimates the background colour of `grid` as the mean of its border
/// samples. Works for every grid with at least one pixel, also one that is a
/// single pixel wide or high.
pub fn estimate_background(grid: &PixelGrid) -> (bg: BackgroundColor)
    requires
        grid.wf(),
        grid.width >= 1,
        grid.height >= 1,
    ensures
        bg == mean_background(grid@),
        bg.wf(),
{
    let w: u32 = grid.width;
    let h: u32 = grid.height;
    let mut sum_r: u64 = 0;
    let mut sum_g: u64 = 0;
    let mut sum_b: u64 = 0;
    let mut x: u32 = 0;
    while x < w
        invariant
            grid.wf(),
            w == grid.width,
            h == grid.height,
            h >= 1,
            x <= w,
            sum_r == row_sum(grid@, 0, x as int, 0) + row_sum(grid@, h - 1, x as int, 0),
            sum_g == row_sum(grid@, 0, x as int, 1) + row_sum(grid@, h - 1, x as int, 1),
            sum_b == row_sum(grid@, 0, x as int, 2) + row_sum(grid@, h - 1, x as int, 2),
        decreases w - x,
    {
        proof {
            lemma_row_sum_bound(grid@, 0, x as int, 0);
            lemma_row_sum_bound(grid@, 0, x as int, 1);
            lemma_row_sum_bound(grid@, 0, x as int, 2);
            lemma_row_sum_bound(grid@, h - 1, x as int, 0);
            lemma_row_sum_bound(grid@, h - 1, x as int, 1);
            lemma_row_sum_bound(grid@, h - 1, x as int, 2);
        }
        let top: Rgba = grid.get(x, 0);
        let bottom: Rgba = grid.get(x, h - 1);
        sum_r = sum_r + top.r as u64 + bottom.r as u64;
        sum_g = sum_g + top.g as u64 + bottom.g as u64;
        sum_b = sum_b + top.b as u64 + bottom.b as u64;
        x = x + 1;
    }
    let mut y: u32 = 0;
    while y < h
        invariant
            grid.wf(),
            w == grid.width,
            h == grid.height,
            w >= 1,
            y <= h,
            sum_r == row_sum(grid@, 0, w as int, 0) + row_sum(grid@, h - 1, w as int, 0) + column_sum(
                grid@,
                0,
                y as int,
                0,
            ) + column_sum(grid@, w - 1, y as int, 0),
            sum_g == row_sum(grid@, 0, w as int, 1) + row_sum(grid@, h - 1, w as int, 1) + column_sum(
                grid@,
                0,
                y as int,
                1,
            ) + column_sum(grid@, w - 1, y as int, 1),
            sum_b == row_sum(grid@, 0, w as int, 2) + row_sum(grid@, h - 1, w as int, 2) + column_sum(
                grid@,
                0,
                y as int,
                2,
            ) + column_sum(grid@, w - 1, y as int, 2),
        decreases h - y,
    {
        proof {
            lemma_border_bounds(grid@, y as int);
        }
        let left: Rgba = grid.get(0, y);
        let right: Rgba = grid.get(w - 1, y);
        sum_r = sum_r + left.r as u64 + right.r as u64;
        sum_g = sum_g + left.g as u64 + right.g as u64;
        sum_b = sum_b + left.b as u64 + right.b as u64;
        y = y + 1;
    }
    proof {
        lemma_border_bounds(grid@, h as int);
    }
    BackgroundColor { sum_r, sum_g, sum_b, samples: 2 * (w as u64) + 2 * (h as u64) }
}

/// Bounds every part of the border sums once the rows are complete and the
/// columns have been added up to `upto`.
proof fn lemma_border_bounds(grid: GridView, upto: int)
    requires
        0 <= upto,
        0 <= grid.width,
    ensures
        forall|c: int|
            0 <= #[trigger] row_sum(grid, 0, grid.width as int, c) <= 255 * grid.width,
        forall|c: int|
            0 <= #[trigger] row_sum(grid, grid.height - 1, grid.width as int, c) <= 255
                * grid.width,
        forall|c: int| 0 <= #[trigger] column_sum(grid, 0, upto, c) <= 255 * upto,
        forall|c: int| 0 <= #[trigger] column_sum(grid, grid.width - 1, upto, c) <= 255 * upto,
{
    assert forall|c: int|
        0 <= #[trigger] row_sum(grid, 0, grid.width as int, c) <= 255 * grid.width by {
        lemma_row_sum_bound(grid, 0, grid.width as int, c);
    }
    assert forall|c: int|
        0 <= #[trigger] row_sum(grid, grid.height - 1, grid.width as int, c) <= 255
            * grid.width by {
        lemma_row_sum_bound(grid, grid.height - 1, grid.width as int, c);
    }
    assert forall|c: int| 0 <= #[trigger] column_sum(grid, 0, upto, c) <= 255 * upto by {
        lemma_column_sum_bound(grid, 0, upto, c);
    }
    assert forall|c: int| 0 <= #[trigger] column_sum(grid, grid.width - 1, upto, c) <= 255 * upto by {
        lemma_column_sum_bound(grid, grid.width - 1, upto, c);
    }
}

} // verus!

//! Mask application with feathering: marked pixels deep inside the background
//! become transparent, marked pixels near a kept pixel get a partial alpha that
//! rises with the distance from it.

use vstd::prelude::*;
use crate::grid::{
    cell, in_bounds, lemma_cell_bound, lemma_cell_injective, Mask, MaskView, PixelGrid, Rgba,
};

verus! {

/// The feather radius, in pixels, that background removal uses.
pub const FEATHER_RADIUS: u8 = 2;

/// Squared Euclidean distance between two cells, in pixel units.
pub open spec fn dist_sq(x1: int, y1: int, x2: int, y2: int) -> int {
    (x2 - x1) * (x2 - x1) + (y2 - y1) * (y2 - y1)
}

/// An unmarked cell of the grid.
pub open spec fn is_gap(mask: MaskView, x: int, y: int) -> bool {
    in_bounds(mask.width, mask.height, x, y) && !mask.cells.contains((x, y))
}

/// Whether some unmarked cell lies at squared distance `q` or less from `(x, y)`.
pub open spec fn has_gap_within(mask: MaskView, x: int, y: int, q: int) -> bool {
    exists|nx: int, ny: int| #[trigger] is_gap(mask, nx, ny) && dist_sq(x, y, nx, ny) <= q
}

/// Whether `q` is the squared distance from `(x, y)` to the nearest unmarked cell.
pub open spec fn is_nearest_gap(mask: MaskView, x: int, y: int, q: int) -> bool {
    has_gap_within(mask, x, y, q) && !has_gap_within(mask, x, y, q - 1)
}

/// Squared distance from `(x, y)` to the nearest unmarked cell, if there is one
/// at distance `radius` or less.
pub open spec fn nearest_gap_sq(mask: MaskView, x: int, y: int, radius: int) -> Option<int> {
    if has_gap_within(mask, x, y, radius * radius) {
        Some(choose|q: int| is_nearest_gap(mask, x, y, q))
    } else {
        None
    }
}

/// Whether `a` is `255 * sqrt(q) / radius` rounded to the nearest integer, a
/// half rounded up. With `d = sqrt(q)` this says
/// `(2a - 1) * radius <= 2 * 255 * d < (2a + 1) * radius`, with all sides squared.
pub open spec fn rounds_to(q: int, radius: int, a: int) -> bool {
    &&& a >= 0
    &&& a >= 1 ==> (2 * a - 1) * (2 * a - 1) * (radius * radius) <= 260100 * q
    &&& 260100 * q < (2 * a + 1) * (2 * a + 1) * (radius * radius)
}

/// The alpha ramp: `255 * d / radius`, rounded, for a squared distance `q = d * d`.
pub open spec fn ramp(q: int, radius: int) -> int {
    choose|a: int| rounds_to(q, radius, a)
}

/// The alpha of a marked pixel after feathering: zero when no unmarked cell
/// is within the radius, else the ramp value of the nearest one, but never more
/// than the pixel's alpha was.
pub open spec fn feathered_alpha(mask: MaskView, x: int, y: int, radius: int, alpha: u8) -> int {
    match nearest_gap_sq(mask, x, y, radius) {
        None => 0,
        Some(q) => softened(alpha, q, radius),
    }
}

/// The lesser of `alpha` and the ramp value at squared distance `q`.
pub open spec fn softened(alpha: u8, q: int, radius: int) -> int {
    if ramp(q, radius) < alpha {
        ramp(q, radius)
    } else {
        alpha as int
    }
}

/// A pixel after feathering: unmarked pixels stay as they are, marked ones
/// keep their colour and get the feathered alpha.
pub open spec fn feathered_pixel(mask: MaskView, x: int, y: int, radius: int, p: Rgba) -> Rgba {
    if mask.cells.contains((x, y)) {
        Rgba { r: p.r, g: p.g, b: p.b, a: feathered_alpha(mask, x, y, radius, p.a) as u8 }
    } else {
        p
    }
}

/// No two values are the rounding of the same ramp position.
pub proof fn lemma_rounding_unique(q: int, radius: int, a: int, b: int)
    requires
        radius >= 1,
        rounds_to(q, radius, a),
        rounds_to(q, radius, b),
    ensures
        a == b,
{
    if a < b {
        lemma_rounding_ordered(q, q, radius, b, a);
    } else if b < a {
        lemma_rounding_ordered(q, q, radius, a, b);
    }
}

/// The rounding of a nearer position is not above that of a farther one.
proof fn lemma_rounding_ordered(q1: int, q2: int, radius: int, a1: int, a2: int)
    requires
        radius >= 1,
        q1 <= q2,
        rounds_to(q1, radius, a1),
        rounds_to(q2, radius, a2),
    ensures
        a1 <= a2,
{
    if a1 > a2 {
        let lo = 2 * a1 - 1;
        let hi = 2 * a2 + 1;
        let rr = radius * radius;
        assert(hi * hi <= lo * lo) by (nonlinear_arith)
            requires
                1 <= hi <= lo,
        ;
        assert(hi * hi * rr <= lo * lo * rr) by (nonlinear_arith)
            requires
                hi * hi <= lo * lo,
                rr >= 0,
        ;
        assert(rr >= 0) by (nonlinear_arith)
            requires
                rr == radius * radius,
        ;
    }
}

/// Every position has a rounding.
pub proof fn lemma_rounding_exists(q: int, radius: int)
    requires
        radius >= 1,
        q >= 0,
    ensures
        rounds_to(q, radius, ramp(q, radius)),
{
    lemma_rounding_search(q, radius, 0);
}

proof fn lemma_rounding_search(q: int, radius: int, a: int)
    requires
        radius >= 1,
        q >= 0,
        a >= 0,
        a >= 1 ==> (2 * a - 1) * (2 * a - 1) * (radius * radius) <= 260100 * q,
    ensures
        exists|b: int| rounds_to(q, radius, b),
    decreases 260100 * q - a,
{
    if 260100 * q < (2 * a + 1) * (2 * a + 1) * (radius * radius) {
        assert(rounds_to(q, radius, a));
    } else {
        assert((2 * a + 1) * (2 * a + 1) * (radius * radius) >= a + 1) by (nonlinear_arith)
            requires
                a >= 0,
                radius >= 1,
        ;
        assert(2 * (a + 1) - 1 == 2 * a + 1);
        lemma_rounding_search(q, radius, a + 1);
    }
}

/// Feathering is monotone in the distance: of two marked pixels with the same
/// alpha, the one whose nearest unmarked cell is nearer (squared distance `q1`)
/// ends with an alpha no greater than the other (squared distance `q2`).
pub proof fn lemma_feather_monotone(alpha: u8, q1: int, q2: int, radius: int)
    requires
        radius >= 1,
        0 <= q1 < q2 <= radius * radius,
    ensures
        ramp(q1, radius) <= ramp(q2, radius),
        softened(alpha, q1, radius) <= softened(alpha, q2, radius),
{
    lemma_rounding_exists(q1, radius);
    lemma_rounding_exists(q2, radius);
    lemma_rounding_ordered(q1, q2, radius, ramp(q1, radius), ramp(q2, radius));
}

/// The ramp runs from 0 at the unmarked cell itself to 255 at the radius.
pub proof fn lemma_ramp_ends(radius: int)
    requires
        radius >= 1,
    ensures
        ramp(0, radius) == 0,
        ramp(radius * radius, radius) == 255,
{
    let rr = radius * radius;
    assert(rr >= 1) by (nonlinear_arith)
        requires
            radius >= 1,
            rr == radius * radius,
    ;
    assert(260100 * 0 < (2 * 0 + 1) * (2 * 0 + 1) * (radius * radius)) by (nonlinear_arith)
        requires
            radius >= 1,
    ;
    assert(rounds_to(0, radius, 0));
    assert((2 * 255 - 1) * (2 * 255 - 1) * rr <= 260100 * rr < (2 * 255 + 1) * (2 * 255 + 1) * rr)
        by (nonlinear_arith)
        requires
            rr >= 1,
    ;
    assert(rounds_to(rr, radius, 255));
    lemma_rounding_exists(0, radius);
    lemma_rounding_exists(rr, radius);
    lemma_rounding_unique(0, radius, 0, ramp(0, radius));
    lemma_rounding_unique(rr, radius, 255, ramp(rr, radius));
}

/// The largest `s` whose square is at most `n`.
pub fn integer_sqrt(n: u64) -> (s: u64)
    ensures
        s * s <= n < (s + 1) * (s + 1),
{
    let mut lo: u64 = 0;
    let mut hi: u64 = 0x1_0000_0000;
    while hi - lo > 1
        invariant
            lo < hi <= 0x1_0000_0000,
            lo * lo <= n < hi * hi,
        decreases hi - lo,
    {
        let mid: u64 = lo + (hi - lo) / 2;
        assert(mid * mid <= 0xffff_ffff * 0xffff_ffff) by (nonlinear_arith)
            requires
                0 <= mid <= 0xffff_ffff,
        ;
        if mid * mid <= n {
            lo = mid;
        } else {
            hi = mid;
        }
    }
    lo
}

/// Computes the alpha ramp at squared distance `q`.
pub fn ramp_value(q: u32, radius: u8) -> (a: u8)
    requires
        radius >= 1,
        q <= radius * radius,
    ensures
        a == ramp(q as int, radius as int),
{
    let r: u64 = radius as u64;
    assert(0 <= radius * radius <= 255 * 255) by (nonlinear_arith)
        requires
            0 <= radius <= 255,
    ;
    let scaled: u64 = 260100 * (q as u64);
    let s: u64 = integer_sqrt(scaled);
    proof {
        let rr = radius * radius;
        assert(s <= 510 * r) by (nonlinear_arith)
            requires
                s * s <= scaled,
                scaled <= 260100 * (r * r),
                s >= 0,
                r >= 1,
        ;
    }
    let a: u64 = (s + r) / (2 * r);
    proof {
        let lo = 2 * a - 1;
        let hi = 2 * a + 1;
        let rr = (r * r) as int;
        assert(2 * r * a <= s + r < 2 * r * a + 2 * r) by (nonlinear_arith)
            requires
                a == (s + r) / (2 * r),
                r >= 1,
                s >= 0,
        ;
        assert(lo * r <= s && s + 1 <= hi * r) by (nonlinear_arith)
            requires
                2 * r * a <= s + r < 2 * r * a + 2 * r,
                lo == 2 * a - 1,
                hi == 2 * a + 1,
        ;
        assert((s + 1) * (s + 1) <= hi * hi * rr) by (nonlinear_arith)
            requires
                0 <= s + 1 <= hi * r,
                rr == r * r,
        ;
        if a >= 1 {
            assert(lo * lo * rr <= s * s) by (nonlinear_arith)
                requires
                    0 <= lo * r <= s,
                    lo >= 1,
                    rr == r * r,
            ;
        }
        assert(a <= 255) by (nonlinear_arith)
            requires
                a == (s + r) / (2 * r),
                s <= 510 * r,
                r >= 1,
        ;
        assert(rounds_to(q as int, radius as int, a as int));
        lemma_rounding_exists(q as int, radius as int);
        lemma_rounding_unique(q as int, radius as int, a as int, ramp(q as int, radius as int));
    }
    a as u8
}

/// A cell within Euclidean distance `radius` lies in the square window of that
/// radius.
proof fn lemma_within_window(dx: int, dy: int, radius: int)
    requires
        radius >= 0,
        dx * dx + dy * dy <= radius * radius,
    ensures
        -radius <= dx <= radius,
        -radius <= dy <= radius,
{
    assert(-radius <= dx <= radius && -radius <= dy <= radius) by (nonlinear_arith)
        requires
            radius >= 0,
            dx * dx + dy * dy <= radius * radius,
    ;
}

/// Searches the square window of `radius` around `(x, y)`, clipped to the
/// grid, for the nearest unmarked cell, and gives its squared distance if that
/// is at most `radius` squared.
pub fn nearest_gap(mask: &Mask, x: u32, y: u32, radius: u8) -> (found: Option<u32>)
    requires
        mask.wf(),
        x < mask.width,
        y < mask.height,
    ensures
        found matches Some(q) ==> nearest_gap_sq(mask@, x as int, y as int, radius as int) == Some(
            q as int,
        ) && q <= radius * radius,
        found is None ==> nearest_gap_sq(mask@, x as int, y as int, radius as int) is None,
{
    let r: i64 = radius as i64;
    let w: i64 = mask.width as i64;
    let h: i64 = mask.height as i64;
    assert(0 <= r * r <= 255 * 255) by (nonlinear_arith)
        requires
            0 <= r <= 255,
    ;
    let limit: i64 = r * r;
    let nothing: i64 = 2 * limit + 1;
    let mut best: i64 = nothing;
    let ghost mut wx: int = 0;
    let ghost mut wy: int = 0;
    let ghost cx = x as int;
    let ghost cy = y as int;
    let mut dy: i64 = -r;
    while dy <= r
        invariant
            mask.wf(),
            r == radius,
            w == mask.width,
            h == mask.height,
            cx == x,
            cy == y,
            limit == r * r,
            nothing == 2 * limit + 1,
            -r <= dy <= r + 1,
            0 <= best <= nothing,
            best < nothing ==> is_gap(mask@, wx, wy) && dist_sq(cx, cy, wx, wy) == best,
            forall|nx: int, ny: int|
                #[trigger] is_gap(mask@, nx, ny) && -r <= nx - cx <= r && -r <= ny - cy < dy
                    ==> dist_sq(cx, cy, nx, ny) >= best,
        decreases r + 1 - dy,
    {
        let ny: i64 = y as i64 + dy;
        let mut dx: i64 = -r;
        while dx <= r
            invariant
                mask.wf(),
                r == radius,
                w == mask.width,
                h == mask.height,
                cx == x,
                cy == y,
                limit == r * r,
                nothing == 2 * limit + 1,
                -r <= dy <= r,
                ny == y + dy,
                -r <= dx <= r + 1,
                0 <= best <= nothing,
                best < nothing ==> is_gap(mask@, wx, wy) && dist_sq(cx, cy, wx, wy) == best,
                forall|nx: int, ny: int|
                    #[trigger] is_gap(mask@, nx, ny) && -r <= nx - cx <= r && (-r <= ny - cy < dy || (
                    ny - cy == dy && -r <= nx - cx < dx)) ==> dist_sq(cx, cy, nx, ny) >= best,
            decreases r + 1 - dx,
        {
            let nx: i64 = x as i64 + dx;
            assert(0 <= dx * dx <= limit && 0 <= dy * dy <= limit) by (nonlinear_arith)
                requires
                    -r <= dx <= r,
                    -r <= dy <= r,
                    limit == r * r,
            ;
            let d: i64 = dx * dx + dy * dy;
            assert(d == dist_sq(cx, cy, nx as int, ny as int)) by (nonlinear_arith)
                requires
                    d == dx * dx + dy * dy,
                    nx - cx == dx,
                    ny - cy == dy,
                    dist_sq(cx, cy, nx as int, ny as int) == (nx - cx) * (nx - cx) + (ny - cy) * (ny
                        - cy),
            ;
            if 0 <= nx && nx < w && 0 <= ny && ny < h {
                if !mask.get(nx as u32, ny as u32) {
                    if d < best {
                        best = d;
                        proof {
                            wx = nx as int;
                            wy = ny as int;
                        }
                    }
                }
            }
            dx = dx + 1;
        }
        dy = dy + 1;
    }
    proof {
        assert forall|nx: int, ny: int|
            #[trigger] is_gap(mask@, nx, ny) && dist_sq(cx, cy, nx, ny) <= limit implies dist_sq(
            cx,
            cy,
            nx,
            ny,
        ) >= best by {
            lemma_within_window(nx - cx, ny - cy, r as int);
        }
    }
    if best <= limit {
        proof {
            assert(is_gap(mask@, wx, wy) && dist_sq(cx, cy, wx, wy) <= best);
            assert(has_gap_within(mask@, cx, cy, best as int));
            assert(has_gap_within(mask@, cx, cy, limit as int));
            assert(is_nearest_gap(mask@, cx, cy, best as int));
            lemma_nearest_unique(
                mask@,
                cx,
                cy,
                best as int,
                choose|q: int| is_nearest_gap(mask@, cx, cy, q),
            );
        }
        Some(best as u32)
    } else {
        None
    }
}

/// The nearest unmarked cell has one distance.
proof fn lemma_nearest_unique(mask: MaskView, x: int, y: int, q1: int, q2: int)
    requires
        is_nearest_gap(mask, x, y, q1),
        is_nearest_gap(mask, x, y, q2),
    ensures
        q1 == q2,
{
    if q1 < q2 {
        let (nx, ny) = choose|nx: int, ny: int|
            #[trigger] is_gap(mask, nx, ny) && dist_sq(x, y, nx, ny) <= q1;
        assert(is_gap(mask, nx, ny) && dist_sq(x, y, nx, ny) <= q2 - 1);
    } else if q2 < q1 {
        let (nx, ny) = choose|nx: int, ny: int|
            #[trigger] is_gap(mask, nx, ny) && dist_sq(x, y, nx, ny) <= q2;
        assert(is_gap(mask, nx, ny) && dist_sq(x, y, nx, ny) <= q1 - 1);
    }
}

/// Computes the alpha that feathering gives the marked pixel at `(x, y)`.
pub fn feather_alpha(mask: &Mask, x: u32, y: u32, radius: u8, alpha: u8) -> (a: u8)
    requires
        mask.wf(),
        x < mask.width,
        y < mask.height,
        mask.marked(x as int, y as int),
    ensures
        a == feathered_alpha(mask@, x as int, y as int, radius as int, alpha),
        a <= alpha,
{
    match nearest_gap(mask, x, y, radius) {
        None => 0,
        Some(q) => {
            proof {
                if radius == 0 {
                    let (nx, ny) = choose|nx: int, ny: int|
                        #[trigger] is_gap(mask@, nx, ny) && dist_sq(x as int, y as int, nx, ny) <= 0;
                    lemma_within_window(nx - x, ny - y, 0);
                }
            }
            let top: u8 = ramp_value(q, radius);
            if top < alpha {
                top
            } else {
                alpha
            }
        },
    }
}

/// Replaces the alpha sample of the pixel at `(x, y)`.
fn set_alpha(grid: &mut PixelGrid, x: u32, y: u32, alpha: u8)
    requires
        old(grid).wf(),
        x < old(grid).width,
        y < old(grid).height,
    ensures
        final(grid).wf(),
        final(grid).width == old(grid).width,
        final(grid).height == old(grid).height,
        final(grid)@.pixel(x as int, y as int) == (Rgba {
            r: old(grid)@.pixel(x as int, y as int).r,
            g: old(grid)@.pixel(x as int, y as int).g,
            b: old(grid)@.pixel(x as int, y as int).b,
            a: alpha,
        }),
        forall|cx: int, cy: int|
            in_bounds(old(grid).width as int, old(grid).height as int, cx, cy) && !(cx == x && cy
                == y) ==> #[trigger] final(grid)@.pixel(cx, cy) == old(grid)@.pixel(cx, cy),
{
    let at: usize = grid.offset(x, y);
    grid.data.set(at + 3, alpha);
    proof {
        let width = grid.width as int;
        let height = grid.height as int;
        assert forall|cx: int, cy: int|
            in_bounds(width, height, cx, cy) && !(cx == x && cy == y) implies #[trigger] grid@.pixel(
            cx,
            cy,
        ) == old(grid)@.pixel(cx, cy) by {
            lemma_cell_bound(width, height, cx, cy);
            if cell(width, cx, cy) == cell(width, x as int, y as int) {
                lemma_cell_injective(width, cx, cy, x as int, y as int);
            }
        }
    }
}

/// Cuts the marked pixels out of `grid`: every marked pixel gets its feathered
/// alpha, computed from the mask alone; unmarked pixels and all colour
/// samples stay as they are.
pub fn apply_mask(grid: &mut PixelGrid, mask: &Mask, radius: u8)
    requires
        old(grid).wf(),
        mask.fits(old(grid)),
    ensures
        final(grid).wf(),
        final(grid).width == old(grid).width,
        final(grid).height == old(grid).height,
        forall|x: int, y: int|
            in_bounds(old(grid).width as int, old(grid).height as int, x, y)
                ==> #[trigger] final(grid)@.pixel(x, y) == feathered_pixel(
                mask@,
                x,
                y,
                radius as int,
                old(grid)@.pixel(x, y),
            ),
{
    let w: u32 = grid.width;
    let h: u32 = grid.height;
    let ghost width = w as int;
    let ghost height = h as int;
    let ghost rad = radius as int;
    let mut y: u32 = 0;
    while y < h
        invariant
            grid.wf(),
            mask.fits(grid),
            grid.width == w,
            grid.height == h,
            old(grid).width == w,
            old(grid).height == h,
            width == w,
            height == h,
            rad == radius,
            y <= h,
            forall|cx: int, cy: int|
                in_bounds(width, height, cx, cy) ==> #[trigger] grid@.pixel(cx, cy) == if cy < y {
                    feathered_pixel(mask@, cx, cy, rad, old(grid)@.pixel(cx, cy))
                } else {
                    old(grid)@.pixel(cx, cy)
                },
        decreases h - y,
    {
        let mut x: u32 = 0;
        while x < w
            invariant
                grid.wf(),
                mask.fits(grid),
                grid.width == w,
                grid.height == h,
                old(grid).width == w,
                old(grid).height == h,
                width == w,
                height == h,
                rad == radius,
                y < h,
                x <= w,
                forall|cx: int, cy: int|
                    in_bounds(width, height, cx, cy) ==> #[trigger] grid@.pixel(cx, cy) == if cy < y
                        || (cy == y && cx < x) {
                        feathered_pixel(mask@, cx, cy, rad, old(grid)@.pixel(cx, cy))
                    } else {
                        old(grid)@.pixel(cx, cy)
                    },
            decreases w - x,
        {
            if mask.get(x, y) {
                let p: Rgba = grid.get(x, y);
                let alpha: u8 = feather_alpha(mask, x, y, radius, p.a);
                set_alpha(grid, x, y, alpha);
            }
            x = x + 1;
        }
        y = y + 1;
    }
}

} // verus!

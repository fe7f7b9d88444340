//! Background removal on a decoded pixel grid: estimate the background colour,
//! grow the background region from the border, and cut it out with a
//! feathered edge.

use vstd::prelude::*;
use crate::background::{
    border_samples, border_sum, channel, column_sum, estimate_background, mean_background, row_sum,
    BackgroundColor,
};
use crate::feather::{apply_mask, feathered_pixel, has_gap_within, is_gap, FEATHER_RADIUS};
use crate::fill::{
    adjacent, candidate, flood_fill, in_region, is_fill_path, lemma_region_seed, lemma_region_step,
    on_border, region,
};
use crate::grid::{in_bounds, lemma_painted, painted, GridView, Mask, PixelGrid, Rgba};

verus! {

/// The pixel at `(x, y)` after background removal with the given tolerance:
/// a pixel of the background region keeps its colour and gets its feathered
/// alpha, every other pixel stays as it is.
pub open spec fn cut_pixel(grid: GridView, tolerance: int, x: int, y: int) -> Rgba {
    feathered_pixel(
        region(grid, mean_background(grid), tolerance),
        x,
        y,
        FEATHER_RADIUS as int,
        grid.pixel(x, y),
    )
}

/// The image after background removal: the same dimensions, and at every
/// position the cut pixel.
pub open spec fn cut_image(grid: GridView, tolerance: int) -> GridView {
    painted(grid.width, grid.height, |x: int, y: int| cut_pixel(grid, tolerance, x, y))
}

/// Removes the background of `grid` in place. The dimensions stay as they
/// are, and so does every pixel outside the background region.
pub fn cut_background(grid: &mut PixelGrid, tolerance: u32)
    requires
        old(grid).wf(),
        old(grid).width >= 1,
        old(grid).height >= 1,
    ensures
        final(grid).wf(),
        final(grid).width == old(grid).width,
        final(grid).height == old(grid).height,
        final(grid)@ == cut_image(old(grid)@, tolerance as int),
        forall|x: int, y: int|
            in_bounds(old(grid).width as int, old(grid).height as int, x, y)
                ==> #[trigger] final(grid)@.pixel(x, y) == cut_pixel(
                old(grid)@,
                tolerance as int,
                x,
                y,
            ),
{
    let bg: BackgroundColor = estimate_background(grid);
    let mask: Mask = flood_fill(grid, &bg, tolerance);
    apply_mask(grid, &mask, FEATHER_RADIUS);
    proof {
        lemma_painted(
            grid@,
            |x: int, y: int| cut_pixel(old(grid)@, tolerance as int, x, y),
        );
    }
}

/// Background removal keeps the dimensions of the image.
pub proof fn lemma_dimensions_kept(grid: GridView, tolerance: int)
    requires
        grid.wf(),
    ensures
        cut_image(grid, tolerance).width == grid.width,
        cut_image(grid, tolerance).height == grid.height,
        cut_image(grid, tolerance).wf(),
{
    assert(grid.width * grid.height >= 0) by (nonlinear_arith)
        requires
            grid.width >= 0,
            grid.height >= 0,
    ;
}

/// Every pixel of `grid` has the colour `(r, g, b)`; the alphas are free.
pub open spec fn uniform(grid: GridView, r: u8, g: u8, b: u8) -> bool {
    forall|x: int, y: int|
        in_bounds(grid.width as int, grid.height as int, x, y) ==> {
            let p = #[trigger] grid.pixel(x, y);
            p.r == r && p.g == g && p.b == b
        }
}

/// The sample of channel `c` in the colour `(r, g, b)`.
pub open spec fn sample_of(r: u8, g: u8, b: u8, c: int) -> int {
    channel(Rgba { r, g, b, a: 0 }, c)
}

proof fn lemma_uniform_row(grid: GridView, r: u8, g: u8, b: u8, y: int, upto: int, c: int)
    requires
        uniform(grid, r, g, b),
        0 <= y < grid.height,
        0 <= upto <= grid.width,
    ensures
        row_sum(grid, y, upto, c) == upto * sample_of(r, g, b, c),
    decreases upto,
{
    if upto > 0 {
        lemma_uniform_row(grid, r, g, b, y, upto - 1, c);
        let p = grid.pixel(upto - 1, y);
        assert(channel(p, c) == sample_of(r, g, b, c));
        assert(upto * sample_of(r, g, b, c) == (upto - 1) * sample_of(r, g, b, c) + sample_of(
            r,
            g,
            b,
            c,
        )) by (nonlinear_arith);
    }
}

proof fn lemma_uniform_column(grid: GridView, r: u8, g: u8, b: u8, x: int, upto: int, c: int)
    requires
        uniform(grid, r, g, b),
        0 <= x < grid.width,
        0 <= upto <= grid.height,
    ensures
        column_sum(grid, x, upto, c) == upto * sample_of(r, g, b, c),
    decreases upto,
{
    if upto > 0 {
        lemma_uniform_column(grid, r, g, b, x, upto - 1, c);
        let p = grid.pixel(x, upto - 1);
        assert(channel(p, c) == sample_of(r, g, b, c));
        assert(upto * sample_of(r, g, b, c) == (upto - 1) * sample_of(r, g, b, c) + sample_of(
            r,
            g,
            b,
            c,
        )) by (nonlinear_arith);
    }
}

/// On a grid of one colour the border sums are that colour times the number
/// of samples.
proof fn lemma_uniform_border(grid: GridView, r: u8, g: u8, b: u8, c: int)
    requires
        uniform(grid, r, g, b),
        grid.width >= 1,
        grid.height >= 1,
    ensures
        border_sum(grid, c) == border_samples(grid) * sample_of(r, g, b, c),
        0 <= border_sum(grid, c) <= 255 * border_samples(grid),
{
    let w = grid.width as int;
    let h = grid.height as int;
    let v = sample_of(r, g, b, c);
    lemma_uniform_row(grid, r, g, b, 0, w, c);
    lemma_uniform_row(grid, r, g, b, h - 1, w, c);
    lemma_uniform_column(grid, r, g, b, 0, h, c);
    lemma_uniform_column(grid, r, g, b, w - 1, h, c);
    assert(w * v + w * v + h * v + h * v == (2 * w + 2 * h) * v) by (nonlinear_arith);
    assert(0 <= (2 * w + 2 * h) * v <= 255 * (2 * w + 2 * h)) by (nonlinear_arith)
        requires
            0 <= v <= 255,
            w >= 1,
            h >= 1,
    ;
}

/// On a grid of one colour every pixel is a candidate, for any tolerance of 1
/// or more.
proof fn lemma_uniform_candidates(
    grid: GridView,
    tolerance: int,
    r: u8,
    g: u8,
    b: u8,
    x: int,
    y: int,
)
    requires
        grid.wf(),
        uniform(grid, r, g, b),
        tolerance >= 1,
        in_bounds(grid.width as int, grid.height as int, x, y),
    ensures
        candidate(grid, mean_background(grid), tolerance, x, y),
{
    let bg = mean_background(grid);
    let n = border_samples(grid);
    lemma_uniform_border(grid, r, g, b, 0);
    lemma_uniform_border(grid, r, g, b, 1);
    lemma_uniform_border(grid, r, g, b, 2);
    let p = grid.pixel(x, y);
    assert(bg.samples == n);
    assert(bg.sum_r == n * p.r);
    assert(bg.sum_g == n * p.g);
    assert(bg.sum_b == n * p.b);
    assert(bg.scaled_distance_sq(p) == 0) by (nonlinear_arith)
        requires
            bg.scaled_distance_sq(p) == (n * p.r - bg.sum_r) * (n * p.r - bg.sum_r) + (n * p.g
                - bg.sum_g) * (n * p.g - bg.sum_g) + (n * p.b - bg.sum_b) * (n * p.b - bg.sum_b),
            bg.sum_r == n * p.r,
            bg.sum_g == n * p.g,
            bg.sum_b == n * p.b,
    ;
    assert(0 < 3 * tolerance * tolerance * (n * n)) by (nonlinear_arith)
        requires
            tolerance >= 1,
            n >= 1,
    ;
}

/// On a grid of one colour every pixel is reached, along its row from the
/// left border.
proof fn lemma_uniform_reach(
    grid: GridView,
    tolerance: int,
    r: u8,
    g: u8,
    b: u8,
    x: int,
    y: int,
)
    requires
        grid.wf(),
        uniform(grid, r, g, b),
        tolerance >= 1,
        in_bounds(grid.width as int, grid.height as int, x, y),
    ensures
        in_region(grid, mean_background(grid), tolerance, x, y),
    decreases x,
{
    lemma_uniform_candidates(grid, tolerance, r, g, b, x, y);
    if x == 0 {
        lemma_region_seed(grid, mean_background(grid), tolerance, x, y);
    } else {
        lemma_uniform_reach(grid, tolerance, r, g, b, x - 1, y);
        lemma_region_step(grid, mean_background(grid), tolerance, x - 1, y, x, y);
    }
}

/// An image of a single colour loses every pixel: for any tolerance of 1 or
/// more the background region is the whole image, and every pixel comes out
/// with alpha 0, since no kept pixel is left that an edge could be feathered
/// towards.
pub proof fn lemma_uniform_image_vanishes(
    grid: GridView,
    tolerance: int,
    r: u8,
    g: u8,
    b: u8,
    x: int,
    y: int,
)
    requires
        grid.wf(),
        uniform(grid, r, g, b),
        tolerance >= 1,
        in_bounds(grid.width as int, grid.height as int, x, y),
    ensures
        in_region(grid, mean_background(grid), tolerance, x, y),
        cut_pixel(grid, tolerance, x, y) == (Rgba { r, g, b, a: 0 }),
{
    let bg = mean_background(grid);
    let whole = region(grid, bg, tolerance);
    lemma_uniform_reach(grid, tolerance, r, g, b, x, y);
    assert forall|nx: int, ny: int| !#[trigger] is_gap(whole, nx, ny) by {
        if in_bounds(grid.width as int, grid.height as int, nx, ny) {
            lemma_uniform_reach(grid, tolerance, r, g, b, nx, ny);
        }
    }
    assert(whole.cells.contains((x, y)));
    assert(!has_gap_within(whole, x, y, FEATHER_RADIUS as int * FEATHER_RADIUS as int));
    let p = grid.pixel(x, y);
    assert(p.r == r && p.g == g && p.b == b);
}

/// No fill path enters a set of cells that lies off the border and whose
/// outer neighbours are no candidates.
proof fn lemma_path_stays_out(
    grid: GridView,
    bg: BackgroundColor,
    tolerance: int,
    island: Set<(int, int)>,
    path: Seq<(int, int)>,
)
    requires
        enclosed(grid, bg, tolerance, island),
        is_fill_path(grid, bg, tolerance, path),
    ensures
        !island.contains(path.last()),
    decreases path.len(),
{
    if path.len() > 1 {
        let shorter = path.drop_last();
        assert forall|i: int| 0 <= i < shorter.len() implies candidate(
            grid,
            bg,
            tolerance,
            (#[trigger] shorter[i]).0,
            shorter[i].1,
        ) by {
            assert(shorter[i] == path[i]);
        }
        assert forall|i: int| 0 <= i < shorter.len() - 1 implies adjacent(
            (#[trigger] shorter[i]).0,
            shorter[i].1,
            shorter[i + 1].0,
            shorter[i + 1].1,
        ) by {
            assert(shorter[i] == path[i]);
            assert(shorter[i + 1] == path[i + 1]);
        }
        assert(shorter[0] == path[0]);
        lemma_path_stays_out(grid, bg, tolerance, island, shorter);
        let last = path.len() - 1;
        let before = path[last - 1];
        let end = path[last];
        assert(shorter.last() == before);
        assert(candidate(grid, bg, tolerance, before.0, before.1));
        assert(adjacent(before.0, before.1, path[last - 1 + 1].0, path[last - 1 + 1].1));
        if island.contains(end) {
            assert(adjacent(end.0, end.1, before.0, before.1));
            assert(before == (before.0, before.1));
            assert(end == (end.0, end.1));
        }
    } else {
        assert(path.last() == path[0]);
        assert(path[0] == (path[0].0, path[0].1));
    }
}

/// A set of cells that the fill cannot enter: none of them lies on the
/// border, and every cell next to one of them that is outside the set is no
/// candidate. The cells themselves may well have the background colour.
pub open spec fn enclosed(
    grid: GridView,
    bg: BackgroundColor,
    tolerance: int,
    island: Set<(int, int)>,
) -> bool {
    &&& forall|x: int, y: int| #[trigger]
        island.contains((x, y)) ==> !on_border(grid.width as int, grid.height as int, x, y)
    &&& forall|x: int, y: int, nx: int, ny: int|
        #[trigger] island.contains((x, y)) && adjacent(x, y, nx, ny) && !#[trigger] island.contains(
            (nx, ny),
        ) ==> !candidate(grid, bg, tolerance, nx, ny)
}

/// An enclosed island is kept whatever its colour: the region is what the
/// fill reaches from the border, so pixels that a ring of other colours
/// separates from the border stay out of it and come out unchanged.
pub proof fn lemma_island_is_kept(
    grid: GridView,
    tolerance: int,
    island: Set<(int, int)>,
    x: int,
    y: int,
)
    requires
        enclosed(grid, mean_background(grid), tolerance, island),
        island.contains((x, y)),
    ensures
        !in_region(grid, mean_background(grid), tolerance, x, y),
        cut_pixel(grid, tolerance, x, y) == grid.pixel(x, y),
{
    let bg = mean_background(grid);
    if in_region(grid, bg, tolerance, x, y) {
        let path = choose|path: Seq<(int, int)>|
            #[trigger] is_fill_path(grid, bg, tolerance, path) && path.last() == (x, y);
        lemma_path_stays_out(grid, bg, tolerance, island, path);
    }
}

} // verus!

//! Region growing: a breadth-first flood fill from the image border over
//! 8-connected pixels that match the background colour.

use vstd::prelude::*;
use crate::background::BackgroundColor;
use crate::grid::{
    cell, in_bounds, lemma_cell_bound, lemma_cell_injective, GridView, Mask, MaskView, PixelGrid,
    Rgba,
};

verus! {

/// A pixel inside the grid whose colour counts as background.
pub open spec fn candidate(
    grid: GridView,
    bg: BackgroundColor,
    tolerance: int,
    x: int,
    y: int,
) -> bool {
    in_bounds(grid.width as int, grid.height as int, x, y) && bg.accepts(
        tolerance,
        grid.pixel(x, y),
    )
}

/// A cell of the top or bottom row or of the left or right column.
pub open spec fn on_border(width: int, height: int, x: int, y: int) -> bool {
    in_bounds(width, height, x, y) && (x == 0 || y == 0 || x == width - 1 || y == height - 1)
}

/// Two different cells that touch by a side or by a corner.
pub open spec fn adjacent(x1: int, y1: int, x2: int, y2: int) -> bool {
    -1 <= x1 - x2 <= 1 && -1 <= y1 - y2 <= 1 && !(x1 == x2 && y1 == y2)
}

/// A walk over candidate pixels that starts on the border and moves from each
/// pixel to an adjacent one.
pub open spec fn is_fill_path(
    grid: GridView,
    bg: BackgroundColor,
    tolerance: int,
    path: Seq<(int, int)>,
) -> bool {
    &&& path.len() >= 1
    &&& on_border(grid.width as int, grid.height as int, path[0].0, path[0].1)
    &&& forall|i: int|
        0 <= i < path.len() ==> candidate(grid, bg, tolerance, (#[trigger] path[i]).0, path[i].1)
    &&& forall|i: int|
        0 <= i < path.len() - 1 ==> adjacent(
            (#[trigger] path[i]).0,
            path[i].1,
            path[i + 1].0,
            path[i + 1].1,
        )
}

/// The background region: every pixel that a fill path reaches.
pub open spec fn in_region(
    grid: GridView,
    bg: BackgroundColor,
    tolerance: int,
    x: int,
    y: int,
) -> bool {
    exists|path: Seq<(int, int)>|
        #[trigger] is_fill_path(grid, bg, tolerance, path) && path.last() == (x, y)
}

/// The background region of `grid` as a mask: the cells that fill paths reach.
pub open spec fn region(grid: GridView, bg: BackgroundColor, tolerance: int) -> MaskView {
    MaskView {
        width: grid.width as int,
        height: grid.height as int,
        cells: Set::new(|c: (int, int)| in_region(grid, bg, tolerance, c.0, c.1)),
    }
}

/// A candidate on the border belongs to the region.
pub proof fn lemma_region_seed(grid: GridView, bg: BackgroundColor, tolerance: int, x: int, y: int)
    requires
        on_border(grid.width as int, grid.height as int, x, y),
        candidate(grid, bg, tolerance, x, y),
    ensures
        in_region(grid, bg, tolerance, x, y),
{
    let path = seq![(x, y)];
    assert(is_fill_path(grid, bg, tolerance, path));
    assert(path.last() == (x, y));
}

/// A candidate next to a pixel of the region belongs to the region.
pub proof fn lemma_region_step(
    grid: GridView,
    bg: BackgroundColor,
    tolerance: int,
    x: int,
    y: int,
    nx: int,
    ny: int,
)
    requires
        in_region(grid, bg, tolerance, x, y),
        adjacent(x, y, nx, ny),
        candidate(grid, bg, tolerance, nx, ny),
    ensures
        in_region(grid, bg, tolerance, nx, ny),
{
    let path = choose|path: Seq<(int, int)>|
        #[trigger] is_fill_path(grid, bg, tolerance, path) && path.last() == (x, y);
    let longer = path.push((nx, ny));
    assert forall|i: int| 0 <= i < longer.len() implies candidate(
        grid,
        bg,
        tolerance,
        (#[trigger] longer[i]).0,
        longer[i].1,
    ) by {
        if i < path.len() {
            assert(longer[i] == path[i]);
        }
    }
    assert forall|i: int| 0 <= i < longer.len() - 1 implies adjacent(
        (#[trigger] longer[i]).0,
        longer[i].1,
        longer[i + 1].0,
        longer[i + 1].1,
    ) by {
        assert(longer[i] == path[i]);
        if i < path.len() - 1 {
            assert(longer[i + 1] == path[i + 1]);
        }
    }
    assert(longer[0] == path[0]);
    assert(is_fill_path(grid, bg, tolerance, longer));
    assert(longer.last() == (nx, ny));
}

/// Every pixel of the region is a candidate.
pub proof fn lemma_region_is_candidate(
    grid: GridView,
    bg: BackgroundColor,
    tolerance: int,
    x: int,
    y: int,
)
    requires
        in_region(grid, bg, tolerance, x, y),
    ensures
        candidate(grid, bg, tolerance, x, y),
{
    let path = choose|path: Seq<(int, int)>|
        #[trigger] is_fill_path(grid, bg, tolerance, path) && path.last() == (x, y);
    assert(path[path.len() - 1] == (x, y));
}

/// The flag of the cell `(x, y)` in a row-major sequence of flags.
pub open spec fn flag(bits: Seq<bool>, width: int, x: int, y: int) -> bool {
    bits[cell(width, x, y)]
}

/// Number of flags that are set.
pub open spec fn count_set(bits: Seq<bool>) -> nat
    decreases bits.len(),
{
    if bits.len() == 0 {
        0
    } else {
        count_set(bits.drop_last()) + if bits.last() {
            1nat
        } else {
            0nat
        }
    }
}

proof fn lemma_count_bound(bits: Seq<bool>)
    ensures
        count_set(bits) <= bits.len(),
    decreases bits.len(),
{
    if bits.len() > 0 {
        lemma_count_bound(bits.drop_last());
    }
}

proof fn lemma_count_fresh(len: nat)
    ensures
        count_set(Seq::new(len, |i: int| false)) == 0,
    decreases len,
{
    let bits = Seq::new(len, |i: int| false);
    if len > 0 {
        lemma_count_fresh((len - 1) as nat);
        assert(bits.drop_last() =~= Seq::new((len - 1) as nat, |i: int| false));
    }
}

proof fn lemma_count_mark(bits: Seq<bool>, at: int)
    requires
        0 <= at < bits.len(),
        !bits[at],
    ensures
        count_set(bits.update(at, true)) == count_set(bits) + 1,
    decreases bits.len(),
{
    let marked = bits.update(at, true);
    if at == bits.len() - 1 {
        assert(marked.drop_last() =~= bits.drop_last());
    } else {
        lemma_count_mark(bits.drop_last(), at);
        assert(marked.drop_last() =~= bits.drop_last().update(at, true));
    }
}

/// Every cell that `bits` marks is in the region.
spec fn sound(grid: GridView, bg: BackgroundColor, tolerance: int, bits: Seq<bool>) -> bool {
    forall|x: int, y: int|
        in_bounds(grid.width as int, grid.height as int, x, y) && #[trigger] flag(
            bits,
            grid.width as int,
            x,
            y,
        ) ==> in_region(grid, bg, tolerance, x, y)
}

/// Every queue entry is a marked cell of the grid.
spec fn queue_marked(bits: Seq<bool>, width: int, height: int, queue: Seq<(u32, u32)>) -> bool {
    forall|k: int|
        0 <= k < queue.len() ==> in_bounds(width, height, (#[trigger] queue[k]).0 as int, queue[k].1 as int)
            && flag(bits, width, queue[k].0 as int, queue[k].1 as int)
}

/// No cell stands in the queue twice.
spec fn queue_distinct(queue: Seq<(u32, u32)>) -> bool {
    forall|i: int, j: int| 0 <= i < j < queue.len() ==> queue[i] != queue[j]
}

/// What holds of mask and queue throughout the fill: the mask covers the grid
/// and marks only cells of the region, and the queue holds every marked cell
/// once.
spec fn fill_state(
    grid: GridView,
    bg: BackgroundColor,
    tolerance: int,
    bits: Seq<bool>,
    queue: Seq<(u32, u32)>,
) -> bool {
    &&& grid.wf()
    &&& bg.wf()
    &&& bits.len() == grid.width * grid.height
    &&& sound(grid, bg, tolerance, bits)
    &&& queue_marked(bits, grid.width as int, grid.height as int, queue)
    &&& queue_distinct(queue)
    &&& queue.len() == count_set(bits)
}

/// The cell `(x, y)` waits in the queue at or after `head`.
spec fn pending(queue: Seq<(u32, u32)>, head: int, x: int, y: int) -> bool {
    exists|k: int| head <= k < queue.len() && #[trigger] queue[k] == (x as u32, y as u32)
}

/// Every candidate next to `(x, y)` is marked.
spec fn expanded(
    grid: GridView,
    bg: BackgroundColor,
    tolerance: int,
    bits: Seq<bool>,
    x: int,
    y: int,
) -> bool {
    forall|nx: int, ny: int|
        adjacent(x, y, nx, ny) && candidate(grid, bg, tolerance, nx, ny) ==> #[trigger] flag(
            bits,
            grid.width as int,
            nx,
            ny,
        )
}

/// Every marked cell either still waits in the queue or has been expanded.
spec fn frontier(
    grid: GridView,
    bg: BackgroundColor,
    tolerance: int,
    bits: Seq<bool>,
    queue: Seq<(u32, u32)>,
    head: int,
) -> bool {
    forall|x: int, y: int|
        in_bounds(grid.width as int, grid.height as int, x, y) && #[trigger] flag(
            bits,
            grid.width as int,
            x,
            y,
        ) ==> pending(queue, head, x, y) || expanded(grid, bg, tolerance, bits, x, y)
}

/// `after` marks every cell that `before` marks.
spec fn grown(width: int, height: int, before: Seq<bool>, after: Seq<bool>) -> bool {
    &&& after.len() == before.len()
    &&& forall|x: int, y: int|
        in_bounds(width, height, x, y) && flag(before, width, x, y) ==> #[trigger] flag(
            after,
            width,
            x,
            y,
        )
}

/// `after` starts with `before`, and every cell that `bits_after` marks beyond
/// `bits_before` waits in the part that was added.
spec fn extended(
    width: int,
    height: int,
    bits_before: Seq<bool>,
    bits_after: Seq<bool>,
    before: Seq<(u32, u32)>,
    after: Seq<(u32, u32)>,
) -> bool {
    &&& before.len() <= after.len()
    &&& forall|k: int| 0 <= k < before.len() ==> #[trigger] after[k] == before[k]
    &&& forall|x: int, y: int|
        in_bounds(width, height, x, y) && #[trigger] flag(bits_after, width, x, y) && !flag(
            bits_before,
            width,
            x,
            y,
        ) ==> pending(after, before.len() as int, x, y)
}

/// Looks at one cell, which may lie outside the grid: a candidate inside the
/// grid that is not yet marked is marked and put at the end of the queue.
fn visit(
    grid: &PixelGrid,
    bg: &BackgroundColor,
    tolerance: u32,
    bits: &mut Vec<bool>,
    queue: &mut Vec<(u32, u32)>,
    x: i64,
    y: i64,
)
    requires
        fill_state(grid@, *bg, tolerance as int, old(bits)@, old(queue)@),
        candidate(grid@, *bg, tolerance as int, x as int, y as int) ==> in_region(
            grid@,
            *bg,
            tolerance as int,
            x as int,
            y as int,
        ),
    ensures
        fill_state(grid@, *bg, tolerance as int, final(bits)@, final(queue)@),
        grown(grid.width as int, grid.height as int, old(bits)@, final(bits)@),
        extended(
            grid.width as int,
            grid.height as int,
            old(bits)@,
            final(bits)@,
            old(queue)@,
            final(queue)@,
        ),
        candidate(grid@, *bg, tolerance as int, x as int, y as int) ==> flag(
            final(bits)@,
            grid.width as int,
            x as int,
            y as int,
        ),
{
    if x < 0 || y < 0 || x >= grid.width as i64 || y >= grid.height as i64 {
        return ;
    }
    let cx: u32 = x as u32;
    let cy: u32 = y as u32;
    let w: usize = grid.width as usize;
    let ghost width = grid.width as int;
    let ghost height = grid.height as int;
    proof {
        lemma_cell_bound(width, height, x as int, y as int);
        assert(0 <= y * width <= cell(width, x as int, y as int)) by (nonlinear_arith)
            requires
                y >= 0,
                width >= 0,
                x >= 0,
                cell(width, x as int, y as int) == y * width + x,
        ;
    }
    let len: usize = bits.len();
    let at: usize = (cy as usize) * w + (cx as usize);
    if bits[at] {
        return ;
    }
    let p: Rgba = grid.get(cx, cy);
    if !bg.is_background(tolerance, p) {
        return ;
    }
    proof {
        lemma_count_mark(bits@, at as int);
        lemma_count_bound(bits@.update(at as int, true));
    }
    bits.set(at, true);
    queue.push((cx, cy));
    proof {
        let before = old(bits)@;
        let after = bits@;
        assert forall|x2: int, y2: int| in_bounds(width, height, x2, y2) implies (#[trigger] flag(
            after,
            width,
            x2,
            y2,
        ) == (flag(before, width, x2, y2) || (x2 == x && y2 == y))) by {
            lemma_cell_bound(width, height, x2, y2);
            if cell(width, x2, y2) == cell(width, x as int, y as int) {
                lemma_cell_injective(width, x2, y2, x as int, y as int);
            }
        }
        assert forall|k: int| 0 <= k < queue@.len() implies in_bounds(
            width,
            height,
            (#[trigger] queue@[k]).0 as int,
            queue@[k].1 as int,
        ) && flag(after, width, queue@[k].0 as int, queue@[k].1 as int) by {
            if k < old(queue)@.len() {
                assert(queue@[k] == old(queue)@[k]);
            }
        }
        assert(queue@[old(queue)@.len() as int] == (x as u32, y as u32));
        assert(pending(queue@, old(queue)@.len() as int, x as int, y as int));
        assert forall|i: int, j: int| 0 <= i < j < queue@.len() implies queue@[i] != queue@[j] by {
            assert(queue@[i] == old(queue)@[i]);
            if j < old(queue)@.len() {
                assert(queue@[j] == old(queue)@[j]);
            } else {
                assert(flag(before, width, old(queue)@[i].0 as int, old(queue)@[i].1 as int));
            }
        }
    }
}

/// Visits the eight neighbours of the marked cell `(x, y)`.
fn expand(
    grid: &PixelGrid,
    bg: &BackgroundColor,
    tolerance: u32,
    bits: &mut Vec<bool>,
    queue: &mut Vec<(u32, u32)>,
    x: u32,
    y: u32,
)
    requires
        fill_state(grid@, *bg, tolerance as int, old(bits)@, old(queue)@),
        in_bounds(grid.width as int, grid.height as int, x as int, y as int),
        flag(old(bits)@, grid.width as int, x as int, y as int),
    ensures
        fill_state(grid@, *bg, tolerance as int, final(bits)@, final(queue)@),
        grown(grid.width as int, grid.height as int, old(bits)@, final(bits)@),
        extended(
            grid.width as int,
            grid.height as int,
            old(bits)@,
            final(bits)@,
            old(queue)@,
            final(queue)@,
        ),
        expanded(grid@, *bg, tolerance as int, final(bits)@, x as int, y as int),
{
    let ghost width = grid.width as int;
    let ghost height = grid.height as int;
    let ghost t = tolerance as int;
    let mut dy: i64 = -1;
    while dy <= 1
        invariant
            -1 <= dy <= 2,
            fill_state(grid@, *bg, t, bits@, queue@),
            grown(width, height, old(bits)@, bits@),
            extended(width, height, old(bits)@, bits@, old(queue)@, queue@),
            in_bounds(width, height, x as int, y as int),
            width == grid.width,
            height == grid.height,
            t == tolerance,
            flag(bits@, width, x as int, y as int),
            forall|nx: int, ny: int|
                adjacent(x as int, y as int, nx, ny) && ny - y < dy && candidate(
                    grid@,
                    *bg,
                    t,
                    nx,
                    ny,
                ) ==> #[trigger] flag(bits@, width, nx, ny),
        decreases 2 - dy,
    {
        let mut dx: i64 = -1;
        while dx <= 1
            invariant
                -1 <= dx <= 2,
                -1 <= dy <= 1,
                fill_state(grid@, *bg, t, bits@, queue@),
                grown(width, height, old(bits)@, bits@),
                extended(width, height, old(bits)@, bits@, old(queue)@, queue@),
                in_bounds(width, height, x as int, y as int),
                width == grid.width,
                height == grid.height,
                t == tolerance,
                flag(bits@, width, x as int, y as int),
                forall|nx: int, ny: int|
                    adjacent(x as int, y as int, nx, ny) && (ny - y < dy || (ny - y == dy && nx - x
                        < dx)) && candidate(grid@, *bg, t, nx, ny) ==> #[trigger] flag(
                        bits@,
                        width,
                        nx,
                        ny,
                    ),
            decreases 2 - dx,
        {
            if dx != 0 || dy != 0 {
                let nx: i64 = x as i64 + dx;
                let ny: i64 = y as i64 + dy;
                let ghost bits_mid = bits@;
                let ghost queue_mid = queue@;
                proof {
                    if candidate(grid@, *bg, t, nx as int, ny as int) {
                        lemma_region_step(grid@, *bg, t, x as int, y as int, nx as int, ny as int);
                    }
                }
                visit(grid, bg, tolerance, bits, queue, nx, ny);
                proof {
                    lemma_extended_chain(
                        width,
                        height,
                        old(bits)@,
                        bits_mid,
                        bits@,
                        old(queue)@,
                        queue_mid,
                        queue@,
                    );
                }
            }
            dx = dx + 1;
        }
        dy = dy + 1;
    }
}

/// Two extensions in a row are one extension.
proof fn lemma_extended_chain(
    width: int,
    height: int,
    bits0: Seq<bool>,
    bits1: Seq<bool>,
    bits2: Seq<bool>,
    queue0: Seq<(u32, u32)>,
    queue1: Seq<(u32, u32)>,
    queue2: Seq<(u32, u32)>,
)
    requires
        extended(width, height, bits0, bits1, queue0, queue1),
        extended(width, height, bits1, bits2, queue1, queue2),
    ensures
        extended(width, height, bits0, bits2, queue0, queue2),
{
    assert forall|k: int| 0 <= k < queue0.len() implies #[trigger] queue2[k] == queue0[k] by {
        assert(queue1[k] == queue0[k]);
    }
    assert forall|x: int, y: int|
        in_bounds(width, height, x, y) && #[trigger] flag(bits2, width, x, y) && !flag(
            bits0,
            width,
            x,
            y,
        ) implies pending(queue2, queue0.len() as int, x, y) by {
        if flag(bits1, width, x, y) {
            let k = choose|k: int|
                queue0.len() <= k < queue1.len() && #[trigger] queue1[k] == (x as u32, y as u32);
            assert(queue2[k] == queue1[k]);
        } else {
            let k = choose|k: int|
                queue1.len() <= k < queue2.len() && #[trigger] queue2[k] == (x as u32, y as u32);
            assert(queue0.len() <= k);
        }
    }
}

/// Every cell that a fill path ends in is marked, once the border candidates
/// are marked and every marked cell has been expanded.
proof fn lemma_paths_marked(
    grid: GridView,
    bg: BackgroundColor,
    tolerance: int,
    bits: Seq<bool>,
    path: Seq<(int, int)>,
)
    requires
        is_fill_path(grid, bg, tolerance, path),
        forall|x: int, y: int|
            on_border(grid.width as int, grid.height as int, x, y) && candidate(
                grid,
                bg,
                tolerance,
                x,
                y,
            ) ==> #[trigger] flag(bits, grid.width as int, x, y),
        forall|x: int, y: int|
            in_bounds(grid.width as int, grid.height as int, x, y) && #[trigger] flag(
                bits,
                grid.width as int,
                x,
                y,
            ) ==> expanded(grid, bg, tolerance, bits, x, y),
    ensures
        flag(bits, grid.width as int, path.last().0, path.last().1),
    decreases path.len(),
{
    if path.len() > 1 {
        let shorter = path.drop_last();
        assert forall|i: int| 0 <= i < shorter.len() implies candidate(
            grid,
            bg,
            tolerance,
            (#[trigger] shorter[i]).0,
            shorter[i].1,
        ) by {
            assert(shorter[i] == path[i]);
        }
        assert forall|i: int| 0 <= i < shorter.len() - 1 implies adjacent(
            (#[trigger] shorter[i]).0,
            shorter[i].1,
            shorter[i + 1].0,
            shorter[i + 1].1,
        ) by {
            assert(shorter[i] == path[i]);
            assert(shorter[i + 1] == path[i + 1]);
        }
        assert(shorter[0] == path[0]);
        lemma_paths_marked(grid, bg, tolerance, bits, shorter);
        let last = path.len() - 1;
        assert(shorter.last() == path[last - 1]);
        assert(candidate(grid, bg, tolerance, path[last - 1].0, path[last - 1].1));
        assert(candidate(grid, bg, tolerance, path[last].0, path[last].1));
        assert(adjacent(path[last - 1].0, path[last - 1].1, path[last - 1 + 1].0, path[last - 1 + 1].1));
        assert(expanded(grid, bg, tolerance, bits, path[last - 1].0, path[last - 1].1));
    } else {
        assert(candidate(grid, bg, tolerance, path[0].0, path[0].1));
    }
}

/// Grows the background region of `grid`: starting from every border pixel
/// that matches the background colour, marks all matching pixels that are
/// reachable over 8-connected matching pixels. The mask marks a pixel exactly
/// if it belongs to that region.
pub fn flood_fill(grid: &PixelGrid, bg: &BackgroundColor, tolerance: u32) -> (mask: Mask)
    requires
        grid.wf(),
        bg.wf(),
    ensures
        mask.fits(grid),
        mask@ == region(grid@, *bg, tolerance as int),
{
    let w: u32 = grid.width;
    let h: u32 = grid.height;
    let ghost width = w as int;
    let ghost height = h as int;
    let ghost t = tolerance as int;
    let data_len: usize = grid.data.len();
    assert(0 <= width * height <= 4 * (width * height)) by (nonlinear_arith)
        requires
            width >= 0,
            height >= 0,
    ;
    let cells: usize = (w as usize) * (h as usize);
    let mut bits: Vec<bool> = vec![false; cells];
    assert(bits@ =~= Seq::new(cells as nat, |i: int| false));
    let mut queue: Vec<(u32, u32)> = Vec::new();
    proof {
        lemma_count_fresh(cells as nat);
        assert forall|cx: int, cy: int| in_bounds(width, height, cx, cy) implies !#[trigger] flag(
            bits@,
            width,
            cx,
            cy,
        ) by {
            lemma_cell_bound(width, height, cx, cy);
        }
    }
    if w == 0 || h == 0 {
        let empty = Mask { width: w, height: h, bits };
        proof {
            assert forall|c: (int, int)| !in_region(grid@, *bg, t, c.0, c.1) by {
                if in_region(grid@, *bg, t, c.0, c.1) {
                    lemma_region_is_candidate(grid@, *bg, t, c.0, c.1);
                }
            }
            assert(empty@.cells =~= region(grid@, *bg, t).cells);
        }
        return empty;
    }
    let mut x: u32 = 0;
    while x < w
        invariant
            x <= w,
            w == grid.width,
            h == grid.height,
            h >= 1,
            width == w,
            height == h,
            t == tolerance,
            fill_state(grid@, *bg, t, bits@, queue@),
            forall|cx: int, cy: int|
                in_bounds(width, height, cx, cy) && #[trigger] flag(bits@, width, cx, cy)
                    ==> pending(queue@, 0, cx, cy),
            forall|cx: int, cy: int|
                0 <= cx < x && (cy == 0 || cy == height - 1) && candidate(grid@, *bg, t, cx, cy)
                    ==> #[trigger] flag(bits@, width, cx, cy),
        decreases w - x,
    {
        seed(grid, bg, tolerance, &mut bits, &mut queue, x, 0);
        seed(grid, bg, tolerance, &mut bits, &mut queue, x, h - 1);
        x = x + 1;
    }
    let mut y: u32 = 0;
    while y < h
        invariant
            y <= h,
            w == grid.width,
            h == grid.height,
            w >= 1,
            width == w,
            height == h,
            t == tolerance,
            fill_state(grid@, *bg, t, bits@, queue@),
            forall|cx: int, cy: int|
                in_bounds(width, height, cx, cy) && #[trigger] flag(bits@, width, cx, cy)
                    ==> pending(queue@, 0, cx, cy),
            forall|cx: int, cy: int|
                0 <= cx < width && (cy == 0 || cy == height - 1) && candidate(grid@, *bg, t, cx, cy)
                    ==> #[trigger] flag(bits@, width, cx, cy),
            forall|cx: int, cy: int|
                0 <= cy < y && (cx == 0 || cx == width - 1) && candidate(grid@, *bg, t, cx, cy)
                    ==> #[trigger] flag(bits@, width, cx, cy),
        decreases h - y,
    {
        seed(grid, bg, tolerance, &mut bits, &mut queue, 0, y);
        seed(grid, bg, tolerance, &mut bits, &mut queue, w - 1, y);
        y = y + 1;
    }
    let mut head: usize = 0;
    while head < queue.len()
        invariant
            head <= queue@.len(),
            w == grid.width,
            h == grid.height,
            width == w,
            height == h,
            t == tolerance,
            fill_state(grid@, *bg, t, bits@, queue@),
            frontier(grid@, *bg, t, bits@, queue@, head as int),
            forall|cx: int, cy: int|
                on_border(width, height, cx, cy) && candidate(grid@, *bg, t, cx, cy)
                    ==> #[trigger] flag(bits@, width, cx, cy),
        decreases width * height - head,
    {
        let (cx, cy): (u32, u32) = queue[head];
        let ghost bits_before = bits@;
        let ghost queue_before = queue@;
        proof {
            lemma_count_bound(bits@);
        }
        expand(grid, bg, tolerance, &mut bits, &mut queue, cx, cy);
        proof {
            assert forall|px: int, py: int|
                in_bounds(width, height, px, py) && #[trigger] flag(bits@, width, px, py) implies (
            pending(queue@, head + 1, px, py) || expanded(grid@, *bg, t, bits@, px, py)) by {
                if px == cx && py == cy {
                } else if !flag(bits_before, width, px, py) {
                    let k = choose|k: int|
                        queue_before.len() <= k < queue@.len() && #[trigger] queue@[k] == (
                            px as u32,
                            py as u32,
                        );
                    assert(head + 1 <= k);
                } else if pending(queue_before, head as int, px, py) {
                    let k = choose|k: int|
                        head <= k < queue_before.len() && #[trigger] queue_before[k] == (
                            px as u32,
                            py as u32,
                        );
                    assert(queue@[k] == queue_before[k]);
                    assert(k != head);
                } else {
                    assert(expanded(grid@, *bg, t, bits_before, px, py));
                }
            }
        }
        head = head + 1;
    }
    let mask = Mask { width: w, height: h, bits };
    proof {
        assert forall|px: int, py: int| in_bounds(width, height, px, py) implies (
        #[trigger] mask.marked(px, py) <==> in_region(grid@, *bg, t, px, py)) by {
            assert(mask.marked(px, py) == flag(mask.bits@, width, px, py));
            if in_region(grid@, *bg, t, px, py) {
                let path = choose|path: Seq<(int, int)>|
                    #[trigger] is_fill_path(grid@, *bg, t, path) && path.last() == (px, py);
                assert forall|qx: int, qy: int|
                    in_bounds(width, height, qx, qy) && #[trigger] flag(
                        bits@,
                        width,
                        qx,
                        qy,
                    ) implies expanded(grid@, *bg, t, bits@, qx, qy) by {
                    assert(!pending(queue@, head as int, qx, qy));
                }
                lemma_paths_marked(grid@, *bg, t, mask.bits@, path);
            }
        }
        assert forall|c: (int, int)|
            mask@.cells.contains(c) <==> region(grid@, *bg, t).cells.contains(c) by {
            if in_region(grid@, *bg, t, c.0, c.1) {
                lemma_region_is_candidate(grid@, *bg, t, c.0, c.1);
            }
        }
        assert(mask@.cells =~= region(grid@, *bg, t).cells);
    }
    mask
}

/// Visits one border cell as a seed of the fill.
fn seed(
    grid: &PixelGrid,
    bg: &BackgroundColor,
    tolerance: u32,
    bits: &mut Vec<bool>,
    queue: &mut Vec<(u32, u32)>,
    x: u32,
    y: u32,
)
    requires
        fill_state(grid@, *bg, tolerance as int, old(bits)@, old(queue)@),
        on_border(grid.width as int, grid.height as int, x as int, y as int),
        forall|cx: int, cy: int|
            in_bounds(grid.width as int, grid.height as int, cx, cy) && #[trigger] flag(
                old(bits)@,
                grid.width as int,
                cx,
                cy,
            ) ==> pending(old(queue)@, 0, cx, cy),
    ensures
        fill_state(grid@, *bg, tolerance as int, final(bits)@, final(queue)@),
        grown(grid.width as int, grid.height as int, old(bits)@, final(bits)@),
        forall|cx: int, cy: int|
            in_bounds(grid.width as int, grid.height as int, cx, cy) && #[trigger] flag(
                final(bits)@,
                grid.width as int,
                cx,
                cy,
            ) ==> pending(final(queue)@, 0, cx, cy),
        candidate(grid@, *bg, tolerance as int, x as int, y as int) ==> flag(
            final(bits)@,
            grid.width as int,
            x as int,
            y as int,
        ),
{
    proof {
        if candidate(grid@, *bg, tolerance as int, x as int, y as int) {
            lemma_region_seed(grid@, *bg, tolerance as int, x as int, y as int);
        }
    }
    visit(grid, bg, tolerance, bits, queue, x as i64, y as i64);
    proof {
        let width = grid.width as int;
        let height = grid.height as int;
        assert forall|cx: int, cy: int|
            in_bounds(width, height, cx, cy) && #[trigger] flag(bits@, width, cx, cy) implies pending(
            queue@,
            0,
            cx,
            cy,
        ) by {
            if flag(old(bits)@, width, cx, cy) {
                let k = choose|k: int|
                    0 <= k < old(queue)@.len() && #[trigger] old(queue)@[k] == (cx as u32, cy as u32);
                assert(queue@[k] == old(queue)@[k]);
            } else {
                let k = choose|k: int|
                    old(queue)@.len() <= k < queue@.len() && #[trigger] queue@[k] == (
                        cx as u32,
                        cy as u32,
                    );
            }
        }
    }
}

} // verus!

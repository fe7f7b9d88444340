//! Dense pixel storage: an RGBA pixel grid and a boolean mask of the same shape.

use vstd::arithmetic::div_mod::{lemma_div_pos_is_pos, lemma_fundamental_div_mod, lemma_mod_bound};
use vstd::prelude::*;

verus! {

/// One pixel: red, green, blue and alpha samples of eight bits each.
#[derive(Clone, Copy, Debug, PartialEq, Eq, Structural)]
pub struct Rgba {
    pub r: u8,
    pub g: u8,
    pub b: u8,
    pub a: u8,
}

/// Position of the cell `(x, y)` in a row-major grid that is `width` cells wide.
pub open spec fn cell(width: int, x: int, y: int) -> int {
    y * width + x
}

/// Whether `(x, y)` lies inside a grid of the given dimensions.
pub open spec fn in_bounds(width: int, height: int, x: int, y: int) -> bool {
    0 <= x < width && 0 <= y < height
}

/// A cell inside the grid has a position below `width * height`.
pub proof fn lemma_cell_bound(width: int, height: int, x: int, y: int)
    requires
        in_bounds(width, height, x, y),
    ensures
        0 <= cell(width, x, y) < width * height,
{
    assert(y * width >= 0) by (nonlinear_arith)
        requires
            y >= 0,
            width > 0,
    ;
    assert((y + 1) * width <= height * width) by (nonlinear_arith)
        requires
            y + 1 <= height,
            width > 0,
    ;
    assert((y + 1) * width == y * width + width) by (nonlinear_arith);
    assert(height * width == width * height) by (nonlinear_arith);
}

/// Two cells of one grid share a position only if they are the same cell.
pub proof fn lemma_cell_injective(width: int, x1: int, y1: int, x2: int, y2: int)
    requires
        0 <= x1 < width,
        0 <= x2 < width,
        cell(width, x1, y1) == cell(width, x2, y2),
    ensures
        x1 == x2,
        y1 == y2,
{
    if y1 < y2 {
        assert((y1 + 1) * width <= y2 * width) by (nonlinear_arith)
            requires
                y1 + 1 <= y2,
                width > 0,
        ;
        assert((y1 + 1) * width == y1 * width + width) by (nonlinear_arith);
    } else if y2 < y1 {
        assert((y2 + 1) * width <= y1 * width) by (nonlinear_arith)
            requires
                y2 + 1 <= y1,
                width > 0,
        ;
        assert((y2 + 1) * width == y2 * width + width) by (nonlinear_arith);
    }
}

/// A dense, row-major grid of RGBA pixels, four bytes per pixel.
#[derive(Debug)]
pub struct PixelGrid {
    pub width: u32,
    pub height: u32,
    pub data: Vec<u8>,
}

/// What a pixel grid stands for: its dimensions and its samples, row by row,
/// four for each pixel.
pub ghost struct GridView {
    pub width: int,
    pub height: int,
    pub data: Seq<u8>,
}

impl GridView {
    /// The dimensions fit in 32 bits and there are exactly four samples for
    /// every cell.
    pub open spec fn wf(&self) -> bool {
        &&& 0 <= self.width <= u32::MAX
        &&& 0 <= self.height <= u32::MAX
        &&& self.data.len() == 4 * (self.width * self.height)
    }

    /// The pixel stored at `(x, y)`.
    pub open spec fn pixel(&self, x: int, y: int) -> Rgba {
        let at = 4 * cell(self.width, x, y);
        Rgba { r: self.data[at], g: self.data[at + 1], b: self.data[at + 2], a: self.data[at + 3] }
    }
}

/// The sample of `p` with index 0 (red), 1 (green), 2 (blue) or 3 (alpha).
pub open spec fn sample(p: Rgba, k: int) -> u8 {
    if k == 0 {
        p.r
    } else if k == 1 {
        p.g
    } else if k == 2 {
        p.b
    } else {
        p.a
    }
}

/// The grid of the given dimensions whose pixel at `(x, y)` is `paint(x, y)`.
pub open spec fn painted(width: int, height: int, paint: spec_fn(int, int) -> Rgba) -> GridView {
    GridView {
        width,
        height,
        data: Seq::new(
            (4 * (width * height)) as nat,
            |i: int| sample(paint((i / 4) % width, (i / 4) / width), i % 4),
        ),
    }
}

/// A grid is determined by its dimensions and its pixels.
pub proof fn lemma_painted(grid: GridView, paint: spec_fn(int, int) -> Rgba)
    requires
        grid.wf(),
        forall|x: int, y: int|
            in_bounds(grid.width, grid.height, x, y) ==> #[trigger] grid.pixel(x, y) == paint(x, y),
    ensures
        grid == painted(grid.width, grid.height, paint),
{
    let w = grid.width;
    let h = grid.height;
    let other = painted(w, h, paint);
    assert(grid.data.len() == other.data.len());
    assert forall|i: int| 0 <= i < grid.data.len() implies grid.data[i] == other.data[i] by {
        let c = i / 4;
        assert(0 <= c < w * h);
        assert(w > 0) by (nonlinear_arith)
            requires
                0 <= c < w * h,
                w >= 0,
                h >= 0,
        ;
        let x = c % w;
        let y = c / w;
        lemma_fundamental_div_mod(c, w);
        lemma_mod_bound(c, w);
        lemma_div_pos_is_pos(c, w);
        assert(w * y == y * w) by (nonlinear_arith);
        assert(y < h) by (nonlinear_arith)
            requires
                c == y * w + x,
                0 <= x,
                c < w * h,
                w > 0,
        ;
        assert(cell(w, x, y) == c);
        assert(grid.pixel(x, y) == paint(x, y));
    }
    assert(grid.data =~= other.data);
}

impl View for PixelGrid {
    type V = GridView;

    open spec fn view(&self) -> GridView {
        GridView { width: self.width as int, height: self.height as int, data: self.data@ }
    }
}

impl PixelGrid {
    /// The buffer holds exactly four bytes for every cell.
    pub open spec fn wf(&self) -> bool {
        self@.wf()
    }

    /// Wraps a raw RGBA buffer, provided that it has four bytes for each of the
    /// `width * height` cells.
    pub fn from_raw(width: u32, height: u32, data: Vec<u8>) -> (grid: Option<PixelGrid>)
        ensures
            grid is Some <==> data@.len() == 4 * (width * height),
            grid matches Some(g) ==> g.wf() && g.width == width && g.height == height && g.data@
                == data@,
    {
        assert(0 <= width * height <= 0xffff_ffff * 0xffff_ffff) by (nonlinear_arith)
            requires
                0 <= width <= 0xffff_ffff,
                0 <= height <= 0xffff_ffff,
        ;
        let cells: u64 = (width as u64) * (height as u64);
        let wanted: u128 = 4 * (cells as u128);
        if data.len() as u128 == wanted {
            Some(PixelGrid { width, height, data })
        } else {
            None
        }
    }

    /// Width of the grid in pixels.
    pub fn width(&self) -> (w: u32)
        ensures
            w == self.width,
    {
        self.width
    }

    /// Height of the grid in pixels.
    pub fn height(&self) -> (h: u32)
        ensures
            h == self.height,
    {
        self.height
    }

    /// Byte offset of the first sample of the pixel at `(x, y)`.
    pub fn offset(&self, x: u32, y: u32) -> (at: usize)
        requires
            self.wf(),
            x < self.width,
            y < self.height,
        ensures
            at == 4 * cell(self.width as int, x as int, y as int),
            at + 3 < self.data@.len(),
    {
        proof {
            lemma_cell_bound(self.width as int, self.height as int, x as int, y as int);
        }
        let len = self.data.len();
        assert(0 <= y * self.width <= cell(self.width as int, x as int, y as int)) by (nonlinear_arith)
            requires
                y >= 0,
                self.width >= 0,
                x >= 0,
                cell(self.width as int, x as int, y as int) == y * self.width + x,
        ;
        4 * ((y as usize) * (self.width as usize) + (x as usize))
    }

    /// Reads the pixel at `(x, y)`.
    pub fn get(&self, x: u32, y: u32) -> (p: Rgba)
        requires
            self.wf(),
            x < self.width,
            y < self.height,
        ensures
            p == self@.pixel(x as int, y as int),
    {
        let at = self.offset(x, y);
        Rgba { r: self.data[at], g: self.data[at + 1], b: self.data[at + 2], a: self.data[at + 3] }
    }

    /// Reads the pixel at `(x, y)`, or nothing when the position is outside the grid.
    pub fn pixel_at(&self, x: u32, y: u32) -> (p: Option<Rgba>)
        requires
            self.wf(),
        ensures
            p == if x < self.width && y < self.height {
                Some(self@.pixel(x as int, y as int))
            } else {
                None
            },
    {
        if x < self.width && y < self.height {
            Some(self.get(x, y))
        } else {
            None
        }
    }

    /// Hands back the raw RGBA buffer.
    pub fn into_raw(self) -> (data: Vec<u8>)
        ensures
            data@ == self.data@,
    {
        self.data
    }
}

/// A boolean grid; `true` marks a cell as background that is to be cut away.
#[derive(Debug)]
pub struct Mask {
    pub width: u32,
    pub height: u32,
    pub bits: Vec<bool>,
}

/// What a mask stands for: the dimensions of its grid and the set of cells,
/// as `(x, y)`, that it marks.
pub ghost struct MaskView {
    pub width: int,
    pub height: int,
    pub cells: Set<(int, int)>,
}

impl View for Mask {
    type V = MaskView;

    open spec fn view(&self) -> MaskView {
        MaskView {
            width: self.width as int,
            height: self.height as int,
            cells: Set::new(
                |c: (int, int)|
                    in_bounds(self.width as int, self.height as int, c.0, c.1) && self.marked(
                        c.0,
                        c.1,
                    ),
            ),
        }
    }
}

impl Mask {
    /// The mask holds one flag per cell.
    pub open spec fn wf(&self) -> bool {
        self.bits@.len() == self.width * self.height
    }

    /// Whether the cell `(x, y)` is marked.
    pub open spec fn marked(&self, x: int, y: int) -> bool {
        self.bits@[cell(self.width as int, x, y)]
    }

    /// Whether the mask has the dimensions of `grid`.
    pub open spec fn fits(&self, grid: &PixelGrid) -> bool {
        self.wf() && self.width == grid.width && self.height == grid.height
    }

    /// Reads the flag of the cell `(x, y)`.
    pub fn get(&self, x: u32, y: u32) -> (m: bool)
        requires
            self.wf(),
            x < self.width,
            y < self.height,
        ensures
            m == self.marked(x as int, y as int),
    {
        proof {
            lemma_cell_bound(self.width as int, self.height as int, x as int, y as int);
        }
        let len = self.bits.len();
        assert(0 <= y * self.width <= cell(self.width as int, x as int, y as int)) by (nonlinear_arith)
            requires
                y >= 0,
                self.width >= 0,
                x >= 0,
                cell(self.width as int, x as int, y as int) == y * self.width + x,
        ;
        self.bits[(y as usize) * (self.width as usize) + (x as usize)]
    }
}

} // verus!

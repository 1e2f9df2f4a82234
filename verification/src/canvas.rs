//! The projection canvas: maps a rectangular logical coordinate domain onto
//! a braille-resolution sub-cell grid (two columns by four rows of dots per
//! terminal cell), supports point plotting, line drawing and ordered
//! compositing layers, and paints the result into the frame buffer.
//!
//! Logical coordinates are fixed-point integers; the caller picks the scale
//! (the dashboard uses hundredths of a degree for latitude and longitude).

use vstd::prelude::*;
use vstd::arithmetic::div_mod::{lemma_div_is_ordered, lemma_div_multiples_vanish};
use vstd::arithmetic::mul::lemma_mul_inequality;
use crate::geometry::Rect;
use crate::style::{Color, Style};
use crate::buffer::{Buffer, Cell};

verus! {

/// A logical coordinate domain: the value ranges mapped onto the grid.
#[derive(Clone, Copy, Debug, PartialEq, Eq, Structural)]
pub struct Bounds {
    pub x_min: i32,
    pub x_max: i32,
    pub y_min: i32,
    pub y_max: i32,
}

impl Bounds {
    /// Each axis spans a non-empty range.
    pub open spec fn wf(self) -> bool {
        self.x_min < self.x_max && self.y_min < self.y_max
    }

    /// Whether a logical point lies inside the domain.
    pub open spec fn spec_contains(self, x: int, y: int) -> bool {
        self.x_min <= x <= self.x_max && self.y_min <= y <= self.y_max
    }

    pub fn contains(self, x: i32, y: i32) -> (r: bool)
        ensures
            r == self.spec_contains(x as int, y as int),
    {
        self.x_min <= x && x <= self.x_max && self.y_min <= y && y <= self.y_max
    }
}

/// Grid column of a logical x: the x axis scaled onto columns 0 to gw - 1,
/// rounded down; x_min lands on column 0, x_max on the last column.
pub open spec fn project_col(b: Bounds, gw: int, x: int) -> int {
    (x - b.x_min) * (gw - 1) / (b.x_max - b.x_min)
}

/// Grid row of a logical y: the y axis scaled onto rows gh - 1 down to 0, so
/// y_min lands on the bottom row and y_max on the top row.
pub open spec fn project_row(b: Bounds, gh: int, y: int) -> int {
    (gh - 1) - (y - b.y_min) * (gh - 1) / (b.y_max - b.y_min)
}

proof fn lemma_scale_range(lo: int, hi: int, k: int, v: int)
    requires
        lo < hi,
        lo <= v <= hi,
        k >= 0,
    ensures
        0 <= (v - lo) * k / (hi - lo) <= k,
{
    let a = v - lo;
    let c = hi - lo;
    lemma_mul_inequality(a, c, k);
    lemma_div_is_ordered(a * k, c * k, c);
    lemma_div_multiples_vanish(k, c);
    assert(c * k == k * c) by (nonlinear_arith);
    assert(a * k >= 0) by (nonlinear_arith)
        requires a >= 0 && k >= 0;
    lemma_div_is_ordered(0, a * k, c);
}

/// A point exactly at the domain's minimum corner projects to one
/// deterministic corner of the grid: column 0 of the bottom row.
pub proof fn lemma_projection_corner(b: Bounds, gw: int, gh: int)
    requires
        b.wf(),
        gw >= 1,
        gh >= 1,
    ensures
        project_col(b, gw, b.x_min as int) == 0,
        project_row(b, gh, b.y_min as int) == gh - 1,
{
    assert(0 * (gw - 1) == 0) by (nonlinear_arith);
    assert(0 * (gh - 1) == 0) by (nonlinear_arith);
    assert(project_col(b, gw, b.x_min as int) == 0int / (b.x_max - b.x_min));
    assert(project_row(b, gh, b.y_min as int) == (gh - 1) - 0int / (b.y_max - b.y_min));
}

/// Project an in-domain logical point onto the dot grid.
fn project(b: Bounds, gw: u32, gh: u32, x: i32, y: i32) -> (p: (u32, u32))
    requires
        b.wf(),
        1 <= gw <= 0x40000,
        1 <= gh <= 0x40000,
        b.spec_contains(x as int, y as int),
    ensures
        p.0 as int == project_col(b, gw as int, x as int),
        p.1 as int == project_row(b, gh as int, y as int),
        p.0 < gw,
        p.1 < gh,
{
    proof {
        lemma_scale_range(b.x_min as int, b.x_max as int, gw - 1, x as int);
        lemma_scale_range(b.y_min as int, b.y_max as int, gh - 1, y as int);
        let ax = x as int - b.x_min as int;
        let kx = gw - 1;
        assert(0 <= ax * kx <= 0x1_0000_0000 * 0x40000) by (nonlinear_arith)
            requires 0 <= ax <= 0x1_0000_0000 && 0 <= kx <= 0x40000;
        let ay = y as int - b.y_min as int;
        let ky = gh - 1;
        assert(0 <= ay * ky <= 0x1_0000_0000 * 0x40000) by (nonlinear_arith)
            requires 0 <= ay <= 0x1_0000_0000 && 0 <= ky <= 0x40000;
    }
    let dx: i64 = (x as i64) - (b.x_min as i64);
    let wx: i64 = (b.x_max as i64) - (b.x_min as i64);
    let col: i64 = dx * ((gw - 1) as i64) / wx;
    let dy: i64 = (y as i64) - (b.y_min as i64);
    let wy: i64 = (b.y_max as i64) - (b.y_min as i64);
    let row: i64 = ((gh - 1) as i64) - dy * ((gh - 1) as i64) / wy;
    (col as u32, row as u32)
}

/// The bit position of the braille dot at sub-cell offset (dx, dy), with dx
/// the column within the cell (0 or 1) and dy the row (0 to 3).
pub open spec fn braille_shift(dx: int, dy: int) -> u8 {
    if dx == 0 {
        if dy < 3 { dy as u8 } else { 6u8 }
    } else {
        if dy < 3 { (3 + dy) as u8 } else { 7u8 }
    }
}

/// The mask bit of the braille dot at sub-cell offset (dx, dy).
pub open spec fn braille_bit(dx: int, dy: int) -> u8 {
    1u8 << braille_shift(dx, dy)
}

/// One compositing layer: per-cell dot masks and dot colors, plus a per-cell
/// text overlay painted over the dots.
pub struct Layer {
    pub masks: Vec<u8>,
    pub colors: Vec<Color>,
    pub overlay: Vec<Option<(char, Color)>>,
}

impl Layer {
    pub open spec fn wf(self, cells: int) -> bool {
        self.masks.len() == cells && self.colors.len() == cells && self.overlay.len() == cells
    }

    /// Whether the dot at grid position (col, row) is set, for a layer of a
    /// canvas `width` cells wide.
    pub open spec fn dot_set(self, width: int, col: int, row: int) -> bool {
        self.masks[(row / 4) * width + col / 2] & braille_bit(col % 2, row % 4) != 0
    }

    /// An empty layer: no dots, no overlay text.
    pub open spec fn is_empty(self, cells: int) -> bool {
        &&& self.wf(cells)
        &&& forall|i: int| 0 <= i < cells ==> #[trigger] self.masks[i] == 0
        &&& forall|i: int| 0 <= i < cells ==> #[trigger] self.overlay[i] is None
    }

    fn empty(cells: usize) -> (r: Layer)
        ensures
            r.is_empty(cells as int),
            forall|i: int| 0 <= i < cells ==> #[trigger] r.colors[i] == Color::Reset,
    {
        let mut masks: Vec<u8> = Vec::new();
        let mut colors: Vec<Color> = Vec::new();
        let mut overlay: Vec<Option<(char, Color)>> = Vec::new();
        let mut i: usize = 0;
        while i < cells
            invariant
                i <= cells,
                masks@.len() == i,
                colors@.len() == i,
                overlay@.len() == i,
                forall|j: int| 0 <= j < i ==> #[trigger] masks@[j] == 0,
                forall|j: int| 0 <= j < i ==> #[trigger] overlay@[j] is None,
                forall|j: int| 0 <= j < i ==> #[trigger] colors@[j] == Color::Reset,
            decreases cells - i,
        {
            masks.push(0);
            colors.push(Color::Reset);
            overlay.push(None);
            i = i + 1;
        }
        Layer { masks, colors, overlay }
    }
}

/// Index of the terminal cell holding grid dot (col, row).
pub open spec fn cell_of(width: int, col: int, row: int) -> int {
    (row / 4) * width + col / 2
}

proof fn lemma_bit_or_same(m: u8, s: u8)
    requires
        s < 8,
    ensures
        (m | (1u8 << s)) & (1u8 << s) != 0,
{
    assert((m | (1u8 << s)) & (1u8 << s) != 0) by (bit_vector)
        requires s < 8;
}

proof fn lemma_bit_or_other(m: u8, s1: u8, s2: u8)
    requires
        s1 < 8,
        s2 < 8,
        s1 != s2,
    ensures
        (m | (1u8 << s1)) & (1u8 << s2) == m & (1u8 << s2),
{
    assert((m | (1u8 << s1)) & (1u8 << s2) == m & (1u8 << s2)) by (bit_vector)
        requires s1 < 8 && s2 < 8 && s1 != s2;
}

proof fn lemma_cell_decompose(width: int, col: int, row: int, col2: int, row2: int)
    requires
        width >= 1,
        0 <= col,
        0 <= row,
        0 <= col2 < 2 * width,
        0 <= row2,
        col < 2 * width,
        cell_of(width, col, row) == cell_of(width, col2, row2),
    ensures
        col / 2 == col2 / 2,
        row / 4 == row2 / 4,
{
    assert(col / 2 < width && col2 / 2 < width && col / 2 >= 0 && col2 / 2 >= 0);
    assert((row / 4) * width + col / 2 == (row2 / 4) * width + col2 / 2);
    assert(row / 4 == row2 / 4 && col / 2 == col2 / 2) by (nonlinear_arith)
        requires
            width >= 1
                && 0 <= col / 2 < width && 0 <= col2 / 2 < width
                && 0 <= row / 4 && 0 <= row2 / 4
                && (row / 4) * width + col / 2 == (row2 / 4) * width + col2 / 2;
}

/// The terminal-cell canvas: a logical domain, the grid dimensions, and the
/// ordered compositing layers (later layers paint over earlier ones).
pub struct Canvas {
    pub width: u16,
    pub height: u16,
    pub bounds: Bounds,
    pub layers: Vec<Layer>,
}

impl Canvas {
    pub open spec fn cells(self) -> int {
        self.width * self.height
    }

    pub open spec fn wf(self) -> bool {
        &&& 1 <= self.width
        &&& 1 <= self.height
        &&& self.bounds.wf()
        &&& self.layers.len() >= 1
        &&& forall|l: int| 0 <= l < self.layers.len() ==>
                (#[trigger] self.layers[l]).wf(self.cells())
    }

    /// The topmost (current) layer.
    pub open spec fn top(self) -> Layer {
        self.layers@.last()
    }

    /// Grid width in dots: two dot columns per terminal cell.
    pub open spec fn grid_w(self) -> int {
        2 * self.width
    }

    /// Grid height in dots: four dot rows per terminal cell.
    pub open spec fn grid_h(self) -> int {
        4 * self.height
    }

    /// Dimensions, domain and all layers below the top are as before.
    pub open spec fn same_shape(self, other: Canvas) -> bool {
        &&& self.width == other.width
        &&& self.height == other.height
        &&& self.bounds == other.bounds
        &&& self.layers.len() == other.layers.len()
        &&& forall|l: int| 0 <= l < self.layers.len() - 1 ==>
                #[trigger] self.layers[l] == other.layers[l]
    }

    /// A canvas over the given domain with one empty layer.
    pub fn new(width: u16, height: u16, bounds: Bounds) -> (r: Canvas)
        requires
            width >= 1,
            height >= 1,
            bounds.wf(),
        ensures
            r.wf(),
            r.width == width,
            r.height == height,
            r.bounds == bounds,
            r.layers.len() == 1,
            r.layers[0].is_empty(r.cells()),
    {
        proof {
            assert(width * height <= 0xffff * 0xffff) by (nonlinear_arith)
                requires width <= 0xffff && height <= 0xffff;
            assert(width * height >= 1) by (nonlinear_arith)
                requires width >= 1 && height >= 1;
        }
        let cells: usize = (width as usize) * (height as usize);
        let mut layers: Vec<Layer> = Vec::new();
        layers.push(Layer::empty(cells));
        Canvas { width, height, bounds, layers }
    }

    /// Open a new compositing layer: everything drawn from now on is
    /// composited over the layers drawn so far.
    pub fn layer(&mut self)
        requires
            old(self).wf(),
        ensures
            final(self).wf(),
            final(self).width == old(self).width,
            final(self).height == old(self).height,
            final(self).bounds == old(self).bounds,
            final(self).layers.len() == old(self).layers.len() + 1,
            forall|l: int| 0 <= l < old(self).layers.len() ==>
                #[trigger] final(self).layers[l] == old(self).layers[l],
            final(self).top().is_empty(final(self).cells()),
            forall|ci: int| 0 <= ci < final(self).cells() ==>
                #[trigger] final(self).top().colors[ci] == Color::Reset,
    {
        proof {
            assert(self.width * self.height <= 0xffff * 0xffff) by (nonlinear_arith)
                requires self.width <= 0xffff && self.height <= 0xffff;
        }
        let cells: usize = (self.width as usize) * (self.height as usize);
        self.layers.push(Layer::empty(cells));
    }

    /// Set the dot at grid position (col, row) on the top layer and give its
    /// cell the dot color; every other dot and all other layers are as
    /// before, and the overlay text is untouched.
    fn set_dot(&mut self, col: u32, row: u32, color: Color)
        requires
            old(self).wf(),
            col < old(self).grid_w(),
            row < old(self).grid_h(),
        ensures
            final(self).wf(),
            final(self).same_shape(*old(self)),
            final(self).top().overlay == old(self).top().overlay,
            forall|c2: int, r2: int|
                0 <= c2 < old(self).grid_w() && 0 <= r2 < old(self).grid_h() ==>
                    #[trigger] final(self).top().dot_set(old(self).width as int, c2, r2)
                        == (old(self).top().dot_set(old(self).width as int, c2, r2)
                            || (c2 == col as int && r2 == row as int)),
            forall|ci: int| 0 <= ci < old(self).cells() ==>
                #[trigger] final(self).top().colors[ci]
                    == (if ci == cell_of(old(self).width as int, col as int, row as int) {
                    color
                } else {
                    old(self).top().colors[ci]
                }),
    {
        let w = self.width;
        proof {
            assert((row as int / 4) * (w as int) + col as int / 2 < w as int * self.height as int
                && 0 <= (row as int / 4) * (w as int)) by (nonlinear_arith)
                requires
                    w >= 1 && 0 <= col as int / 2 < w
                        && 0 <= row as int / 4 < self.height as int;
        }
        let ci: usize = ((row / 4) as usize) * (w as usize) + ((col / 2) as usize);
        let sub_x: u32 = col % 2;
        let sub_y: u32 = row % 4;
        let sh: u8 = if sub_x == 0 {
            if sub_y < 3 { sub_y as u8 } else { 6 }
        } else {
            if sub_y < 3 { (3 + sub_y) as u8 } else { 7 }
        };
        assert(sh == braille_shift(col as int % 2, row as int % 4));
        assert(sh < 8);
        let mut top = self.layers.pop().unwrap();
        let m: u8 = top.masks[ci];
        top.masks[ci] = m | (1u8 << sh);
        top.colors[ci] = color;
        self.layers.push(top);
        proof {
            let ow = old(self).width as int;
            let gcol = col as int;
            let grow = row as int;
            let gci = cell_of(ow, gcol, grow);
            assert forall|c2: int, r2: int|
                0 <= c2 < old(self).grid_w() && 0 <= r2 < old(self).grid_h()
                    implies #[trigger] self.top().dot_set(ow, c2, r2)
                        == (old(self).top().dot_set(ow, c2, r2)
                            || (c2 == gcol && r2 == grow)) by {
                let ci2 = cell_of(ow, c2, r2);
                let oh = old(self).height as int;
                let ocells = old(self).cells();
                assert(0 <= c2 / 2 < ow && 0 <= r2 / 4 < oh);
                assert(0 <= ci2 < ocells) by (nonlinear_arith)
                    requires
                        ow >= 1 && 0 <= c2 / 2 < ow
                            && 0 <= r2 / 4 < oh
                            && ci2 == (r2 / 4) * ow + c2 / 2
                            && ocells == ow * oh;
                let s2 = braille_shift(c2 % 2, r2 % 4);
                assert(s2 < 8);
                if ci2 == gci {
                    lemma_cell_decompose(ow, gcol, grow, c2, r2);
                    if c2 == gcol && r2 == grow {
                        lemma_bit_or_same(m, sh);
                    } else {
                        assert(c2 % 2 != gcol % 2 || r2 % 4 != grow % 4);
                        assert(s2 != sh);
                        lemma_bit_or_other(m, sh, s2);
                    }
                }
            }
        }
    }

    /// Plot one logical point on the top layer: a point inside the domain
    /// sets exactly the dot it projects to and colors that dot's cell; a
    /// point outside the domain is silently omitted.
    pub fn plot_point(&mut self, x: i32, y: i32, color: Color)
        requires
            old(self).wf(),
        ensures
            final(self).wf(),
            !old(self).bounds.spec_contains(x as int, y as int) ==> *final(self) == *old(self),
            old(self).bounds.spec_contains(x as int, y as int) ==> {
                let col = project_col(old(self).bounds, old(self).grid_w(), x as int);
                let row = project_row(old(self).bounds, old(self).grid_h(), y as int);
                &&& final(self).same_shape(*old(self))
                &&& final(self).top().overlay == old(self).top().overlay
                &&& (forall|c2: int, r2: int|
                    0 <= c2 < old(self).grid_w() && 0 <= r2 < old(self).grid_h() ==>
                        #[trigger] final(self).top().dot_set(old(self).width as int, c2, r2)
                            == (old(self).top().dot_set(old(self).width as int, c2, r2)
                                || (c2 == col && r2 == row)))
                &&& (forall|ci: int| 0 <= ci < old(self).cells() ==>
                    #[trigger] final(self).top().colors[ci]
                        == (if ci == cell_of(old(self).width as int, col, row) {
                        color
                    } else {
                        old(self).top().colors[ci]
                    }))
            },
    {
        if !self.bounds.contains(x, y) {
            return;
        }
        let gw: u32 = 2 * (self.width as u32);
        let gh: u32 = 4 * (self.height as u32);
        let p = project(self.bounds, gw, gh, x, y);
        self.set_dot(p.0, p.1, color);
    }

    /// Write one text character over the cell an in-domain logical point
    /// projects to, on the top layer; dots and other cells are untouched,
    /// and a point outside the domain is silently omitted.
    pub fn print(&mut self, x: i32, y: i32, ch: char, color: Color)
        requires
            old(self).wf(),
        ensures
            final(self).wf(),
            !old(self).bounds.spec_contains(x as int, y as int) ==> *final(self) == *old(self),
            old(self).bounds.spec_contains(x as int, y as int) ==> {
                let col = project_col(old(self).bounds, old(self).grid_w(), x as int);
                let row = project_row(old(self).bounds, old(self).grid_h(), y as int);
                &&& final(self).same_shape(*old(self))
                &&& final(self).top().masks == old(self).top().masks
                &&& final(self).top().colors == old(self).top().colors
                &&& (forall|ci: int| 0 <= ci < old(self).cells() ==>
                    #[trigger] final(self).top().overlay[ci]
                        == (if ci == cell_of(old(self).width as int, col, row) {
                        Some((ch, color))
                    } else {
                        old(self).top().overlay[ci]
                    }))
            },
    {
        if !self.bounds.contains(x, y) {
            return;
        }
        let gw: u32 = 2 * (self.width as u32);
        let gh: u32 = 4 * (self.height as u32);
        let p = project(self.bounds, gw, gh, x, y);
        let w = self.width;
        proof {
            assert((p.1 as int / 4) * (w as int) + p.0 as int / 2 < w as int * self.height as int
                && 0 <= (p.1 as int / 4) * (w as int)) by (nonlinear_arith)
                requires
                    w >= 1 && 0 <= p.0 as int / 2 < w
                        && 0 <= p.1 as int / 4 < self.height as int;
        }
        let ci: usize = ((p.1 / 4) as usize) * (w as usize) + ((p.0 / 2) as usize);
        let mut top = self.layers.pop().unwrap();
        top.overlay[ci] = Some((ch, color));
        self.layers.push(top);
    }
}

/// Magnitude of an integer.
pub open spec fn abs_i(a: int) -> int {
    if a < 0 { -a } else { a }
}

/// Sign of an integer: -1, 0 or 1.
pub open spec fn sign_i(a: int) -> int {
    if a < 0 { -1int } else if a > 0 { 1int } else { 0int }
}

/// Number of interpolation steps between two grid points: the larger of the
/// two axis distances.
pub open spec fn line_steps(c0: int, r0: int, c1: int, r1: int) -> int {
    let dc = abs_i(c1 - c0);
    let dr = abs_i(r1 - r0);
    if dc >= dr { dc } else { dr }
}

/// The grid point at interpolation step `t` of the line from (c0, r0) to
/// (c1, r1): each axis advances by its distance scaled by t over the step
/// count, rounded toward the start.
pub open spec fn line_point(c0: int, r0: int, c1: int, r1: int, t: int) -> (int, int) {
    let s = line_steps(c0, r0, c1, r1);
    if s == 0 {
        (c0, r0)
    } else {
        (
            c0 + sign_i(c1 - c0) * (abs_i(c1 - c0) * t / s),
            r0 + sign_i(r1 - r0) * (abs_i(r1 - r0) * t / s),
        )
    }
}

/// Whether (col, row) is one of the first `k` interpolation points of the
/// line from (c0, r0) to (c1, r1).
pub open spec fn on_line(c0: int, r0: int, c1: int, r1: int, k: int, col: int, row: int) -> bool {
    exists|t: int|
        0 <= t < k && #[trigger] line_point(c0, r0, c1, r1, t) == (col, row)
}

/// Whether one of the first `k` interpolation points of the line lies in the
/// terminal cell `ci`, within a grid of the given dimensions.
pub open spec fn line_in_cell(c0: int, r0: int, c1: int, r1: int, k: int, width: int, gw: int, gh: int, ci: int) -> bool {
    exists|c: int, r: int|
        0 <= c < gw && 0 <= r < gh && #[trigger] cell_of(width, c, r) == ci
            && on_line(c0, r0, c1, r1, k, c, r)
}

proof fn lemma_line_offset_bound(d: int, t: int, s: int)
    requires
        0 <= t <= s,
        s > 0,
        d >= 0,
    ensures
        0 <= d * t / s <= d,
{
    lemma_mul_inequality(t, s, d);
    assert(t * d == d * t && s * d == d * s) by (nonlinear_arith);
    lemma_div_is_ordered(d * t, d * s, s);
    lemma_div_multiples_vanish(d, s);
    assert(s * d == d * s) by (nonlinear_arith);
    assert(d * t >= 0) by (nonlinear_arith)
        requires d >= 0 && t >= 0;
    lemma_div_is_ordered(0, d * t, s);
}

/// Along the major axis the interpolation advances exactly one grid unit
/// per step.
proof fn lemma_line_major_coord(c0: int, r0: int, c1: int, r1: int, t: int)
    requires
        0 <= t <= line_steps(c0, r0, c1, r1),
    ensures
        ({
            let lp = line_point(c0, r0, c1, r1, t);
            &&& (abs_i(c1 - c0) >= abs_i(r1 - r0) ==> {
                &&& (c1 > c0 ==> lp.0 == c0 + t)
                &&& (c1 < c0 ==> lp.0 == c0 - t)
                &&& (c1 == c0 ==> lp.0 == c0)
            })
            &&& (abs_i(c1 - c0) < abs_i(r1 - r0) ==> {
                &&& (r1 > r0 ==> lp.1 == r0 + t)
                &&& (r1 < r0 ==> lp.1 == r0 - t)
            })
        }),
{
    let s = line_steps(c0, r0, c1, r1);
    if s == 0 {
    } else {
        lemma_div_multiples_vanish(t, s);
        assert(s * t == t * s) by (nonlinear_arith);
        if abs_i(c1 - c0) >= abs_i(r1 - r0) {
            assert(abs_i(c1 - c0) == s);
            assert(abs_i(c1 - c0) * t == s * t);
            assert(abs_i(c1 - c0) * t / s == t);
            let q = abs_i(c1 - c0) * t / s;
            assert(1int * q == q && (-1int) * q == -q) by (nonlinear_arith);
        } else {
            assert(abs_i(r1 - r0) == s);
            assert(abs_i(r1 - r0) * t == s * t);
            assert(abs_i(r1 - r0) * t / s == t);
            let q = abs_i(r1 - r0) * t / s;
            assert(1int * q == q && (-1int) * q == -q) by (nonlinear_arith);
        }
    }
}

/// Floor division of `a` by a positive divisor.
fn div_floor(a: i64, b: i64) -> (q: i64)
    requires
        1 <= b <= 0x1_0000_0000,
        -0x10_0000_0000_0000 <= a <= 0x10_0000_0000_0000,
    ensures
        q as int == a as int / b as int,
{
    if a >= 0 {
        a / b
    } else {
        let na: i64 = -a;
        let q: i64 = (na + b - 1) / b;
        proof {
            let ai = a as int;
            let bi = b as int;
            vstd::arithmetic::div_mod::lemma_fundamental_div_mod(ai, bi);
            let q0 = ai / bi;
            let r0 = ai % bi;
            assert(-ai + bi - 1 == (-q0) * bi + (bi - 1 - r0)) by (nonlinear_arith)
                requires ai == bi * q0 + r0;
            vstd::arithmetic::div_mod::lemma_fundamental_div_mod_converse_div(
                -ai + bi - 1, bi, -q0, bi - 1 - r0);
        }
        -q
    }
}

impl Canvas {
    /// Project a logical point onto the dot grid's coordinate plane; points
    /// outside the domain land outside the grid, at the same scale.
    fn project_ext(b: Bounds, gw: u32, gh: u32, x: i32, y: i32) -> (p: (i64, i64))
        requires
            b.wf(),
            1 <= gw <= 0x40000,
            1 <= gh <= 0x40000,
        ensures
            p.0 as int == project_col(b, gw as int, x as int),
            p.1 as int == project_row(b, gh as int, y as int),
            -0x20_0000_0000_0000 <= p.0 <= 0x20_0000_0000_0000,
            -0x20_0000_0000_0000 <= p.1 <= 0x20_0000_0000_0000,
    {
        let ax: i64 = (x as i64) - (b.x_min as i64);
        let rx: i64 = (b.x_max as i64) - (b.x_min as i64);
        proof {
            assert(-0x1_0000_0000 * 0x40000 <= (ax as int) * ((gw - 1) as int)
                <= 0x1_0000_0000 * 0x40000) by (nonlinear_arith)
                requires
                    -0x1_0000_0000 <= ax <= 0x1_0000_0000 && 0 <= gw - 1 <= 0x40000;
        }
        let nx: i64 = ax * ((gw - 1) as i64);
        let col: i64 = div_floor(nx, rx);
        proof {
            assert(nx as int / rx as int <= 0x10_0000_0000_0000
                && nx as int / rx as int >= -0x10_0000_0000_0000) by (nonlinear_arith)
                requires
                    -0x10_0000_0000_0000 <= nx <= 0x10_0000_0000_0000 && rx >= 1;
        }
        let ay: i64 = (y as i64) - (b.y_min as i64);
        let ry: i64 = (b.y_max as i64) - (b.y_min as i64);
        proof {
            assert(-0x1_0000_0000 * 0x40000 <= (ay as int) * ((gh - 1) as int)
                <= 0x1_0000_0000 * 0x40000) by (nonlinear_arith)
                requires
                    -0x1_0000_0000 <= ay <= 0x1_0000_0000 && 0 <= gh - 1 <= 0x40000;
        }
        let ny: i64 = ay * ((gh - 1) as i64);
        let dv: i64 = div_floor(ny, ry);
        proof {
            assert(ny as int / ry as int <= 0xf_ffff_ffff_ffff
                && ny as int / ry as int >= -0xf_ffff_ffff_ffff) by (nonlinear_arith)
                requires
                    -0xf_ffff_ffff_ffff <= ny <= 0xf_ffff_ffff_ffff && ry >= 1;
        }
        let row: i64 = ((gh - 1) as i64) - dv;
        (col, row)
    }

    fn line_point_ext(c0: i64, r0: i64, c1: i64, r1: i64, t: i64) -> (p: (i64, i64))
        requires
            -0x20_0000_0000_0000 <= c0 <= 0x20_0000_0000_0000,
            -0x20_0000_0000_0000 <= c1 <= 0x20_0000_0000_0000,
            -0x20_0000_0000_0000 <= r0 <= 0x20_0000_0000_0000,
            -0x20_0000_0000_0000 <= r1 <= 0x20_0000_0000_0000,
            0 <= t <= line_steps(c0 as int, r0 as int, c1 as int, r1 as int),
        ensures
            (p.0 as int, p.1 as int)
                == line_point(c0 as int, r0 as int, c1 as int, r1 as int, t as int),
            p.0 <= c0 || p.0 <= c1,
            p.0 >= c0 || p.0 >= c1,
            p.1 <= r0 || p.1 <= r1,
            p.1 >= r0 || p.1 >= r1,
    {
        let dc: i64 = if c1 >= c0 { c1 - c0 } else { c0 - c1 };
        let dr: i64 = if r1 >= r0 { r1 - r0 } else { r0 - r1 };
        let s: i64 = if dc >= dr { dc } else { dr };
        if s == 0 {
            return (c0, r0);
        }
        proof {
            lemma_line_offset_bound(dc as int, t as int, s as int);
            lemma_line_offset_bound(dr as int, t as int, s as int);
            assert(dc as int * t as int <= 0x40_0000_0000_0000 * 0x40_0000_0000_0000
                && dc as int * t as int >= 0) by (nonlinear_arith)
                requires 0 <= dc as int <= 0x40_0000_0000_0000
                    && 0 <= t as int <= 0x40_0000_0000_0000;
            assert(dr as int * t as int <= 0x40_0000_0000_0000 * 0x40_0000_0000_0000
                && dr as int * t as int >= 0) by (nonlinear_arith)
                requires 0 <= dr as int <= 0x40_0000_0000_0000
                    && 0 <= t as int <= 0x40_0000_0000_0000;
        }
        let oc: i64 = (((dc as i128) * (t as i128)) / (s as i128)) as i64;
        let or_: i64 = (((dr as i128) * (t as i128)) / (s as i128)) as i64;
        proof {
            let ic0 = c0 as int;
            let ic1 = c1 as int;
            let ir0 = r0 as int;
            let ir1 = r1 as int;
            assert(dc as int == abs_i(ic1 - ic0));
            assert(dr as int == abs_i(ir1 - ir0));
            assert(s as int == line_steps(ic0, ir0, ic1, ir1));
            assert(oc as int == abs_i(ic1 - ic0) * (t as int) / (s as int));
            assert(or_ as int == abs_i(ir1 - ir0) * (t as int) / (s as int));
            let qc = abs_i(ic1 - ic0) * (t as int) / (s as int);
            let qr = abs_i(ir1 - ir0) * (t as int) / (s as int);
            assert(1int * qc == qc && (-1int) * qc == -qc) by (nonlinear_arith);
            assert(1int * qr == qr && (-1int) * qr == -qr) by (nonlinear_arith);
            if ic1 > ic0 {
                assert(sign_i(ic1 - ic0) == 1);
                assert(sign_i(ic1 - ic0) * qc == oc as int);
            } else if ic1 < ic0 {
                assert(sign_i(ic1 - ic0) == -1);
                assert(sign_i(ic1 - ic0) * qc == -(oc as int));
            } else {
                assert(abs_i(ic1 - ic0) == 0);
                assert(0int * (t as int) == 0) by (nonlinear_arith);
                assert(oc as int == 0);
            }
            if ir1 > ir0 {
                assert(sign_i(ir1 - ir0) == 1);
                assert(sign_i(ir1 - ir0) * qr == or_ as int);
            } else if ir1 < ir0 {
                assert(sign_i(ir1 - ir0) == -1);
                assert(sign_i(ir1 - ir0) * qr == -(or_ as int));
            } else {
                assert(abs_i(ir1 - ir0) == 0);
                assert(0int * (t as int) == 0) by (nonlinear_arith);
                assert(or_ as int == 0);
            }
        }
        let col: i64 = if c1 >= c0 { c0 + oc } else { c0 - oc };
        let row: i64 = if r1 >= r0 { r0 + or_ } else { r0 - or_ };
        (col, row)
    }

    /// Draw a straight line between two logical points on the top layer by
    /// incremental interpolation at dot resolution: exactly the line's
    /// interpolation points that fall on the grid are added to the layer's
    /// dots, and each touched cell takes the line's color. A segment that
    /// leaves the domain is thereby clipped to the target: its in-domain
    /// portion is drawn, the rest dropped, and nothing ever fails.
    #[verifier::rlimit(100)]
    pub fn draw_line(&mut self, x1: i32, y1: i32, x2: i32, y2: i32, color: Color)
        requires
            old(self).wf(),
        ensures
            final(self).wf(),
            final(self).same_shape(*old(self)),
            final(self).top().overlay == old(self).top().overlay,
            ({
                let c0 = project_col(old(self).bounds, old(self).grid_w(), x1 as int);
                let r0 = project_row(old(self).bounds, old(self).grid_h(), y1 as int);
                let c1 = project_col(old(self).bounds, old(self).grid_w(), x2 as int);
                let r1 = project_row(old(self).bounds, old(self).grid_h(), y2 as int);
                let s = line_steps(c0, r0, c1, r1);
                &&& (forall|c2: int, r2: int|
                    0 <= c2 < old(self).grid_w() && 0 <= r2 < old(self).grid_h() ==>
                        #[trigger] final(self).top().dot_set(old(self).width as int, c2, r2)
                            == (old(self).top().dot_set(old(self).width as int, c2, r2)
                                || on_line(c0, r0, c1, r1, s + 1, c2, r2)))
                &&& (forall|ci: int| 0 <= ci < old(self).cells() ==>
                    #[trigger] final(self).top().colors[ci]
                        == (if line_in_cell(c0, r0, c1, r1, s + 1, old(self).width as int,
                            old(self).grid_w(), old(self).grid_h(), ci) {
                        color
                    } else {
                        old(self).top().colors[ci]
                    }))
            }),
    {
        let gw: u32 = 2 * (self.width as u32);
        let gh: u32 = 4 * (self.height as u32);
        let p0 = Self::project_ext(self.bounds, gw, gh, x1, y1);
        let p1 = Self::project_ext(self.bounds, gw, gh, x2, y2);
        let (c0, r0) = p0;
        let (c1, r1) = p1;
        let dc: i64 = if c1 >= c0 { c1 - c0 } else { c0 - c1 };
        let dr: i64 = if r1 >= r0 { r1 - r0 } else { r0 - r1 };
        let s: i64 = if dc >= dr { dc } else { dr };
        let ghost gc0 = c0 as int;
        let ghost gr0 = r0 as int;
        let ghost gc1 = c1 as int;
        let ghost gr1 = r1 as int;
        let ghost start = *self;

        // The window of interpolation steps whose major-axis coordinate lies
        // on the grid; outside it no interpolation point can be a grid dot.
        let (m0, m1, glen): (i64, i64, i64) = if dc >= dr {
            (c0, c1, gw as i64)
        } else {
            (r0, r1, gh as i64)
        };
        let mut t_lo: i64 = 0;
        let mut t_hi: i64 = s;
        if m1 >= m0 {
            if 0 - m0 > t_lo {
                t_lo = 0 - m0;
            }
            if glen - 1 - m0 < t_hi {
                t_hi = glen - 1 - m0;
            }
        } else {
            if m0 - (glen - 1) > t_lo {
                t_lo = m0 - (glen - 1);
            }
            if m0 < t_hi {
                t_hi = m0;
            }
        }
        if t_lo > s {
            t_lo = s + 1;
        }
        proof {
            assert forall|c2: int, r2: int| 0 <= c2 < gw as int && 0 <= r2 < gh as int
                implies !on_line(gc0, gr0, gc1, gr1, t_lo as int, c2, r2) by {
                if on_line(gc0, gr0, gc1, gr1, t_lo as int, c2, r2) {
                    let t3 = choose|t3: int|
                        0 <= t3 < t_lo as int
                            && #[trigger] line_point(gc0, gr0, gc1, gr1, t3) == (c2, r2);
                    lemma_line_major_coord(gc0, gr0, gc1, gr1, t3);
                    assert(false);
                }
            }
        }
        let mut t: i64 = t_lo;
        while t <= t_hi
            invariant
                self.wf(),
                start.wf(),
                self.same_shape(start),
                self.top().overlay == start.top().overlay,
                self.width == start.width,
                self.height == start.height,
                -0x20_0000_0000_0000 <= c0 <= 0x20_0000_0000_0000,
                -0x20_0000_0000_0000 <= c1 <= 0x20_0000_0000_0000,
                -0x20_0000_0000_0000 <= r0 <= 0x20_0000_0000_0000,
                -0x20_0000_0000_0000 <= r1 <= 0x20_0000_0000_0000,
                gc0 == c0 as int && gr0 == r0 as int && gc1 == c1 as int && gr1 == r1 as int,
                s as int == line_steps(gc0, gr0, gc1, gr1),
                gw as int == start.grid_w(),
                gh as int == start.grid_h(),
                gw >= 1 && gh >= 1,
                start.grid_w() <= 0x40000,
                start.grid_h() <= 0x40000,
                t_lo <= t,
                t <= s + 1,
                t_hi <= s,
                0 <= t_lo,
                forall|c2: int, r2: int|
                    0 <= c2 < start.grid_w() && 0 <= r2 < start.grid_h() ==>
                        #[trigger] self.top().dot_set(start.width as int, c2, r2)
                            == (start.top().dot_set(start.width as int, c2, r2)
                                || on_line(gc0, gr0, gc1, gr1, t as int, c2, r2)),
                forall|ci: int| 0 <= ci < start.cells() ==>
                    #[trigger] self.top().colors[ci]
                        == (if line_in_cell(gc0, gr0, gc1, gr1, t as int, start.width as int,
                            start.grid_w(), start.grid_h(), ci) {
                        color
                    } else {
                        start.top().colors[ci]
                    }),
            decreases t_hi + 1 - t,
        {
            let p = Self::line_point_ext(c0, r0, c1, r1, t);
            let ghost before = *self;
            if 0 <= p.0 && p.0 < gw as i64 && 0 <= p.1 && p.1 < gh as i64 {
                self.set_dot(p.0 as u32, p.1 as u32, color);
            }
            proof {
                assert forall|c2: int, r2: int|
                    0 <= c2 < start.grid_w() && 0 <= r2 < start.grid_h()
                        implies #[trigger] self.top().dot_set(start.width as int, c2, r2)
                            == (start.top().dot_set(start.width as int, c2, r2)
                                || on_line(gc0, gr0, gc1, gr1, t + 1, c2, r2)) by {
                    if self.top().dot_set(start.width as int, c2, r2) {
                        if !before.top().dot_set(start.width as int, c2, r2) {
                            assert((c2, r2) == line_point(gc0, gr0, gc1, gr1, t as int));
                            assert(on_line(gc0, gr0, gc1, gr1, t + 1, c2, r2));
                        } else {
                            if !start.top().dot_set(start.width as int, c2, r2) {
                                assert(on_line(gc0, gr0, gc1, gr1, t as int, c2, r2));
                                let t3 = choose|t3: int|
                                    0 <= t3 < t as int
                                        && #[trigger] line_point(gc0, gr0, gc1, gr1, t3)
                                            == (c2, r2);
                                assert(on_line(gc0, gr0, gc1, gr1, t + 1, c2, r2));
                            }
                        }
                    } else {
                        if on_line(gc0, gr0, gc1, gr1, t + 1, c2, r2) {
                            let t3 = choose|t3: int|
                                0 <= t3 < t + 1
                                    && #[trigger] line_point(gc0, gr0, gc1, gr1, t3)
                                        == (c2, r2);
                            if t3 < t as int {
                                assert(on_line(gc0, gr0, gc1, gr1, t as int, c2, r2));
                                assert(before.top().dot_set(start.width as int, c2, r2));
                            } else {
                                assert((c2, r2) == line_point(gc0, gr0, gc1, gr1, t as int));
                                assert(0 <= p.0 && p.0 < gw as i64 && 0 <= p.1
                                    && p.1 < gh as i64);
                                assert(self.top().dot_set(start.width as int, c2, r2));
                            }
                            assert(false);
                        }
                    }
                }
                let gw_ = start.grid_w();
                let gh_ = start.grid_h();
                let w_ = start.width as int;
                assert forall|ci: int| 0 <= ci < start.cells()
                    implies #[trigger] self.top().colors[ci]
                        == (if line_in_cell(gc0, gr0, gc1, gr1, t + 1, w_, gw_, gh_, ci) {
                        color
                    } else {
                        start.top().colors[ci]
                    }) by {
                    if 0 <= p.0 && p.0 < gw as i64 && 0 <= p.1 && p.1 < gh as i64
                        && ci == cell_of(w_, p.0 as int, p.1 as int) {
                        assert(line_point(gc0, gr0, gc1, gr1, t as int)
                            == (p.0 as int, p.1 as int));
                        assert(on_line(gc0, gr0, gc1, gr1, t + 1, p.0 as int, p.1 as int));
                        assert(line_in_cell(gc0, gr0, gc1, gr1, t + 1, w_, gw_, gh_, ci));
                    } else {
                        if line_in_cell(gc0, gr0, gc1, gr1, t + 1, w_, gw_, gh_, ci)
                            && !line_in_cell(gc0, gr0, gc1, gr1, t as int, w_, gw_, gh_, ci) {
                            let (c3, r3) = choose|c3: int, r3: int|
                                0 <= c3 < gw_ && 0 <= r3 < gh_
                                    && #[trigger] cell_of(w_, c3, r3) == ci
                                    && on_line(gc0, gr0, gc1, gr1, t + 1, c3, r3);
                            let t3 = choose|t3: int|
                                0 <= t3 < t + 1
                                    && #[trigger] line_point(gc0, gr0, gc1, gr1, t3)
                                        == (c3, r3);
                            if t3 < t as int {
                                assert(on_line(gc0, gr0, gc1, gr1, t as int, c3, r3));
                                assert(line_in_cell(gc0, gr0, gc1, gr1, t as int, w_, gw_,
                                    gh_, ci));
                            } else {
                                assert((c3, r3) == line_point(gc0, gr0, gc1, gr1, t as int));
                                assert(0 <= p.0 && p.0 < gw as i64 && 0 <= p.1
                                    && p.1 < gh as i64);
                                assert(ci == cell_of(w_, p.0 as int, p.1 as int));
                            }
                            assert(false);
                        }
                    }
                }
            }
            t = t + 1;
        }
        proof {
            let t_end = t as int;
            assert forall|c2: int, r2: int|
                0 <= c2 < start.grid_w() && 0 <= r2 < start.grid_h()
                    implies (on_line(gc0, gr0, gc1, gr1, s + 1, c2, r2)
                        == on_line(gc0, gr0, gc1, gr1, t_end, c2, r2)) by {
                if on_line(gc0, gr0, gc1, gr1, s + 1, c2, r2) {
                    let t3 = choose|t3: int|
                        0 <= t3 < s + 1
                            && #[trigger] line_point(gc0, gr0, gc1, gr1, t3) == (c2, r2);
                    if !(t3 < t_end) {
                        lemma_line_major_coord(gc0, gr0, gc1, gr1, t3);
                        assert(false);
                    }
                    assert(on_line(gc0, gr0, gc1, gr1, t_end, c2, r2));
                }
                if on_line(gc0, gr0, gc1, gr1, t_end, c2, r2) {
                    let t3 = choose|t3: int|
                        0 <= t3 < t_end
                            && #[trigger] line_point(gc0, gr0, gc1, gr1, t3) == (c2, r2);
                    assert(t3 < s + 1);
                    assert(on_line(gc0, gr0, gc1, gr1, s + 1, c2, r2));
                }
            }
            let gw_ = start.grid_w();
            let gh_ = start.grid_h();
            let w_ = start.width as int;
            assert forall|ci: int| 0 <= ci < start.cells()
                implies (line_in_cell(gc0, gr0, gc1, gr1, s + 1, w_, gw_, gh_, ci)
                    == line_in_cell(gc0, gr0, gc1, gr1, t_end, w_, gw_, gh_, ci)) by {
                if line_in_cell(gc0, gr0, gc1, gr1, s + 1, w_, gw_, gh_, ci) {
                    let (c3, r3) = choose|c3: int, r3: int|
                        0 <= c3 < gw_ && 0 <= r3 < gh_
                            && #[trigger] cell_of(w_, c3, r3) == ci
                            && on_line(gc0, gr0, gc1, gr1, s + 1, c3, r3);
                    assert(on_line(gc0, gr0, gc1, gr1, t_end, c3, r3));
                    assert(line_in_cell(gc0, gr0, gc1, gr1, t_end, w_, gw_, gh_, ci));
                }
                if line_in_cell(gc0, gr0, gc1, gr1, t_end, w_, gw_, gh_, ci) {
                    let (c3, r3) = choose|c3: int, r3: int|
                        0 <= c3 < gw_ && 0 <= r3 < gh_
                            && #[trigger] cell_of(w_, c3, r3) == ci
                            && on_line(gc0, gr0, gc1, gr1, t_end, c3, r3);
                    assert(on_line(gc0, gr0, gc1, gr1, s + 1, c3, r3));
                    assert(line_in_cell(gc0, gr0, gc1, gr1, s + 1, w_, gw_, gh_, ci));
                }
            }
        }
    }
}


/// What a composited canvas cell shows: overlay text or braille dots.
pub enum Glyph {
    Text(char),
    Dots(u8),
}

/// The topmost visible content of cell `ci`: the latest layer's overlay
/// text if any, else that layer's dots if any are set, else whatever the
/// layers below show.
pub open spec fn composite_top(layers: Seq<Layer>, ci: int) -> Option<(Glyph, Color)>
    decreases layers.len(),
{
    if layers.len() == 0 {
        None
    } else {
        let l = layers.last();
        match l.overlay[ci] {
            Some(p) => Some((Glyph::Text(p.0), p.1)),
            None => {
                if l.masks[ci] != 0 {
                    Some((Glyph::Dots(l.masks[ci]), l.colors[ci]))
                } else {
                    composite_top(layers.drop_last(), ci)
                }
            }
        }
    }
}

/// What the buffer cell painted for canvas cell `ci` must hold: blank for an
/// empty cell, the overlay character, or the braille symbol whose code point
/// encodes exactly the dot mask, in the composited color.
pub open spec fn canvas_cell_ok(layers: Seq<Layer>, style: Style, ci: int, cell: Cell) -> bool {
    match composite_top(layers, ci) {
        None => cell == (Cell { symbol: ' ', style }),
        Some((g, color)) => match g {
            Glyph::Text(ch) => cell == (Cell { symbol: ch, style: crate::style::spec_with_fg(style, color) }),
            Glyph::Dots(m) => cell.symbol as u32 == 0x2800 + m
                && cell.style == crate::style::spec_with_fg(style, color),
        },
    }
}

/// Relies on char::from_u32 of std: it returns the character with exactly
/// the given code point, and returns nothing if and only if the value is a
/// surrogate or lies beyond the highest code point.
pub assume_specification[ char::from_u32 ](i: u32) -> (r: Option<char>)
    ensures
        r is Some <==> (i < 0xD800 || (0xE000 <= i && i <= 0x10FFFF)),
        r is Some ==> r.unwrap() as u32 == i,
;

/// The braille character whose dots are exactly the bits of `mask`.
fn braille_glyph(mask: u8) -> (c: char)
    ensures
        c as u32 == 0x2800 + mask,
{
    match char::from_u32(0x2800 + mask as u32) {
        Some(c) => c,
        None => ' ',
    }
}

fn composite_cell_at(cv: &Canvas, ci: usize, style: Style) -> (c: Cell)
    requires
        cv.wf(),
        ci < cv.cells(),
    ensures
        canvas_cell_ok(cv.layers@, style, ci as int, c),
{
    let mut k: usize = cv.layers.len();
    proof {
        assert(cv.layers@.subrange(0, k as int) =~= cv.layers@);
    }
    while k > 0
        invariant
            cv.wf(),
            ci < cv.cells(),
            k <= cv.layers@.len(),
            composite_top(cv.layers@, ci as int)
                == composite_top(cv.layers@.subrange(0, k as int), ci as int),
        decreases k,
    {
        proof {
            assert(cv.layers@.subrange(0, k as int).drop_last()
                =~= cv.layers@.subrange(0, k - 1));
            assert(cv.layers@.subrange(0, k as int).last() == cv.layers@[k - 1]);
        }
        let l = &cv.layers[k - 1];
        match l.overlay[ci] {
            Some(p) => {
                return Cell { symbol: p.0, style: style.with_fg(p.1) };
            }
            None => {
                let m = l.masks[ci];
                if m != 0 {
                    return Cell { symbol: braille_glyph(m), style: style.with_fg(l.colors[ci]) };
                }
            }
        }
        k = k - 1;
    }
    Cell { symbol: ' ', style }
}

/// Paint the composited canvas over `area`: one buffer cell per canvas cell,
/// later layers over earlier ones, blank where nothing was drawn. Cells
/// outside `area` are untouched.
pub fn render_canvas(buf: &mut Buffer, area: Rect, cv: &Canvas, style: Style)
    requires
        old(buf).wf(),
        area.wf(),
        cv.wf(),
        cv.width == area.width,
        cv.height == area.height,
    ensures
        final(buf).wf(),
        final(buf).area == old(buf).area,
        forall|x: int, y: int| old(buf).area.spec_contains(x, y) ==>
            #[trigger] final(buf).cell_at(x, y) == (if area.spec_contains(x, y) {
                final(buf).cell_at(x, y)
            } else {
                old(buf).cell_at(x, y)
            }),
        forall|x: int, y: int|
            old(buf).area.spec_contains(x, y) && area.spec_contains(x, y) ==>
                canvas_cell_ok(
                    cv.layers@,
                    style,
                    (y - area.y) * (area.width as int) + (x - area.x),
                    #[trigger] final(buf).cell_at(x, y),
                ),
{
    let mut y: u16 = area.y;
    while y < area.y + area.height
        invariant
            old(buf).wf(),
            buf.wf(),
            buf.area == old(buf).area,
            area.wf(),
            cv.wf(),
            cv.width == area.width,
            cv.height == area.height,
            area.y <= y <= area.y + area.height,
            forall|x2: int, y2: int| old(buf).area.spec_contains(x2, y2) ==>
                #[trigger] buf.cell_at(x2, y2)
                    == (if area.spec_contains(x2, y2) && y2 < y as int {
                    buf.cell_at(x2, y2)
                } else {
                    old(buf).cell_at(x2, y2)
                }),
            forall|x2: int, y2: int|
                old(buf).area.spec_contains(x2, y2) && area.spec_contains(x2, y2)
                    && y2 < y as int ==>
                    canvas_cell_ok(
                        cv.layers@,
                        style,
                        (y2 - area.y) * (area.width as int) + (x2 - area.x),
                        #[trigger] buf.cell_at(x2, y2),
                    ),
        decreases area.y + area.height - y,
    {
        let mut x: u16 = area.x;
        while x < area.x + area.width
            invariant
                old(buf).wf(),
                buf.wf(),
                buf.area == old(buf).area,
                area.wf(),
                cv.wf(),
                cv.width == area.width,
                cv.height == area.height,
                area.y <= y < area.y + area.height,
                area.x <= x <= area.x + area.width,
                forall|x2: int, y2: int| old(buf).area.spec_contains(x2, y2) ==>
                    #[trigger] buf.cell_at(x2, y2)
                        == (if area.spec_contains(x2, y2)
                            && (y2 < y as int || (y2 == y as int && x2 < x as int)) {
                        buf.cell_at(x2, y2)
                    } else {
                        old(buf).cell_at(x2, y2)
                    }),
                forall|x2: int, y2: int|
                    old(buf).area.spec_contains(x2, y2) && area.spec_contains(x2, y2)
                        && (y2 < y as int || (y2 == y as int && x2 < x as int)) ==>
                        canvas_cell_ok(
                            cv.layers@,
                            style,
                            (y2 - area.y) * (area.width as int) + (x2 - area.x),
                            #[trigger] buf.cell_at(x2, y2),
                        ),
            decreases area.x + area.width - x,
        {
            proof {
                assert((y as int - area.y) * (area.width as int) + (x as int - area.x)
                    < area.width * area.height
                    && area.width * area.height <= 0xffff * 0xffff
                    && 0 <= (y as int - area.y) * (area.width as int)) by (nonlinear_arith)
                    requires
                        0 <= (y as int - area.y) < area.height
                            && 0 <= (x as int - area.x) < area.width
                            && area.width >= 1
                            && area.width <= 0xffff && area.height <= 0xffff;
            }
            let ci: usize = ((y - area.y) as usize) * (area.width as usize)
                + ((x - area.x) as usize);
            proof {
                assert(cv.cells() == cv.width * cv.height);
            }
            let c = composite_cell_at(cv, ci, style);
            buf.set(x, y, c);
            x = x + 1;
        }
        y = y + 1;
    }
}

} // verus!

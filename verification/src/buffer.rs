//! The frame buffer: a rectangular grid of styled character cells addressed
//! by absolute terminal coordinates.

use vstd::prelude::*;
use crate::geometry::Rect;
use crate::style::{Style, style_plain};

verus! {

/// One terminal cell: a symbol and its style.
#[derive(Clone, Copy, Debug, PartialEq, Eq)]
pub struct Cell {
    pub symbol: char,
    pub style: Style,
}

/// A blank cell: a space, white on black.
pub open spec fn blank_cell() -> Cell {
    Cell { symbol: ' ', style: style_plain() }
}

impl Cell {
    pub fn blank() -> (r: Cell)
        ensures
            r == blank_cell(),
    {
        Cell { symbol: ' ', style: Style::plain() }
    }
}

/// A rectangular grid of cells covering `area`, stored row by row.
pub struct Buffer {
    pub area: Rect,
    pub cells: Vec<Cell>,
}

impl Buffer {
    pub open spec fn wf(self) -> bool {
        &&& self.area.wf()
        &&& self.cells.len() == self.area.width * self.area.height
    }

    /// Index of the cell at absolute coordinates (x, y) in row-major order.
    pub open spec fn spec_idx(self, x: int, y: int) -> int {
        (y - self.area.y) * self.area.width + (x - self.area.x)
    }

    /// The cell at absolute coordinates (x, y).
    pub open spec fn cell_at(self, x: int, y: int) -> Cell {
        self.cells[self.spec_idx(x, y)]
    }

    /// A buffer over `area` in which every cell is blank.
    pub fn new(area: Rect) -> (r: Buffer)
        requires
            area.wf(),
        ensures
            r.wf(),
            r.area == area,
            forall|x: int, y: int| area.spec_contains(x, y) ==> r.cell_at(x, y) == blank_cell(),
    {
        proof {
            assert(area.width * area.height <= 0xffff * 0xffff) by (nonlinear_arith)
                requires area.width <= 0xffff && area.height <= 0xffff;
        }
        let count: usize = (area.width as usize) * (area.height as usize);
        let mut cells: Vec<Cell> = Vec::new();
        let mut i: usize = 0;
        while i < count
            invariant
                i <= count,
                cells@.len() == i,
                forall|j: int| 0 <= j < i ==> #[trigger] cells@[j] == blank_cell(),
            decreases count - i,
        {
            cells.push(Cell::blank());
            i = i + 1;
        }
        let r = Buffer { area, cells };
        proof {
            assert forall|x: int, y: int| area.spec_contains(x, y)
                implies 0 <= r.spec_idx(x, y) < count as int by {
                assert(count == area.width * area.height);
                lemma_row_major_bounds(
                    x - area.x,
                    y - area.y,
                    area.width as int,
                    area.height as int,
                );
            }
        }
        r
    }

    /// Write cell `c` at (x, y); coordinates outside the buffer's area are
    /// ignored, so every write stays inside the buffer.
    pub fn set(&mut self, x: u16, y: u16, c: Cell)
        requires
            old(self).wf(),
        ensures
            final(self).wf(),
            final(self).area == old(self).area,
            old(self).area.spec_contains(x as int, y as int) ==>
                final(self).cell_at(x as int, y as int) == c,
            forall|x2: int, y2: int|
                old(self).area.spec_contains(x2, y2) && (x2 != x as int || y2 != y as int)
                    ==> #[trigger] final(self).cell_at(x2, y2) == old(self).cell_at(x2, y2),
            !old(self).area.spec_contains(x as int, y as int) ==>
                *final(self) == *old(self),
    {
        let a = self.area;
        if x >= a.x && x < a.x + a.width && y >= a.y && y < a.y + a.height {
            proof {
                lemma_row_major_bounds(
                    x - a.x,
                    y - a.y,
                    a.width as int,
                    a.height as int,
                );
            }
            let i: usize = ((y - a.y) as usize) * (a.width as usize) + ((x - a.x) as usize);
            proof {
                assert forall|x2: int, y2: int|
                    a.spec_contains(x2, y2) && (x2 != x as int || y2 != y as int)
                        implies old(self).spec_idx(x2, y2) != i as int
                            && 0 <= old(self).spec_idx(x2, y2) < old(self).cells@.len() by {
                    lemma_row_major_bounds(
                        x2 - a.x,
                        y2 - a.y,
                        a.width as int,
                        a.height as int,
                    );
                    lemma_row_major_injective(
                        x2 - a.x,
                        y2 - a.y,
                        x - a.x,
                        y - a.y,
                        a.width as int,
                    );
                }
            }
            self.cells[i] = c;
        }
    }

    /// Read the cell at (x, y), or nothing when (x, y) lies outside the area.
    pub fn get(&self, x: u16, y: u16) -> (r: Option<Cell>)
        requires
            self.wf(),
        ensures
            self.area.spec_contains(x as int, y as int) ==>
                r == Some(self.cell_at(x as int, y as int)),
            !self.area.spec_contains(x as int, y as int) ==> r is None,
    {
        let a = self.area;
        if x >= a.x && x < a.x + a.width && y >= a.y && y < a.y + a.height {
            proof {
                lemma_row_major_bounds(x - a.x, y - a.y, a.width as int, a.height as int);
            }
            let i: usize = ((y - a.y) as usize) * (a.width as usize) + ((x - a.x) as usize);
            Some(self.cells[i])
        } else {
            None
        }
    }
}

proof fn lemma_row_major_bounds(dx: int, dy: int, w: int, h: int)
    requires
        0 <= dx < w,
        0 <= dy < h,
    ensures
        0 <= dy * w + dx < w * h,
{
    assert(0 <= dy * w + dx < w * h) by (nonlinear_arith)
        requires 0 <= dx < w && 0 <= dy < h;
}

proof fn lemma_row_major_injective(dx1: int, dy1: int, dx2: int, dy2: int, w: int)
    requires
        0 <= dx1 < w,
        0 <= dx2 < w,
        0 <= dy1,
        0 <= dy2,
        dx1 != dx2 || dy1 != dy2,
    ensures
        dy1 * w + dx1 != dy2 * w + dx2,
{
    assert(dy1 * w + dx1 != dy2 * w + dx2) by (nonlinear_arith)
        requires
            0 <= dx1 < w && 0 <= dx2 < w && 0 <= dy1 && 0 <= dy2
                && (dx1 != dx2 || dy1 != dy2);
}

} // verus!

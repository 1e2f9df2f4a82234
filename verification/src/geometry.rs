//! Rectangles, split directions and sizing constraints: the layout engine
//! that partitions a rectangle into an ordered sequence of sub-rectangles.

use vstd::prelude::*;

verus! {

/// An axis-aligned region of terminal cells.
#[derive(Clone, Copy, Debug, PartialEq, Eq, Structural)]
pub struct Rect {
    pub x: u16,
    pub y: u16,
    pub width: u16,
    pub height: u16,
}

impl Rect {
    /// The region fits in the 16-bit cell coordinate space.
    pub open spec fn wf(self) -> bool {
        self.x + self.width <= u16::MAX && self.y + self.height <= u16::MAX
    }

    pub open spec fn spec_right(self) -> int {
        self.x + self.width
    }

    pub open spec fn spec_bottom(self) -> int {
        self.y + self.height
    }

    /// Whether the cell at (x, y) lies inside the region.
    pub open spec fn spec_contains(self, x: int, y: int) -> bool {
        self.x <= x < self.x + self.width && self.y <= y < self.y + self.height
    }

    /// Every cell of `self` is a cell of `outer`.
    pub open spec fn within(self, outer: Rect) -> bool {
        &&& outer.x <= self.x
        &&& self.x + self.width <= outer.x + outer.width
        &&& outer.y <= self.y
        &&& self.y + self.height <= outer.y + outer.height
    }

    /// The region shrunk by `m` cells on every side, clamped so that a margin
    /// larger than the region yields a zero-sized region rather than failing.
    pub open spec fn spec_shrink(self, m: int) -> Rect {
        let mx = if m < self.width as int / 2 { m } else { self.width as int / 2 };
        let my = if m < self.height as int / 2 { m } else { self.height as int / 2 };
        Rect {
            x: (self.x + mx) as u16,
            y: (self.y + my) as u16,
            width: (self.width - 2 * mx) as u16,
            height: (self.height - 2 * my) as u16,
        }
    }

    pub fn shrink(self, m: u16) -> (r: Rect)
        requires
            self.wf(),
        ensures
            r == self.spec_shrink(m as int),
            r.wf(),
            self.x <= r.x,
            self.y <= r.y,
            r.x + r.width <= self.x + self.width,
            r.y + r.height <= self.y + self.height,
    {
        let mx: u16 = if m < self.width / 2 { m } else { self.width / 2 };
        let my: u16 = if m < self.height / 2 { m } else { self.height / 2 };
        Rect {
            x: self.x + mx,
            y: self.y + my,
            width: self.width - 2 * mx,
            height: self.height - 2 * my,
        }
    }

    pub fn contains(self, x: u16, y: u16) -> (r: bool)
        requires
            self.wf(),
        ensures
            r == self.spec_contains(x as int, y as int),
    {
        self.x <= x && x < self.x + self.width && self.y <= y && y < self.y + self.height
    }
}

} // verus!

//! Rectangles of terminal cells.

use vstd::prelude::*;

verus! {

/// A rectangle of terminal cells.
#[derive(Clone, Copy, Debug, PartialEq, Eq, Structural)]
pub struct Rect {
    /// Column of the left edge.
    pub x: u16,
    /// Row of the top edge.
    pub y: u16,
    /// Number of columns.
    pub width: u16,
    /// Number of rows.
    pub height: u16,
}

/// The smaller of two numbers.
pub open spec fn min(a: int, b: int) -> int {
    if a <= b {
        a
    } else {
        b
    }
}

/// The larger of two numbers.
pub open spec fn max(a: int, b: int) -> int {
    if a >= b {
        a
    } else {
        b
    }
}

/// `a - b`, or nothing left where `b` is larger.
pub open spec fn less(a: int, b: int) -> int {
    if a >= b {
        a - b
    } else {
        0
    }
}

/// The rectangle at (`x`, `y`) of the given size, cut so that its right and
/// bottom edges are coordinates.
pub open spec fn rect(x: int, y: int, width: int, height: int) -> Rect {
    Rect {
        x: x as u16,
        y: y as u16,
        width: min(width, u16::MAX - x) as u16,
        height: min(height, u16::MAX - y) as u16,
    }
}

/// The rectangle without cells at the origin.
pub open spec fn no_rect() -> Rect {
    Rect { x: 0, y: 0, width: 0, height: 0 }
}

impl Rect {
    /// The column behind the right edge.
    pub open spec fn end_x(self) -> int {
        self.x + self.width
    }

    /// The row below the bottom edge.
    pub open spec fn end_y(self) -> int {
        self.y + self.height
    }

    /// Both edges are coordinates.
    pub open spec fn fits(self) -> bool {
        self.end_x() <= u16::MAX && self.end_y() <= u16::MAX
    }

    /// Every cell of `self` is a cell of `outer`.
    pub open spec fn inside(self, outer: Rect) -> bool {
        &&& outer.x <= self.x
        &&& outer.y <= self.y
        &&& self.end_x() <= outer.end_x()
        &&& self.end_y() <= outer.end_y()
    }

    /// The rectangle at (`x`, `y`) of the given size, cut so that its right and
    /// bottom edges are coordinates.
    pub fn new(x: u16, y: u16, width: u16, height: u16) -> (out: Rect)
        ensures
            out == rect(x as int, y as int, width as int, height as int),
            out.fits(),
    {
        let max_width: u16 = u16::MAX - x;
        let max_height: u16 = u16::MAX - y;
        Rect {
            x,
            y,
            width: if width > max_width {
                max_width
            } else {
                width
            },
            height: if height > max_height {
                max_height
            } else {
                height
            },
        }
    }
}

impl Default for Rect {
    fn default() -> (out: Rect)
        ensures
            out == no_rect(),
    {
        Rect { x: 0, y: 0, width: 0, height: 0 }
    }
}

/// A rectangle whose edges are coordinates is the one that was asked for; of a
/// larger one the part is left that fits.
pub proof fn law_rectangles_are_cut_to_the_coordinates(x: int, y: int, width: int, height: int)
    requires
        0 <= x <= u16::MAX,
        0 <= y <= u16::MAX,
        0 <= width,
        0 <= height,
    ensures
        ({
            let out = rect(x, y, width, height);
            &&& out.x == x && out.y == y
            &&& out.fits()
            &&& x + width <= u16::MAX ==> out.width == width
            &&& x + width > u16::MAX ==> out.end_x() == u16::MAX
            &&& y + height <= u16::MAX ==> out.height == height
            &&& y + height > u16::MAX ==> out.end_y() == u16::MAX
        }),
{
}

} // verus!

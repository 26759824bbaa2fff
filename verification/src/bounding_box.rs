//! Axis-aligned rectangles on an unsigned pixel grid.

use vstd::prelude::*;

verus! {

/// A rectangle given by its top-left corner and its extent.
#[derive(Debug, Clone, Copy, PartialEq, Eq, Structural)]
pub struct BoundingBox {
    pub x: u32,
    pub y: u32,
    pub w: u32,
    pub h: u32,
}

impl BoundingBox {
    /// The column just past the right edge, as a mathematical integer.
    pub open spec fn spec_right(self) -> int {
        self.x + self.w
    }

    /// The row just past the bottom edge, as a mathematical integer.
    pub open spec fn spec_bottom(self) -> int {
        self.y + self.h
    }

    /// The rectangle with its top-left corner at (`x`, `y`), `w` wide and `h` high.
    pub fn new(x: u32, y: u32, w: u32, h: u32) -> (b: BoundingBox)
        ensures
            b == (BoundingBox { x, y, w, h }),
    {
        BoundingBox { x, y, w, h }
    }

    /// The same rectangle at column `x`.
    pub fn with_x(self, x: u32) -> (b: BoundingBox)
        ensures
            b == (BoundingBox { x, ..self }),
    {
        BoundingBox { x, ..self }
    }

    /// The same rectangle at row `y`.
    pub fn with_y(self, y: u32) -> (b: BoundingBox)
        ensures
            b == (BoundingBox { y, ..self }),
    {
        BoundingBox { y, ..self }
    }

    /// The rectangle made `w` wide.
    pub fn with_w(self, w: u32) -> (b: BoundingBox)
        ensures
            b == (BoundingBox { w, ..self }),
    {
        BoundingBox { w, ..self }
    }

    /// The rectangle made `h` high.
    pub fn with_h(self, h: u32) -> (b: BoundingBox)
        ensures
            b == (BoundingBox { h, ..self }),
    {
        BoundingBox { h, ..self }
    }

    /// Moves the left edge to `left` and keeps the right edge where it is.
    pub fn with_left(self, left: u32) -> (b: BoundingBox)
        requires
            left <= self.spec_right() <= left + u32::MAX,
        ensures
            b.x == left,
            b.spec_right() == self.spec_right(),
            b.y == self.y,
            b.h == self.h,
    {
        let w: u32 = if left > self.x {
            self.w - (left - self.x)
        } else {
            self.w + (self.x - left)
        };
        BoundingBox { x: left, w, ..self }
    }

    /// Moves the right edge to `right` and keeps the left edge where it is.
    pub fn with_right(self, right: u32) -> (b: BoundingBox)
        requires
            self.x <= right,
        ensures
            b.spec_right() == right,
            b == (BoundingBox { w: b.w, ..self }),
    {
        BoundingBox { w: right - self.x, ..self }
    }

    /// Moves the top edge to `top` and keeps the bottom edge where it is.
    pub fn with_top(self, top: u32) -> (b: BoundingBox)
        requires
            top <= self.spec_bottom() <= top + u32::MAX,
        ensures
            b.y == top,
            b.spec_bottom() == self.spec_bottom(),
            b.x == self.x,
            b.w == self.w,
    {
        let h: u32 = if top > self.y {
            self.h - (top - self.y)
        } else {
            self.h + (self.y - top)
        };
        BoundingBox { y: top, h, ..self }
    }

    /// Moves the bottom edge to `bot` and keeps the top edge where it is.
    pub fn with_bottom(self, bot: u32) -> (b: BoundingBox)
        requires
            self.y <= bot,
        ensures
            b.spec_bottom() == bot,
            b == (BoundingBox { h: b.h, ..self }),
    {
        BoundingBox { h: bot - self.y, ..self }
    }

    /// The rectangle moved right by `x`.
    pub fn added_x(self, x: u32) -> (b: BoundingBox)
        requires
            self.x + x <= u32::MAX,
        ensures
            b.x == self.x + x,
            b == (BoundingBox { x: b.x, ..self }),
    {
        BoundingBox { x: self.x + x, ..self }
    }

    /// The rectangle moved down by `y`.
    pub fn added_y(self, y: u32) -> (b: BoundingBox)
        requires
            self.y + y <= u32::MAX,
        ensures
            b.y == self.y + y,
            b == (BoundingBox { y: b.y, ..self }),
    {
        BoundingBox { y: self.y + y, ..self }
    }

    /// The rectangle made wider by `w`.
    pub fn added_w(self, w: u32) -> (b: BoundingBox)
        requires
            self.w + w <= u32::MAX,
        ensures
            b.w == self.w + w,
            b == (BoundingBox { w: b.w, ..self }),
    {
        BoundingBox { w: self.w + w, ..self }
    }

    /// The rectangle made higher by `h`.
    pub fn added_h(self, h: u32) -> (b: BoundingBox)
        requires
            self.h + h <= u32::MAX,
        ensures
            b.h == self.h + h,
            b == (BoundingBox { h: b.h, ..self }),
    {
        BoundingBox { h: self.h + h, ..self }
    }

    /// The rectangle moved left by `x`.
    pub fn subbed_x(self, x: u32) -> (b: BoundingBox)
        requires
            x <= self.x,
        ensures
            b.x == self.x - x,
            b == (BoundingBox { x: b.x, ..self }),
    {
        BoundingBox { x: self.x - x, ..self }
    }

    /// The rectangle moved up by `y`.
    pub fn subbed_y(self, y: u32) -> (b: BoundingBox)
        requires
            y <= self.y,
        ensures
            b.y == self.y - y,
            b == (BoundingBox { y: b.y, ..self }),
    {
        BoundingBox { y: self.y - y, ..self }
    }

    /// The rectangle made narrower by `w`.
    pub fn subbed_w(self, w: u32) -> (b: BoundingBox)
        requires
            w <= self.w,
        ensures
            b.w == self.w - w,
            b == (BoundingBox { w: b.w, ..self }),
    {
        BoundingBox { w: self.w - w, ..self }
    }

    /// The rectangle made lower by `h`.
    pub fn subbed_h(self, h: u32) -> (b: BoundingBox)
        requires
            h <= self.h,
        ensures
            b.h == self.h - h,
            b == (BoundingBox { h: b.h, ..self }),
    {
        BoundingBox { h: self.h - h, ..self }
    }

    /// Pushes the left edge right by `amnt`; the right edge stays.
    pub fn added_left(self, amnt: u32) -> (b: BoundingBox)
        requires
            self.x + amnt <= u32::MAX,
            amnt <= self.w,
        ensures
            b.x == self.x + amnt,
            b.spec_right() == self.spec_right(),
            b.y == self.y,
            b.h == self.h,
    {
        BoundingBox { x: self.x + amnt, w: self.w - amnt, ..self }
    }

    /// Pushes the right edge right by `amnt`; the left edge stays.
    pub fn added_right(self, amnt: u32) -> (b: BoundingBox)
        requires
            self.w + amnt <= u32::MAX,
        ensures
            b.spec_right() == self.spec_right() + amnt,
            b == (BoundingBox { w: b.w, ..self }),
    {
        BoundingBox { w: self.w + amnt, ..self }
    }

    /// Pushes the top edge down by `amnt`; the bottom edge stays.
    pub fn added_top(self, amnt: u32) -> (b: BoundingBox)
        requires
            self.y + amnt <= u32::MAX,
            amnt <= self.h,
        ensures
            b.y == self.y + amnt,
            b.spec_bottom() == self.spec_bottom(),
            b.x == self.x,
            b.w == self.w,
    {
        BoundingBox { y: self.y + amnt, h: self.h - amnt, ..self }
    }

    /// Pushes the bottom edge down by `amnt`; the top edge stays.
    pub fn added_bottom(self, amnt: u32) -> (b: BoundingBox)
        requires
            self.h + amnt <= u32::MAX,
        ensures
            b.spec_bottom() == self.spec_bottom() + amnt,
            b == (BoundingBox { h: b.h, ..self }),
    {
        BoundingBox { h: self.h + amnt, ..self }
    }

    /// Pulls the left edge left by `amnt`; the right edge stays.
    pub fn subbed_left(self, amnt: u32) -> (b: BoundingBox)
        requires
            amnt <= self.x,
            self.w + amnt <= u32::MAX,
        ensures
            b.x == self.x - amnt,
            b.spec_right() == self.spec_right(),
            b.y == self.y,
            b.h == self.h,
    {
        BoundingBox { x: self.x - amnt, w: self.w + amnt, ..self }
    }

    /// Pulls the right edge left by `amnt`; the left edge stays.
    pub fn subbed_right(self, amnt: u32) -> (b: BoundingBox)
        requires
            amnt <= self.w,
        ensures
            b.spec_right() == self.spec_right() - amnt,
            b == (BoundingBox { w: b.w, ..self }),
    {
        BoundingBox { w: self.w - amnt, ..self }
    }

    /// Pulls the top edge up by `amnt`; the bottom edge stays.
    pub fn subbed_top(self, amnt: u32) -> (b: BoundingBox)
        requires
            amnt <= self.y,
            self.h + amnt <= u32::MAX,
        ensures
            b.y == self.y - amnt,
            b.spec_bottom() == self.spec_bottom(),
            b.x == self.x,
            b.w == self.w,
    {
        BoundingBox { y: self.y - amnt, h: self.h + amnt, ..self }
    }

    /// Pulls the bottom edge up by `amnt`; the top edge stays.
    pub fn subbed_bottom(self, amnt: u32) -> (b: BoundingBox)
        requires
            amnt <= self.h,
        ensures
            b.spec_bottom() == self.spec_bottom() - amnt,
            b == (BoundingBox { h: b.h, ..self }),
    {
        BoundingBox { h: self.h - amnt, ..self }
    }

    /// The row of the top edge.
    pub fn top(&self) -> (r: u32)
        ensures
            r == self.y,
    {
        self.y
    }

    /// The row just past the bottom edge.
    pub fn bottom(&self) -> (r: u32)
        requires
            self.spec_bottom() <= u32::MAX,
        ensures
            r == self.spec_bottom(),
    {
        self.y + self.h
    }

    /// The column of the left edge.
    pub fn left(&self) -> (r: u32)
        ensures
            r == self.x,
    {
        self.x
    }

    /// The column just past the right edge.
    pub fn right(&self) -> (r: u32)
        requires
            self.spec_right() <= u32::MAX,
        ensures
            r == self.spec_right(),
    {
        self.x + self.w
    }
}

} // verus!

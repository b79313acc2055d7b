//! Rectangles of cells.

use vstd::prelude::*;

verus! {

/// A rectangle of cells on the screen.
#[derive(Debug, Clone, Copy, PartialEq, Eq, Structural)]
pub struct Rect {
    pub x: u16,
    pub y: u16,
    pub width: u16,
    pub height: u16,
}

impl Rect {
    /// The rectangle at a corner, of a size.
    pub fn new(x: u16, y: u16, width: u16, height: u16) -> (r: Rect)
        ensures
            r == (Rect { x, y, width, height }),
    {
        Rect { x, y, width, height }
    }

    /// The first column to the right of it, as far as columns go.
    pub open spec fn end_x(&self) -> int {
        if self.x + self.width > u16::MAX {
            u16::MAX as int
        } else {
            self.x + self.width
        }
    }

    /// The first row under it, as far as rows go.
    pub open spec fn end_y(&self) -> int {
        if self.y + self.height > u16::MAX {
            u16::MAX as int
        } else {
            self.y + self.height
        }
    }

    /// The first column to the right of it, as far as columns go.
    pub fn right(&self) -> (r: u16)
        ensures
            r == self.end_x(),
    {
        self.x.saturating_add(self.width)
    }

    /// The first row under it, as far as rows go.
    pub fn bottom(&self) -> (r: u16)
        ensures
            r == self.end_y(),
    {
        self.y.saturating_add(self.height)
    }

    /// Whether a cell is in it.
    pub open spec fn holds(&self, x: int, y: int) -> bool {
        self.x <= x < self.end_x() && self.y <= y < self.end_y()
    }

    /// Whether a cell is in it.
    pub fn contains(&self, x: u16, y: u16) -> (r: bool)
        ensures
            r == self.holds(x as int, y as int),
    {
        x >= self.x && x < self.right() && y >= self.y && y < self.bottom()
    }

    /// What is left of it inside a margin, and nothing where the margin is too wide.
    pub open spec fn inside(&self, across: u16, down: u16) -> Rect {
        if self.width < 2 * across || self.height < 2 * down {
            Rect { x: 0, y: 0, width: 0, height: 0 }
        } else {
            Rect {
                x: (if self.x + across > u16::MAX {
                    u16::MAX as int
                } else {
                    self.x + across
                }) as u16,
                y: (if self.y + down > u16::MAX {
                    u16::MAX as int
                } else {
                    self.y + down
                }) as u16,
                width: (self.width - 2 * across) as u16,
                height: (self.height - 2 * down) as u16,
            }
        }
    }

    /// What is left of it inside a margin.
    pub fn inner(&self, across: u16, down: u16) -> (r: Rect)
        ensures
            r == self.inside(across, down),
    {
        let (w, h): (u32, u32) = (2 * across as u32, 2 * down as u32);
        if (self.width as u32) < w || (self.height as u32) < h {
            Rect { x: 0, y: 0, width: 0, height: 0 }
        } else {
            Rect {
                x: self.x.saturating_add(across),
                y: self.y.saturating_add(down),
                width: self.width - w as u16,
                height: self.height - h as u16,
            }
        }
    }

    /// What it shares with another.
    pub open spec fn met(&self, other: Rect) -> Rect {
        let left = if self.x < other.x {
            other.x as int
        } else {
            self.x as int
        };
        let top = if self.y < other.y {
            other.y as int
        } else {
            self.y as int
        };
        let right = if self.end_x() < other.end_x() {
            self.end_x()
        } else {
            other.end_x()
        };
        let bottom = if self.end_y() < other.end_y() {
            self.end_y()
        } else {
            other.end_y()
        };
        Rect {
            x: left as u16,
            y: top as u16,
            width: (if right < left {
                0
            } else {
                right - left
            }) as u16,
            height: (if bottom < top {
                0
            } else {
                bottom - top
            }) as u16,
        }
    }

    /// What it shares with another.
    pub fn intersection(&self, other: Rect) -> (r: Rect)
        ensures
            r == self.met(other),
    {
        let left: u16 = if self.x < other.x {
            other.x
        } else {
            self.x
        };
        let top: u16 = if self.y < other.y {
            other.y
        } else {
            self.y
        };
        let right: u16 = if self.right() < other.right() {
            self.right()
        } else {
            other.right()
        };
        let bottom: u16 = if self.bottom() < other.bottom() {
            self.bottom()
        } else {
            other.bottom()
        };
        Rect { x: left, y: top, width: right.saturating_sub(left), height: bottom.saturating_sub(top) }
    }

    /// Whether all of it is in `outer`.
    pub open spec fn within(&self, outer: Rect) -> bool {
        &&& outer.x <= self.x
        &&& outer.y <= self.y
        &&& self.x + self.width <= outer.x + outer.width
        &&& self.y + self.height <= outer.y + outer.height
    }
}

/// What two rectangles share is the cells that both hold.
pub proof fn what_is_shared_is_in_both(a: Rect, b: Rect, x: int, y: int)
    ensures
        a.met(b).holds(x, y) <==> a.holds(x, y) && b.holds(x, y),
{
}

/// What a margin leaves is the cells that are at least that far from every edge.
pub proof fn a_margin_is_kept_on_every_side(r: Rect, across: u16, down: u16, x: int, y: int)
    requires
        r.x + r.width <= u16::MAX,
        r.y + r.height <= u16::MAX,
    ensures
        r.inside(across, down).holds(x, y) <==> r.x + across <= x < r.x + r.width - across && r.y + down <= y < r.y + r.height
            - down,
{
}

} // verus!

//! Areas of the screen, in cells.

use vstd::prelude::*;

verus! {

/// A rectangle of cells.
#[derive(Debug, Clone, Copy, PartialEq, Eq, Structural)]
pub struct Rect {
    pub x: u16,
    pub y: u16,
    pub width: u16,
    pub height: u16,
}

/// The sum, or the greatest coordinate where the sum is none.
pub open spec fn capped(a: u16, b: u16) -> u16 {
    if a + b > u16::MAX {
        u16::MAX
    } else {
        (a + b) as u16
    }
}

impl Rect {
    /// The column right of the area.
    pub open spec fn right_edge(self) -> u16 {
        capped(self.x, self.width)
    }

    /// The row below the area.
    pub open spec fn bottom_edge(self) -> u16 {
        capped(self.y, self.height)
    }

    /// The area without its first row.
    pub open spec fn without_first_row(self) -> Rect {
        if self.height == 0 {
            self
        } else {
            Rect { y: capped(self.y, 1), height: (self.height - 1) as u16, ..self }
        }
    }

    /// The area without its last row.
    pub open spec fn without_last_row(self) -> Rect {
        if self.height == 0 {
            self
        } else {
            Rect { height: (self.height - 1) as u16, ..self }
        }
    }

    pub fn new(x: u16, y: u16, width: u16, height: u16) -> (r: Rect)
        ensures
            r == (Rect { x, y, width, height }),
    {
        Rect { x, y, width, height }
    }

    /// The column right of the area.
    pub fn right(self) -> (r: u16)
        ensures
            r == self.right_edge(),
    {
        self.x.saturating_add(self.width)
    }

    /// The row below the area.
    pub fn bottom(self) -> (r: u16)
        ensures
            r == self.bottom_edge(),
    {
        self.y.saturating_add(self.height)
    }

    /// The area without its first row.
    pub fn clip_first_row(self) -> (r: Rect)
        ensures
            r == self.without_first_row(),
    {
        if self.height == 0 {
            self
        } else {
            Rect { y: self.y.saturating_add(1), height: self.height - 1, ..self }
        }
    }

    /// The area without its last row.
    pub fn clip_last_row(self) -> (r: Rect)
        ensures
            r == self.without_last_row(),
    {
        if self.height == 0 {
            self
        } else {
            Rect { height: self.height - 1, ..self }
        }
    }
}

impl Default for Rect {
    fn default() -> (r: Rect)
        ensures
            r == (Rect { x: 0, y: 0, width: 0, height: 0 }),
    {
        Rect { x: 0, y: 0, width: 0, height: 0 }
    }
}

} // verus!

//! Grid coordinates, offsets between cells, and display colours.

use vstd::prelude::*;

verus! {

/// A cell of the grid, or an offset between two cells.
#[derive(Clone, Copy, Debug, PartialEq, Eq, Structural)]
pub struct Point {
    pub x: i32,
    pub y: i32,
}

impl Point {
    /// The point `(x, y)`.
    pub fn new(x: i32, y: i32) -> (p: Point)
        ensures
            p.x == x,
            p.y == y,
    {
        Point { x, y }
    }

    /// Both coordinates can be negated without leaving `i32`.
    pub open spec fn negatable(self) -> bool {
        self.x > i32::MIN && self.y > i32::MIN
    }

    /// The offset turned by a quarter: `(x, y)` goes to `(-y, x)` when `right`,
    /// to `(y, -x)` otherwise.
    pub open spec fn rotated(self, right: bool) -> Point {
        if right {
            Point { x: (-self.y) as i32, y: self.x }
        } else {
            Point { x: self.y, y: (-self.x) as i32 }
        }
    }

    /// The offset mirrored in the vertical axis: `(x, y)` goes to `(-x, y)`.
    pub open spec fn flipped(self) -> Point {
        Point { x: (-self.x) as i32, y: self.y }
    }

    /// The offset multiplied by the matrix with rows `row1` and `row2`.
    pub open spec fn transformed(self, row1: (i32, i32), row2: (i32, i32)) -> Point {
        Point {
            x: (row1.0 * self.x + row1.1 * self.y) as i32,
            y: (row2.0 * self.x + row2.1 * self.y) as i32,
        }
    }
}

/// A display colour with eight bits per channel. The rules of play never read it.
#[derive(Clone, Copy, Debug, PartialEq, Eq, Structural)]
pub struct Rgb {
    pub r: u8,
    pub g: u8,
    pub b: u8,
}

impl Rgb {
    /// The colour with the channels `r`, `g`, `b`.
    pub fn new(r: u8, g: u8, b: u8) -> (c: Rgb)
        ensures
            c == (Rgb { r, g, b }),
    {
        Rgb { r, g, b }
    }
}

} // verus!

//! Points on the integer grid.

use vstd::prelude::*;

verus! {

/// Largest absolute coordinate, in half units, that a path may hold.
pub const COORD_LIMIT: i64 = 0x100_0000_0000;

/// A point of a path. Both coordinates count half font units.
#[derive(Clone, Copy, Debug, PartialEq, Eq, Structural)]
pub struct Point {
    pub x: i64,
    pub y: i64,
}

/// A point as a font source gives it, in whole font units.
#[derive(Clone, Copy, Debug, PartialEq, Eq, Structural)]
pub struct RawPoint {
    pub x: i32,
    pub y: i32,
}

impl Point {
    /// Both coordinates lie within `COORD_LIMIT` of the origin.
    pub open spec fn in_range(self) -> bool {
        &&& -COORD_LIMIT <= self.x <= COORD_LIMIT
        &&& -COORD_LIMIT <= self.y <= COORD_LIMIT
    }
}

impl RawPoint {
    /// The same place as a path point: both coordinates doubled.
    pub open spec fn lifted(self) -> Point {
        Point { x: (2 * self.x) as i64, y: (2 * self.y) as i64 }
    }

    /// The place halfway between `self` and `other`. In half units the mean of
    /// two whole-unit coordinates is their sum, so nothing is rounded.
    pub open spec fn midpoint_with(self, other: RawPoint) -> Point {
        Point { x: (self.x + other.x) as i64, y: (self.y + other.y) as i64 }
    }

    pub fn lift(self) -> (p: Point)
        ensures
            p == self.lifted(),
            p.x == 2 * self.x,
            p.y == 2 * self.y,
            p.in_range(),
    {
        let x: i64 = self.x as i64;
        let y: i64 = self.y as i64;
        Point { x: 2 * x, y: 2 * y }
    }

    pub fn midpoint(self, other: RawPoint) -> (p: Point)
        ensures
            p == self.midpoint_with(other),
            p.x == self.x + other.x,
            p.y == self.y + other.y,
            p.in_range(),
    {
        let ax: i64 = self.x as i64;
        let ay: i64 = self.y as i64;
        let bx: i64 = other.x as i64;
        let by: i64 = other.y as i64;
        Point { x: ax + bx, y: ay + by }
    }
}

} // verus!

//! Integer grid points, compared by value, with Manhattan distance.

use vstd::prelude::*;

verus! {

/// An immutable (x, y) point on the grid.
#[derive(Copy, Clone, Eq, Hash, PartialEq, Debug, Structural)]
pub struct Coordinate {
    pub x: i32,
    pub y: i32,
}

/// Manhattan distance between two points, as a mathematical integer.
pub open spec fn spec_manhattan(a: Coordinate, b: Coordinate) -> int {
    abs(a.x - b.x) + abs(a.y - b.y)
}

/// Absolute value of a mathematical integer.
pub open spec fn abs(v: int) -> int {
    if v < 0 {
        -v
    } else {
        v
    }
}

impl Coordinate {
    /// A point from its two components.
    pub fn new(x: i32, y: i32) -> (r: Self)
        ensures
            r == (Coordinate { x, y }),
    {
        Coordinate { x, y }
    }

    /// A point with both components equal.
    pub fn splat(value: i32) -> (r: Self)
        ensures
            r == (Coordinate { x: value, y: value }),
    {
        Coordinate { x: value, y: value }
    }

    /// The horizontal component.
    pub fn x(&self) -> (r: i32)
        ensures
            r == self.x,
    {
        self.x
    }

    /// The vertical component.
    pub fn y(&self) -> (r: i32)
        ensures
            r == self.y,
    {
        self.y
    }

    /// Manhattan distance to another point.
    pub fn distance(&self, other: &Coordinate) -> (r: u32)
        requires
            spec_manhattan(*self, *other) <= u32::MAX,
        ensures
            r == spec_manhattan(*self, *other),
    {
        let dx: i64 = self.x as i64 - other.x as i64;
        let dy: i64 = self.y as i64 - other.y as i64;
        let adx: i64 = if dx < 0 {
            -dx
        } else {
            dx
        };
        let ady: i64 = if dy < 0 {
            -dy
        } else {
            dy
        };
        (adx + ady) as u32
    }
}

impl core::convert::From<i32> for Coordinate {
    /// A point with both components equal to the given value.
    fn from(value: i32) -> (r: Coordinate) {
        Coordinate { x: value, y: value }
    }
}

impl vstd::std_specs::convert::FromSpecImpl<i32> for Coordinate {
    open spec fn obeys_from_spec() -> bool {
        true
    }

    open spec fn from_spec(value: i32) -> Coordinate {
        Coordinate { x: value, y: value }
    }
}

impl core::convert::From<(i32, i32)> for Coordinate {
    /// A point from an (x, y) pair.
    fn from(value: (i32, i32)) -> (r: Coordinate) {
        Coordinate { x: value.0, y: value.1 }
    }
}

impl vstd::std_specs::convert::FromSpecImpl<(i32, i32)> for Coordinate {
    open spec fn obeys_from_spec() -> bool {
        true
    }

    open spec fn from_spec(value: (i32, i32)) -> Coordinate {
        Coordinate { x: value.0, y: value.1 }
    }
}

} // verus!

//! Geometry primitives: 2-D points and displacement vectors over the
//! fixed-point scalar (milli-units).

use vstd::prelude::*;

verus! {

/// A 2-D point, coordinates in milli-units.
#[derive(Clone, Copy, Debug, PartialEq, Eq, Structural)]
pub struct Point {
    pub x: i64,
    pub y: i64,
}

impl Point {
    pub fn new(x: i64, y: i64) -> (p: Point)
        ensures
            p.x == x,
            p.y == y,
    {
        Point { x, y }
    }

    pub fn zero() -> (p: Point)
        ensures
            p.x == 0,
            p.y == 0,
    {
        Point { x: 0, y: 0 }
    }
}

/// A 2-D displacement, used both for velocities and for forces,
/// components in milli-units.
#[derive(Clone, Copy, Debug, PartialEq, Eq, Structural)]
pub struct Vector {
    pub dx: i64,
    pub dy: i64,
}

impl Vector {
    pub fn new(dx: i64, dy: i64) -> (v: Vector)
        ensures
            v.dx == dx,
            v.dy == dy,
    {
        Vector { dx, dy }
    }

    pub fn zero() -> (v: Vector)
        ensures
            v.dx == 0,
            v.dy == 0,
    {
        Vector { dx: 0, dy: 0 }
    }
}

} // verus!

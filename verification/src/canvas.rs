//! Canvas-space value types: a point, and the rectangle the demos run in.
use vstd::prelude::*;

verus! {

/// A point in canvas space, in fixed-point units (`SUBPIXELS` units per pixel).
#[derive(Clone, Copy, Debug, PartialEq, Eq, Structural)]
pub struct Coordinate {
    pub x: i64,
    pub y: i64,
}

impl Coordinate {
    pub fn new(x: i64, y: i64) -> (c: Coordinate)
        ensures
            c.x == x,
            c.y == y,
    {
        Coordinate { x, y }
    }
}

/// The rectangle a demo is confined to: both sides are positive.
#[derive(Clone, Copy, Debug, PartialEq, Eq, Structural)]
pub struct Boundary {
    pub width: i64,
    pub height: i64,
}

impl Boundary {
    pub fn new(width: i64, height: i64) -> (b: Boundary)
        requires
            width > 0,
            height > 0,
        ensures
            b.width == width,
            b.height == height,
    {
        Boundary { width, height }
    }
}

} // verus!

//! Two-component vectors of fixed-point numbers.

use vstd::prelude::*;

verus! {

/// A vector of two unbounded raw counts: what a [`Vec2`] stands for.
pub struct Vector {
    pub x: int,
    pub y: int,
}

/// A vector of two fixed-point numbers, each a raw count of millionths.
#[derive(Clone, Copy, Debug, PartialEq, Eq, Structural)]
pub struct Vec2 {
    pub x: i64,
    pub y: i64,
}

impl View for Vec2 {
    type V = Vector;

    open spec fn view(&self) -> Vector {
        Vector { x: self.x as int, y: self.y as int }
    }
}

impl Vec2 {
    /// The vector with the given raw components.
    pub fn new(x: i64, y: i64) -> (v: Vec2)
        ensures
            v == (Vec2 { x, y }),
    {
        Vec2 { x, y }
    }
}

} // verus!

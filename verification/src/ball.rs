//! The moving body.

use vstd::prelude::*;
use crate::vector::{Vec2, Vector};

verus! {

/// Position and velocity as unbounded raw counts: what a [`Ball`] stands for.
pub struct Body {
    pub pos: Vector,
    pub vel: Vector,
}

/// A point mass. `pos` is in simulation units, with the origin at the bottom
/// left and y growing upward; `vel` is in simulation units per second.
#[derive(Clone, Copy, Debug, PartialEq, Eq, Structural)]
pub struct Ball {
    pub pos: Vec2,
    pub vel: Vec2,
}

impl View for Ball {
    type V = Body;

    open spec fn view(&self) -> Body {
        Body { pos: self.pos@, vel: self.vel@ }
    }
}

impl Ball {
    /// The ball at its launch point, (0.2, 0.2), moving at (10, 15).
    pub open spec fn spec_new() -> Ball {
        Ball {
            pos: Vec2 { x: 200_000, y: 200_000 },
            vel: Vec2 { x: 10_000_000, y: 15_000_000 },
        }
    }

    /// The ball at its launch point, (0.2, 0.2), moving at (10, 15).
    #[verifier::when_used_as_spec(spec_new)]
    pub fn new() -> (ball: Ball)
        ensures
            ball == Ball::spec_new(),
    {
        Ball { pos: Vec2::new(200_000, 200_000), vel: Vec2::new(10_000_000, 15_000_000) }
    }

    /// A ball with the given position and velocity.
    pub fn with_state(pos: Vec2, vel: Vec2) -> (ball: Ball)
        ensures
            ball == (Ball { pos, vel }),
    {
        Ball { pos, vel }
    }
}

} // verus!

//! A point mass falling under constant gravity inside a rectangular domain,
//! bouncing off its walls with loss, in exact fixed-point arithmetic.
//!
//! [`SimulationState::symplectic_euler`] advances the ball by one step;
//! [`render::map_sim_to_context_position`] says where to draw it. What a step
//! is, and what holds of every step, is stated in [`dynamics`].

pub mod ball;
pub mod constants;
pub mod dynamics;
pub mod fixed;
pub mod render;
pub mod simulation;
pub mod vector;

pub use ball::Ball;
pub use constants::SimulationConstants;
pub use render::{map_context_to_sim_position, map_sim_to_context_position};
pub use simulation::SimulationState;
pub use vector::Vec2;

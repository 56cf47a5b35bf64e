//! The quantities that shape a simulation, as raw counts of millionths.

use vstd::prelude::*;
use crate::fixed::{over, UNIT};

verus! {

/// Width of the drawing surface, in pixels.
pub const WIDTH: i64 = 1_280_000_000;

/// Height of the drawing surface, in pixels.
pub const HEIGHT: i64 = 720_000_000;

/// The extent, in simulation units, that the shorter side of the surface shows.
pub const SIM_MIN_WIDTH: i64 = 20_000_000;

/// Pixels per simulation unit.
pub const SIM_SCALE: i64 = 36_000_000;

/// Width of the domain, in simulation units.
pub const SIM_WIDTH: i64 = 35_555_555;

/// Height of the domain, in simulation units.
pub const SIM_HEIGHT: i64 = 20_000_000;

/// Lowest height that the ball's centre can reach.
pub const MIN_Y: i64 = 400_000;

/// Radius of the ball as it is drawn, in simulation units.
pub const BALL_RADIUS: i64 = 200_000;

/// Simulated seconds that one step covers: a sixtieth.
pub const DT: i64 = 16_666;

/// Number of equal parts into which a step is divided.
pub const SUBSTEPS: u32 = 5;

/// Downward acceleration, in simulation units per second squared.
pub const GRAVITY: i64 = 9_810_000;

/// Fraction of its speed that the ball keeps when it bounces.
pub const DAMPENING: i64 = 900_000;

/// The constants of a simulation as unbounded raw counts: what a
/// [`SimulationConstants`] stands for.
pub struct Parameters {
    pub gravity: int,
    pub dampening: int,
    pub sim_width: int,
    pub sim_height: int,
    pub min_y: int,
    pub fixed_dt: int,
    pub substeps: nat,
}

/// The constants of a simulation, fixed when it is set up.
#[derive(Clone, Copy, Debug, PartialEq, Eq, Structural)]
pub struct SimulationConstants {
    /// Downward acceleration.
    pub gravity: i64,
    /// Fraction of its speed that the ball keeps when it bounces.
    pub dampening: i64,
    /// The domain spans `0..=sim_width` across.
    pub sim_width: i64,
    /// The domain spans `min_y..=sim_height` upward.
    pub sim_height: i64,
    /// Lower bound of the domain.
    pub min_y: i64,
    /// Simulated time that one step covers, whatever the frame took.
    pub fixed_dt: i64,
    /// Number of equal parts into which a step is divided.
    pub substeps: u32,
}

impl View for SimulationConstants {
    type V = Parameters;

    open spec fn view(&self) -> Parameters {
        Parameters {
            gravity: self.gravity as int,
            dampening: self.dampening as int,
            sim_width: self.sim_width as int,
            sim_height: self.sim_height as int,
            min_y: self.min_y as int,
            fixed_dt: self.fixed_dt as int,
            substeps: self.substeps as nat,
        }
    }
}

impl SimulationConstants {
    /// The constants of the standard scene.
    pub open spec fn spec_standard() -> SimulationConstants {
        SimulationConstants {
            gravity: GRAVITY,
            dampening: DAMPENING,
            sim_width: SIM_WIDTH,
            sim_height: SIM_HEIGHT,
            min_y: MIN_Y,
            fixed_dt: DT,
            substeps: SUBSTEPS,
        }
    }

    /// The constants of the standard scene.
    #[verifier::when_used_as_spec(spec_standard)]
    pub fn standard() -> (constants: SimulationConstants)
        ensures
            constants == SimulationConstants::spec_standard(),
    {
        SimulationConstants {
            gravity: GRAVITY,
            dampening: DAMPENING,
            sim_width: SIM_WIDTH,
            sim_height: SIM_HEIGHT,
            min_y: MIN_Y,
            fixed_dt: DT,
            substeps: SUBSTEPS,
        }
    }
}

/// The standard scene hangs together: its scale shows the least extent over
/// the height of the surface, its domain is the surface measured in
/// simulation units, and its step covers a sixtieth of a second.
pub proof fn lemma_standard_scene()
    ensures
        SIM_SCALE == over(HEIGHT as int, SIM_MIN_WIDTH as int),
        SIM_WIDTH == over(WIDTH as int, SIM_SCALE as int),
        SIM_HEIGHT == over(HEIGHT as int, SIM_SCALE as int),
        DT == over(UNIT as int, 60 * UNIT),
{
}

} // verus!

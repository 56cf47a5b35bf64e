//! What one step does to a body, stated on unbounded integers, and what
//! follows from it.
//!
//! A step first lets the body fly freely for a fixed time, divided into equal
//! parts. In each part the velocity is updated from gravity before the
//! position is updated from the velocity. After the last part each axis is
//! held against the walls of the domain once: a body found outside is put back
//! on the wall it crossed, and its velocity along that axis is turned round and
//! dampened.

use vstd::prelude::*;
use crate::ball::Body;
use crate::constants::Parameters;
use crate::fixed::{
    lemma_times_magnitude, lemma_times_shrinks, lemma_trunc_div_bounds, magnitude, times,
    trunc_div, UNIT,
};
use crate::vector::Vector;

verus! {

/// The time that one part of a step covers.
pub open spec fn substep_time(p: Parameters) -> int {
    trunc_div(p.fixed_dt, p.substeps as int)
}

/// The upward speed that gravity takes away in one part of a step.
pub open spec fn gravity_kick(p: Parameters) -> int {
    times(p.gravity, substep_time(p))
}

/// One part of a step: gravity changes the velocity, then the new velocity
/// moves the body.
pub open spec fn substep(b: Body, p: Parameters) -> Body {
    let vy = b.vel.y - gravity_kick(p);
    Body {
        pos: Vector {
            x: b.pos.x + times(b.vel.x, substep_time(p)),
            y: b.pos.y + times(vy, substep_time(p)),
        },
        vel: Vector { x: b.vel.x, y: vy },
    }
}

/// The body after `n` parts of a step, with no wall in its way.
pub open spec fn free_flight(b: Body, p: Parameters, n: nat) -> Body
    decreases n,
{
    if n == 0 {
        b
    } else {
        substep(free_flight(b, p, (n - 1) as nat), p)
    }
}

/// The velocity along an axis after a bounce: turned round and dampened.
pub open spec fn rebound(v: int, dampening: int) -> int {
    times(-v, dampening)
}

/// Whether a coordinate lies strictly outside `lo..=hi`. A body exactly on a
/// wall has not crossed it.
pub open spec fn crossed(pos: int, lo: int, hi: int) -> bool {
    pos < lo || pos > hi
}

/// The coordinate along an axis once it has been held against the walls at
/// `lo` and `hi`. The lower wall is looked at first.
pub open spec fn reflected_pos(pos: int, lo: int, hi: int) -> int {
    if pos < lo {
        lo
    } else if pos > hi {
        hi
    } else {
        pos
    }
}

/// The velocity along an axis once the coordinate has been held against the
/// walls at `lo` and `hi`.
pub open spec fn reflected_vel(pos: int, vel: int, lo: int, hi: int, dampening: int) -> int {
    if crossed(pos, lo, hi) {
        rebound(vel, dampening)
    } else {
        vel
    }
}

/// The body once both axes have been held against the walls of the domain,
/// each on its own.
pub open spec fn reflect(b: Body, p: Parameters) -> Body {
    Body {
        pos: Vector {
            x: reflected_pos(b.pos.x, 0, p.sim_width),
            y: reflected_pos(b.pos.y, p.min_y, p.sim_height),
        },
        vel: Vector {
            x: reflected_vel(b.pos.x, b.vel.x, 0, p.sim_width, p.dampening),
            y: reflected_vel(b.pos.y, b.vel.y, p.min_y, p.sim_height, p.dampening),
        },
    }
}

/// The body after one step.
pub open spec fn advance(b: Body, p: Parameters) -> Body {
    reflect(free_flight(b, p, p.substeps), p)
}

/// The body after `k` steps.
pub open spec fn advance_times(b: Body, p: Parameters, k: nat) -> Body
    decreases k,
{
    if k == 0 {
        b
    } else {
        advance(advance_times(b, p, (k - 1) as nat), p)
    }
}

/// Whether the domain holds any point at all.
pub open spec fn domain_exists(p: Parameters) -> bool {
    0 <= p.sim_width && p.min_y <= p.sim_height
}

/// Whether a position lies in the domain, walls included.
pub open spec fn in_domain(pos: Vector, p: Parameters) -> bool {
    0 <= pos.x <= p.sim_width && p.min_y <= pos.y <= p.sim_height
}

/// In free flight the horizontal velocity never changes, the vertical velocity
/// falls by the same amount in every part, and the body moves across by the
/// same amount in every part.
pub proof fn lemma_free_flight_is_uniform(b: Body, p: Parameters, n: nat)
    ensures
        free_flight(b, p, n).vel.x == b.vel.x,
        free_flight(b, p, n).vel.y == b.vel.y - n * gravity_kick(p),
        free_flight(b, p, n).pos.x == b.pos.x + n * times(b.vel.x, substep_time(p)),
    decreases n,
{
    if n > 0 {
        let m = (n - 1) as nat;
        lemma_free_flight_is_uniform(b, p, m);
        let k = gravity_kick(p);
        let d = times(b.vel.x, substep_time(p));
        assert(m * k + k == n * k) by (nonlinear_arith)
            requires
                m + 1 == n,
        ;
        assert(m * d + d == n * d) by (nonlinear_arith)
            requires
                m + 1 == n,
        ;
    }
}

/// A body with no horizontal velocity does not move across in free flight.
pub proof fn lemma_no_drift_at_rest(b: Body, p: Parameters, n: nat)
    requires
        b.vel.x == 0,
    ensures
        free_flight(b, p, n).pos.x == b.pos.x,
        free_flight(b, p, n).vel.x == 0,
{
    lemma_free_flight_is_uniform(b, p, n);
    assert(0 * substep_time(p) == 0);
    assert(times(0, substep_time(p)) == 0) by {
        vstd::arithmetic::div_mod::lemma_div_of0(UNIT as int);
    }
    assert(n * 0 == 0);
}

/// Gravity pulls down. Where neither gravity nor time is negative, a body that
/// is not rising keeps losing height and upward speed throughout its free
/// flight, and it ends lower than it began as soon as its last move is of one
/// raw count or more.
pub proof fn lemma_falling_body_sinks(b: Body, p: Parameters, n: nat)
    requires
        p.gravity >= 0,
        p.fixed_dt >= 0,
        p.substeps >= 1,
        b.vel.y <= 0,
    ensures
        free_flight(b, p, n).vel.y <= b.vel.y,
        free_flight(b, p, n).pos.y <= b.pos.y,
        n >= 1 && times(free_flight(b, p, n).vel.y, substep_time(p)) < 0 ==> free_flight(
            b,
            p,
            n,
        ).pos.y < b.pos.y,
    decreases n,
{
    if n > 0 {
        let before = free_flight(b, p, (n - 1) as nat);
        lemma_falling_body_sinks(b, p, (n - 1) as nat);
        let sdt = substep_time(p);
        let vy = before.vel.y - gravity_kick(p);
        lemma_trunc_div_bounds(p.fixed_dt, p.substeps as int);
        lemma_trunc_div_bounds(p.gravity * sdt, UNIT as int);
        lemma_trunc_div_bounds(vy * sdt, UNIT as int);
        assert(p.gravity * sdt >= 0) by (nonlinear_arith)
            requires
                p.gravity >= 0,
                sdt >= 0,
        ;
        assert(vy * sdt <= 0) by (nonlinear_arith)
            requires
                vy <= 0,
                sdt >= 0,
        ;
    }
}

/// After a step the body is inside the domain, wherever it started and however
/// fast it moved.
pub proof fn lemma_step_ends_in_domain(b: Body, p: Parameters)
    requires
        domain_exists(p),
    ensures
        in_domain(advance(b, p).pos, p),
{
}

/// After any number of steps, one at least, the body is inside the domain.
pub proof fn lemma_always_in_domain(b: Body, p: Parameters, k: nat)
    requires
        domain_exists(p),
        k >= 1,
    ensures
        in_domain(advance_times(b, p, k).pos, p),
{
    lemma_step_ends_in_domain(advance_times(b, p, (k - 1) as nat), p);
}

/// A bounce keeps the dampened part of the speed. Along an axis on which the
/// free flight of a step ends beyond a wall, the body is put on that wall and
/// the size of its velocity becomes the product of the dampening and of the
/// size it had when the flight ended. Along an axis on which the flight ends
/// between the walls, or on one, position and velocity stay as the flight left
/// them.
pub proof fn lemma_bounce_dampens_speed(b: Body, p: Parameters)
    ensures
        ({
            let f = free_flight(b, p, p.substeps);
            let a = advance(b, p);
            &&& crossed(f.pos.x, 0, p.sim_width) ==> {
                &&& a.pos.x == 0 || a.pos.x == p.sim_width
                &&& magnitude(a.vel.x) == times(magnitude(p.dampening), magnitude(f.vel.x))
            }
            &&& !crossed(f.pos.x, 0, p.sim_width) ==> a.pos.x == f.pos.x && a.vel.x == f.vel.x
            &&& crossed(f.pos.y, p.min_y, p.sim_height) ==> {
                &&& a.pos.y == p.min_y || a.pos.y == p.sim_height
                &&& magnitude(a.vel.y) == times(magnitude(p.dampening), magnitude(f.vel.y))
            }
            &&& !crossed(f.pos.y, p.min_y, p.sim_height) ==> a.pos.y == f.pos.y && a.vel.y == f.vel.y
        }),
{
    let f = free_flight(b, p, p.substeps);
    lemma_rebound_size(f.vel.x, p.dampening);
    lemma_rebound_size(f.vel.y, p.dampening);
}

/// With a dampening between zero and one, a bounce sends the body back the way
/// it came, no faster than it arrived.
pub proof fn lemma_bounce_turns_and_slows(v: int, dampening: int)
    requires
        0 <= dampening <= UNIT,
    ensures
        magnitude(rebound(v, dampening)) <= magnitude(v),
        v >= 0 ==> rebound(v, dampening) <= 0,
        v <= 0 ==> rebound(v, dampening) >= 0,
{
    lemma_times_shrinks(-v, dampening);
    lemma_trunc_div_bounds((-v) * dampening, UNIT as int);
    assert(v >= 0 ==> (-v) * dampening <= 0) by (nonlinear_arith)
        requires
            0 <= dampening,
    ;
    assert(v <= 0 ==> (-v) * dampening >= 0) by (nonlinear_arith)
        requires
            0 <= dampening,
    ;
}

/// With a dampening between minus one and one, no step makes the body faster
/// along an axis than its free flight left it.
pub proof fn lemma_step_never_speeds_up(b: Body, p: Parameters)
    requires
        magnitude(p.dampening) <= UNIT,
    ensures
        magnitude(advance(b, p).vel.x) <= magnitude(free_flight(b, p, p.substeps).vel.x),
        magnitude(advance(b, p).vel.y) <= magnitude(free_flight(b, p, p.substeps).vel.y),
{
    let f = free_flight(b, p, p.substeps);
    lemma_times_shrinks(-f.vel.x, p.dampening);
    lemma_times_shrinks(-f.vel.y, p.dampening);
}

/// With a dampening between minus one and one the body never moves across
/// faster than it did at the start, however many steps it takes.
pub proof fn lemma_sideways_speed_never_grows(b: Body, p: Parameters, k: nat)
    requires
        magnitude(p.dampening) <= UNIT,
    ensures
        magnitude(advance_times(b, p, k).vel.x) <= magnitude(b.vel.x),
    decreases k,
{
    if k > 0 {
        let before = advance_times(b, p, (k - 1) as nat);
        lemma_sideways_speed_never_grows(b, p, (k - 1) as nat);
        lemma_step_never_speeds_up(before, p);
        lemma_free_flight_is_uniform(before, p, p.substeps);
    }
}

/// The size of a rebound is the product of the sizes of dampening and velocity.
proof fn lemma_rebound_size(v: int, dampening: int)
    ensures
        magnitude(rebound(v, dampening)) == times(magnitude(dampening), magnitude(v)),
{
    lemma_times_magnitude(-v, dampening);
    assert(magnitude(-v) * magnitude(dampening) == magnitude(dampening) * magnitude(v))
        by (nonlinear_arith);
}

} // verus!

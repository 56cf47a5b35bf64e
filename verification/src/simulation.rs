//! The state of a running simulation and the step that advances it.

use vstd::prelude::*;
use crate::ball::{Ball, Body};
use crate::constants::{Parameters, SimulationConstants};
use crate::dynamics::{
    advance, crossed, domain_exists, free_flight, gravity_kick, in_domain,
    lemma_free_flight_is_uniform, rebound, reflected_pos, reflected_vel, substep_time,
};
use crate::fixed::{
    fits, holds, lemma_times_bound, lemma_trunc_div_bounds, magnitude, times, wide_times, UNIT,
};
use crate::vector::{Vec2, Vector};

verus! {

/// The upward velocity with which the free flight of a step ends.
pub open spec fn landing_speed(b: Body, p: Parameters) -> int {
    b.vel.y - p.substeps * gravity_kick(p)
}

/// Whether the velocities of a step can be held: the one with which the free
/// flight ends and, along each axis on which the flight ends beyond a wall,
/// the one with which the ball comes back.
pub open spec fn step_fits(b: Body, p: Parameters) -> bool {
    let f = free_flight(b, p, p.substeps);
    &&& fits(landing_speed(b, p))
    &&& crossed(f.pos.x, 0, p.sim_width) ==> fits(rebound(b.vel.x, p.dampening))
    &&& crossed(f.pos.y, p.min_y, p.sim_height) ==> fits(
        rebound(landing_speed(b, p), p.dampening),
    )
}

/// With a dampening of less than one either way, no bounce turns a velocity
/// that can be held into one that cannot: the step can be taken as soon as
/// the velocity at the end of its free flight can be held.
pub proof fn lemma_dampened_step_fits(b: Body, p: Parameters)
    requires
        magnitude(p.dampening) < UNIT,
        fits(b.vel.x),
        fits(landing_speed(b, p)),
    ensures
        step_fits(b, p),
{
    lemma_dampened_rebound_fits(b.vel.x, p.dampening);
    lemma_dampened_rebound_fits(landing_speed(b, p), p.dampening);
}

/// A step can be taken exactly when the velocity with which its free flight
/// ends and the velocity that it gives can both be held.
pub proof fn lemma_step_fits_iff_velocities_fit(b: Body, p: Parameters)
    requires
        fits(b.vel.x),
    ensures
        step_fits(b, p) <==> fits(landing_speed(b, p)) && fits(advance(b, p).vel.x) && fits(
            advance(b, p).vel.y,
        ),
{
    lemma_free_flight_is_uniform(b, p, p.substeps);
}

/// A ball and the constants of the scene it moves in.
#[derive(Clone, Copy, Debug, PartialEq, Eq, Structural)]
pub struct SimulationState {
    pub ball: Ball,
    pub constants: SimulationConstants,
}

impl SimulationState {
    /// The standard scene with the ball at its launch point.
    pub fn new() -> (state: SimulationState)
        ensures
            state.ball == Ball::new(),
            state.constants == SimulationConstants::standard(),
            step_fits(state.ball@, state.constants@),
    {
        SimulationState { ball: Ball::new(), constants: SimulationConstants::standard() }
    }

    /// A simulation of `ball` under `constants`.
    pub fn with_parts(ball: Ball, constants: SimulationConstants) -> (state: SimulationState)
        ensures
            state == (SimulationState { ball, constants }),
    {
        SimulationState { ball, constants }
    }

    /// Whether the next step can be taken: whether its velocities can be held.
    pub fn can_advance(&self) -> (ok: bool)
        ensures
            ok == step_fits(self.ball@, self.constants@),
    {
        if !self.can_land() {
            return false;
        }
        let end: (i128, i128, i64) = self.fly();
        let c: &SimulationConstants = &self.constants;
        rebound_fits(end.0, self.ball.vel.x, 0, c.sim_width, c.dampening) && rebound_fits(
            end.1,
            end.2,
            c.min_y,
            c.sim_height,
            c.dampening,
        )
    }

    /// Advances the ball by one step of the constants' fixed time, whatever
    /// time `_dt` the frame has taken.
    ///
    /// The step is a free flight in `substeps` equal parts, in each of which
    /// the velocity is updated before the position, followed by one reflection
    /// at the walls of the domain.
    pub fn symplectic_euler(&mut self, _dt: i64)
        requires
            step_fits(old(self).ball@, old(self).constants@),
        ensures
            final(self).constants == old(self).constants,
            final(self).ball@ == advance(old(self).ball@, old(self).constants@),
            domain_exists(old(self).constants@) ==> in_domain(
                final(self).ball@.pos,
                old(self).constants@,
            ),
    {
        let end: (i128, i128, i64) = self.fly();
        let c: SimulationConstants = self.constants;
        let x: (i64, i64) = reflect_axis(end.0, self.ball.vel.x, 0, c.sim_width, c.dampening);
        let y: (i64, i64) = reflect_axis(end.1, end.2, c.min_y, c.sim_height, c.dampening);
        self.ball = Ball { pos: Vec2 { x: x.0, y: y.0 }, vel: Vec2 { x: x.1, y: y.1 } };
    }

    /// Whether the velocity with which the free flight ends can be held.
    fn can_land(&self) -> (ok: bool)
        ensures
            ok == fits(landing_speed(self.ball@, self.constants@)),
    {
        let n: u32 = self.constants.substeps;
        if n == 0 {
            assert(self.constants@.substeps * gravity_kick(self.constants@) == 0)
                by (nonlinear_arith)
                requires
                    self.constants@.substeps == 0,
            ;
            return true;
        }
        let sdt: i128 = (self.constants.fixed_dt / (n as i64)) as i128;
        let kick: i128 = wide_times(self.constants.gravity as i128, sdt);
        if kick > 0x1_0000_0000_0000_0000 || kick < -0x1_0000_0000_0000_0000 {
            proof {
                lemma_product_at_least(n as int, kick as int);
            }
            return false;
        }
        let fall: i128 = wide_scale(n, kick);
        holds(self.ball.vel.y as i128 - fall)
    }

    /// The free flight of a step: where it ends, across and up, and the upward
    /// velocity with which it ends.
    fn fly(&self) -> (end: (i128, i128, i64))
        requires
            fits(landing_speed(self.ball@, self.constants@)),
        ensures
            free_flight(self.ball@, self.constants@, self.constants@.substeps) == (Body {
                pos: Vector { x: end.0 as int, y: end.1 as int },
                vel: Vector { x: self.ball@.vel.x, y: end.2 as int },
            }),
            end.2 == landing_speed(self.ball@, self.constants@),
    {
        let ghost b = self.ball@;
        let ghost p = self.constants@;
        let n: u32 = self.constants.substeps;
        let vx: i64 = self.ball.vel.x;
        let mut vy: i64 = self.ball.vel.y;
        let mut rx: i128 = self.ball.pos.x as i128;
        let mut ry: i128 = self.ball.pos.y as i128;
        if n > 0 {
            let sdt: i64 = self.constants.fixed_dt / (n as i64);
            let kick: i128 = wide_times(self.constants.gravity as i128, sdt as i128);
            let dx: i128 = wide_times(vx as i128, sdt as i128);
            let ghost reach: int = 0x8000_0000_0000_0000 * magnitude(sdt as int);
            proof {
                lemma_trunc_div_bounds(p.fixed_dt, n as int);
                lemma_reach_of_flight(n as int, sdt as int, p.fixed_dt);
                lemma_move_within_reach(vx as int, sdt as int);
            }
            let mut i: u32 = 0;
            while i < n
                invariant
                    0 <= i <= n,
                    n == p.substeps,
                    sdt == substep_time(p),
                    kick == gravity_kick(p),
                    dx == times(vx as int, sdt as int),
                    reach == 0x8000_0000_0000_0000 * magnitude(sdt as int),
                    0 <= reach,
                    n * reach <= 0x4000_0000_0000_0000_0000_0000_0000_0000,
                    magnitude(dx as int) <= reach,
                    fits(b.vel.y),
                    fits(b.vel.y - n * kick),
                    fits(b.pos.x),
                    fits(b.pos.y),
                    magnitude(rx - b.pos.x) <= i * reach,
                    magnitude(ry - b.pos.y) <= i * reach,
                    vx == b.vel.x,
                    vy == b.vel.y - i * kick,
                    free_flight(b, p, i as nat) == (Body {
                        pos: Vector { x: rx as int, y: ry as int },
                        vel: Vector { x: vx as int, y: vy as int },
                    }),
                decreases n - i,
            {
                proof {
                    lemma_between_ends(b.vel.y, kick as int, i as int + 1, n as int);
                    lemma_next_within_reach(i as int, n as int, reach);
                    lemma_move_within_reach(vy - kick, sdt as int);
                }
                vy = (vy as i128 - kick) as i64;
                let dy: i128 = wide_times(vy as i128, sdt as i128);
                rx = rx + dx;
                ry = ry + dy;
                i = i + 1;
            }
        }
        proof {
            lemma_free_flight_is_uniform(b, p, n as nat);
        }
        (rx, ry, vy)
    }
}

/// Whether the velocity after the reflection of one coordinate at the walls
/// at `lo` and `hi` can be held.
fn rebound_fits(pos: i128, vel: i64, lo: i64, hi: i64, dampening: i64) -> (ok: bool)
    ensures
        ok == (crossed(pos as int, lo as int, hi as int) ==> fits(
            rebound(vel as int, dampening as int),
        )),
{
    if pos < lo as i128 || pos > hi as i128 {
        holds(wide_times(-(vel as i128), dampening as i128))
    } else {
        true
    }
}

/// Holds one coordinate against the walls at `lo` and `hi`: gives the
/// coordinate and the velocity along that axis after the reflection.
fn reflect_axis(pos: i128, vel: i64, lo: i64, hi: i64, dampening: i64) -> (r: (i64, i64))
    requires
        crossed(pos as int, lo as int, hi as int) ==> fits(rebound(vel as int, dampening as int)),
    ensures
        r.0 == reflected_pos(pos as int, lo as int, hi as int),
        r.1 == reflected_vel(pos as int, vel as int, lo as int, hi as int, dampening as int),
{
    if pos < lo as i128 {
        (lo, wide_times(-(vel as i128), dampening as i128) as i64)
    } else if pos > hi as i128 {
        (hi, wide_times(-(vel as i128), dampening as i128) as i64)
    } else {
        (pos as i64, vel)
    }
}

/// The product of a count and a value of at most 65 bits.
fn wide_scale(n: u32, v: i128) -> (r: i128)
    requires
        magnitude(v as int) <= 0x1_0000_0000_0000_0000,
    ensures
        r == n * v,
        magnitude(r as int) <= 0x1_0000_0000_0000_0000_0000_0000,
{
    assert(magnitude(n * v) <= 0x1_0000_0000 * 0x1_0000_0000_0000_0000) by (nonlinear_arith)
        requires
            0 <= n <= 0x1_0000_0000,
            magnitude(v as int) <= 0x1_0000_0000_0000_0000,
    ;
    (n as i128) * v
}

/// Dampened by less than one either way, the rebound of a velocity that can
/// be held can be held.
proof fn lemma_dampened_rebound_fits(v: int, dampening: int)
    requires
        magnitude(dampening) < UNIT,
        fits(v),
    ensures
        fits(rebound(v, dampening)),
{
    let size = magnitude(rebound(v, dampening));
    let n = magnitude(v);
    let m = magnitude(dampening);
    lemma_trunc_div_bounds((-v) * dampening, UNIT as int);
    assert(magnitude((-v) * dampening) == n * m) by (nonlinear_arith)
        requires
            n == magnitude(v),
            m == magnitude(dampening),
    ;
    assert(n * m < 0x8000_0000_0000_0000 * 1_000_000) by (nonlinear_arith)
        requires
            0 <= n <= 0x8000_0000_0000_0000,
            0 <= m < 1_000_000,
    ;
    assert(size * 1_000_000 <= n * m);
}

/// A count of at least one, times a value, is at least as large as the value.
proof fn lemma_product_at_least(n: int, v: int)
    requires
        n >= 1,
    ensures
        v >= 0 ==> n * v >= v,
        v <= 0 ==> n * v <= v,
{
    assert(v >= 0 ==> n * v >= v) by (nonlinear_arith)
        requires
            n >= 1,
    ;
    assert(v <= 0 ==> n * v <= v) by (nonlinear_arith)
        requires
            n >= 1,
    ;
}

/// A value that changes by equal amounts lies, at every stage, between where
/// it starts and where it ends.
proof fn lemma_between_ends(start: int, change: int, i: int, n: int)
    requires
        0 <= i <= n,
        fits(start),
        fits(start - n * change),
    ensures
        fits(start - i * change),
        start - i * change == start - (i - 1) * change - change,
{
    assert(change >= 0 ==> 0 <= i * change <= n * change) by (nonlinear_arith)
        requires
            0 <= i <= n,
    ;
    assert(change <= 0 ==> n * change <= i * change <= 0) by (nonlinear_arith)
        requires
            0 <= i <= n,
    ;
    assert(i * change == (i - 1) * change + change) by (nonlinear_arith);
}

/// However fast the body moves, all the parts of a step together cannot take
/// it farther than 128 bits can hold.
proof fn lemma_reach_of_flight(n: int, sdt: int, dt: int)
    requires
        n >= 1,
        magnitude(sdt) * n <= magnitude(dt),
        fits(dt),
    ensures
        0 <= 0x8000_0000_0000_0000 * magnitude(sdt),
        n * (0x8000_0000_0000_0000 * magnitude(sdt)) <= 0x4000_0000_0000_0000_0000_0000_0000_0000,
{
    let m = magnitude(sdt);
    assert(n * (0x8000_0000_0000_0000 * m) == 0x8000_0000_0000_0000 * (m * n)) by (nonlinear_arith);
    assert(0x8000_0000_0000_0000 * (m * n) <= 0x8000_0000_0000_0000 * 0x8000_0000_0000_0000)
        by (nonlinear_arith)
        requires
            m * n <= 0x8000_0000_0000_0000,
    ;
}

/// In one part of a step a body that moves at a speed that can be held goes no
/// farther than the reach of that part.
proof fn lemma_move_within_reach(v: int, sdt: int)
    requires
        fits(v),
    ensures
        magnitude(times(v, sdt)) <= 0x8000_0000_0000_0000 * magnitude(sdt),
{
    lemma_times_bound(v, sdt);
    assert(magnitude(v) * magnitude(sdt) <= 0x8000_0000_0000_0000 * magnitude(sdt))
        by (nonlinear_arith)
        requires
            magnitude(v) <= 0x8000_0000_0000_0000,
            0 <= magnitude(sdt),
    ;
}

/// One more part stays within the reach of the whole step.
proof fn lemma_next_within_reach(i: int, n: int, reach: int)
    requires
        0 <= i < n,
        0 <= reach,
    ensures
        (i + 1) * reach == i * reach + reach,
        (i + 1) * reach <= n * reach,
        0 <= i * reach,
{
    assert((i + 1) * reach == i * reach + reach) by (nonlinear_arith);
    assert((i + 1) * reach <= n * reach) by (nonlinear_arith)
        requires
            i + 1 <= n,
            0 <= reach,
    ;
    assert(0 <= i * reach) by (nonlinear_arith)
        requires
            0 <= i,
            0 <= reach,
    ;
}

} // verus!

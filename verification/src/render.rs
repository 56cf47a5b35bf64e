//! Between the simulation's coordinates and those of the drawing surface.
//!
//! The simulation measures in its own units from the bottom left, with y
//! growing upward. The surface measures in pixels from the top left, with y
//! growing downward.

use vstd::prelude::*;
use crate::fixed::{
    fits, holds, lemma_trunc_div_bounds, magnitude, over, times, wide_over, wide_times, UNIT,
};
use crate::vector::{Vec2, Vector};

verus! {

/// Where on a surface `height` pixels high a simulation position is drawn, at
/// `scale` pixels per simulation unit.
pub open spec fn to_render_space(pos: Vector, height: int, scale: int) -> Vector {
    Vector { x: times(pos.x, scale), y: height - times(pos.y, scale) }
}

/// The simulation position that is drawn at the point `at` of the surface.
pub open spec fn to_sim_space(at: Vector, height: int, scale: int) -> Vector
    recommends
        scale != 0,
{
    Vector { x: over(at.x, scale), y: over(height - at.y, scale) }
}

/// Whether both components of a vector can be held.
pub open spec fn vector_fits(v: Vector) -> bool {
    fits(v.x) && fits(v.y)
}

/// Whether `back` lies between zero and `v`, as near to `v` as rounding at
/// `scale` allows.
pub open spec fn falls_short(v: int, back: int, scale: int) -> bool {
    &&& v >= 0 ==> 0 <= back <= v
    &&& v <= 0 ==> v <= back <= 0
    &&& magnitude(v - back) * magnitude(scale) < UNIT + magnitude(scale)
    &&& magnitude(scale) >= UNIT ==> magnitude(v - back) <= 1
}

/// Whether the place where `pos` is drawn can be held.
pub fn can_map_to_context(pos: Vec2, height: i64, scale: i64) -> (ok: bool)
    ensures
        ok == vector_fits(to_render_space(pos@, height as int, scale as int)),
{
    let x: i128 = wide_times(pos.x as i128, scale as i128);
    let drop: i128 = wide_times(pos.y as i128, scale as i128);
    let y: i128 = height as i128 - drop;
    holds(x) && holds(y)
}

/// Where on a surface `height` pixels high the simulation position `pos` is
/// drawn, at `scale` pixels per simulation unit.
pub fn map_sim_to_context_position(pos: Vec2, height: i64, scale: i64) -> (at: Vec2)
    requires
        vector_fits(to_render_space(pos@, height as int, scale as int)),
    ensures
        at@ == to_render_space(pos@, height as int, scale as int),
{
    let x: i128 = wide_times(pos.x as i128, scale as i128);
    let drop: i128 = wide_times(pos.y as i128, scale as i128);
    let y: i128 = height as i128 - drop;
    Vec2 { x: x as i64, y: y as i64 }
}

/// Whether the simulation position drawn at `at` exists and can be held.
pub fn can_map_to_sim(at: Vec2, height: i64, scale: i64) -> (ok: bool)
    ensures
        ok == (scale != 0 && vector_fits(to_sim_space(at@, height as int, scale as int))),
{
    if scale == 0 {
        return false;
    }
    let x: i128 = wide_over(at.x as i128, scale);
    let y: i128 = wide_over(height as i128 - at.y as i128, scale);
    holds(x) && holds(y)
}

/// The simulation position that is drawn at the point `at` of a surface
/// `height` pixels high, at `scale` pixels per simulation unit.
pub fn map_context_to_sim_position(at: Vec2, height: i64, scale: i64) -> (pos: Vec2)
    requires
        scale != 0,
        vector_fits(to_sim_space(at@, height as int, scale as int)),
    ensures
        pos@ == to_sim_space(at@, height as int, scale as int),
{
    let x: i128 = wide_over(at.x as i128, scale);
    let y: i128 = wide_over(height as i128 - at.y as i128, scale);
    Vec2 { x: x as i64, y: y as i64 }
}

/// Mapping a position to the surface and back brings it back to where it was,
/// but for what rounding takes. Along each axis the way back never overshoots
/// and never changes the side of zero; it falls short by less than one pixel
/// and one raw count taken together, and so, at a scale of one pixel per unit
/// or more, by one raw count at most.
pub proof fn lemma_round_trip(pos: Vector, height: int, scale: int)
    requires
        scale != 0,
    ensures
        ({
            let back = to_sim_space(to_render_space(pos, height, scale), height, scale);
            &&& falls_short(pos.x, back.x, scale)
            &&& falls_short(pos.y, back.y, scale)
        }),
{
    lemma_times_over(pos.x, scale);
    lemma_times_over(pos.y, scale);
}

/// Dividing a product by the factor it was multiplied with gives the other
/// factor back, but for what rounding takes.
proof fn lemma_times_over(v: int, scale: int)
    requires
        scale != 0,
    ensures
        falls_short(v, over(times(v, scale), scale), scale),
{
    let there = times(v, scale);
    let size = magnitude(v);
    let s = magnitude(scale);
    let a = magnitude(there);
    let b = magnitude(over(there, scale));
    lemma_trunc_div_bounds(v * scale, UNIT as int);
    lemma_trunc_div_bounds(there * UNIT, scale);
    assert(magnitude(v * scale) == size * s) by (nonlinear_arith)
        requires
            size == magnitude(v),
            s == magnitude(scale),
    ;
    assert(a * 1_000_000 <= size * s < a * 1_000_000 + 1_000_000);
    assert(b * s <= a * 1_000_000 < b * s + s);
    assert(b <= size && (size - b) * s < 1_000_000 + s) by (nonlinear_arith)
        requires
            b * s <= size * s,
            size * s < b * s + s + 1_000_000,
            s > 0,
    ;
    assert(s >= 1_000_000 ==> size - b <= 1) by (nonlinear_arith)
        requires
            (size - b) * s < 1_000_000 + s,
            s > 0,
            size - b >= 0,
    ;
    assert((v >= 0) == (scale > 0) ==> v * scale >= 0) by (nonlinear_arith);
    assert((v >= 0) != (scale > 0) ==> v * scale <= 0) by (nonlinear_arith);
    assert(v == 0 ==> v * scale == 0) by (nonlinear_arith);
}

} // verus!

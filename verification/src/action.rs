//! Velocity values and the deterministic velocity factory.
//!
//! The demos draw their randomness from the host. Here a drawn random value
//! is a plain `RandomDraw` record: one fixed-point fraction per axis (in
//! `RAND_UNIT`ths of one) and one sign coin per axis. Every function of this
//! module is a total function of its arguments, so its result is pinned
//! exactly by its contract.
use vstd::arithmetic::div_mod::{lemma_div_is_ordered, lemma_div_multiples_vanish, lemma_div_pos_is_pos};
use vstd::arithmetic::mul::{lemma_mul_inequality, lemma_mul_nonnegative};
use vstd::prelude::*;

use crate::SUBPIXELS;

verus! {

/// Denominator of a drawn fraction: a draw `t` stands for the real `t / RAND_UNIT`,
/// so a `u16` draw always lies in `[0, 1)`.
pub const RAND_UNIT: i64 = 65536;

/// Magnitude envelope of the default random velocity: each axis lies in
/// `[0, 2)` pixels, as the demos that pass no envelope expect.
pub const DEFAULT_VELOCITY_MAX: i64 = 2 * SUBPIXELS;

/// A per-axis movement, in fixed-point units per frame; signed and unbounded.
#[derive(Clone, Copy, Debug, PartialEq, Eq, Structural)]
pub struct Velocity {
    pub dx: i64,
    pub dy: i64,
}

/// One drawn random value: a uniform fraction per axis and a fair coin per axis.
#[derive(Clone, Copy, Debug, PartialEq, Eq, Structural)]
pub struct RandomDraw {
    pub fraction_x: u16,
    pub fraction_y: u16,
    pub flip_x: bool,
    pub flip_y: bool,
}

/// The magnitude a drawn fraction `t` yields under the envelope `max`:
/// the integer part of `t * max / RAND_UNIT`, hence in `[0, max]`.
pub open spec fn scaled_magnitude(t: u16, max: i64) -> int {
    (t as int * max as int) / (RAND_UNIT as int)
}

/// The velocity component a draw yields on one axis: the scaled magnitude,
/// negated when the axis coin says so.
pub open spec fn drawn_component(t: u16, flip: bool, max: i64) -> int {
    if flip {
        -scaled_magnitude(t, max)
    } else {
        scaled_magnitude(t, max)
    }
}

proof fn lemma_scaled_magnitude_in_range(t: u16, max: i64)
    requires
        0 <= max,
    ensures
        0 <= scaled_magnitude(t, max) <= max,
{
    let p = t as int * max as int;
    lemma_mul_nonnegative(t as int, max as int);
    if p > 0 {
        lemma_div_pos_is_pos(p, RAND_UNIT as int);
    }
    lemma_mul_inequality(t as int, RAND_UNIT as int, max as int);
    lemma_div_is_ordered(p, RAND_UNIT as int * max as int, RAND_UNIT as int);
    lemma_div_multiples_vanish(max as int, RAND_UNIT as int);
}

impl Velocity {
    pub fn new(dx: i64, dy: i64) -> (v: Velocity)
        ensures
            v.dx == dx,
            v.dy == dy,
    {
        Velocity { dx, dy }
    }

    /// The scalar-envelope velocity factory: each axis gets a magnitude drawn
    /// uniformly from `[0, max]` and an independent random sign.
    pub fn get_random_velocity(max: i64, draw: RandomDraw) -> (v: Velocity)
        requires
            0 <= max,
            max <= i64::MAX / RAND_UNIT,
        ensures
            v.dx == drawn_component(draw.fraction_x, draw.flip_x, max),
            v.dy == drawn_component(draw.fraction_y, draw.flip_y, max),
            -max <= v.dx <= max,
            -max <= v.dy <= max,
    {
        let dx = Self::component(draw.fraction_x, draw.flip_x, max);
        let dy = Self::component(draw.fraction_y, draw.flip_y, max);
        Velocity { dx, dy }
    }

    /// The envelope velocity factory: each axis gets a magnitude drawn from
    /// the matching axis of `max` (or from the default envelope when none is
    /// given), and one shared coin flips both axes together or neither.
    pub fn get_random_velocity_within(max: Option<Velocity>, draw: RandomDraw) -> (v: Velocity)
        requires
            max is Some ==> 0 <= max->0.dx && 0 <= max->0.dy,
            max is Some ==> max->0.dx <= i64::MAX / RAND_UNIT && max->0.dy <= i64::MAX / RAND_UNIT,
        ensures
            ({
                let envelope = match max {
                    Some(m) => m,
                    None => Velocity { dx: DEFAULT_VELOCITY_MAX, dy: DEFAULT_VELOCITY_MAX },
                };
                &&& v.dx == drawn_component(draw.fraction_x, draw.flip_x, envelope.dx)
                &&& v.dy == drawn_component(draw.fraction_y, draw.flip_x, envelope.dy)
                &&& -envelope.dx <= v.dx <= envelope.dx
                &&& -envelope.dy <= v.dy <= envelope.dy
            }),
    {
        let (max_dx, max_dy): (i64, i64) = match max {
            Some(m) => (m.dx, m.dy),
            None => (DEFAULT_VELOCITY_MAX, DEFAULT_VELOCITY_MAX),
        };
        let dx = Self::component(draw.fraction_x, draw.flip_x, max_dx);
        let dy = Self::component(draw.fraction_y, draw.flip_x, max_dy);
        Velocity { dx, dy }
    }

    fn component(t: u16, flip: bool, max: i64) -> (c: i64)
        requires
            0 <= max,
            max <= i64::MAX / RAND_UNIT,
        ensures
            c == drawn_component(t, flip, max),
            -max <= c <= max,
    {
        proof {
            lemma_scaled_magnitude_in_range(t, max);
            lemma_mul_inequality(t as int, RAND_UNIT as int, max as int);
            lemma_mul_inequality(max as int, i64::MAX as int / RAND_UNIT as int, RAND_UNIT as int);
        }
        let magnitude = t as i64 * max / RAND_UNIT;
        if flip {
            -magnitude
        } else {
            magnitude
        }
    }
}

} // verus!

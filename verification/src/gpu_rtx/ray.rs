//! The per-ray record of the data-parallel design: the ray *is* the path
//! tracing state, carrying its running attenuation product, its remaining
//! bounce budget, its own draw stream, and an inert marker set once its
//! final color is known.

use vstd::prelude::*;
use crate::rng::SampleRng;
use crate::rtx::vector::{Vector, fits, DIR_LIMIT};
use crate::rtx::rgb::{RGB, rgb_wf};
use crate::rtx::camera::MAX_DEPTH;

verus! {

#[derive(Clone, Copy, Debug, PartialEq, Eq, Structural)]
pub struct Ray {
    pub origin: Vector,
    pub direction: Vector,
    pub color: RGB,
    pub bounces_left: u32,
    pub rng: SampleRng,
    pub done: bool,
}

/// What every in-flight ray satisfies: its origin is within the coordinate
/// budget its remaining bounces can still spend, its direction is bounded,
/// and its running color is a well-formed attenuation product.
pub open spec fn gpu_ray_wf(r: Ray) -> bool {
    &&& r.bounces_left <= MAX_DEPTH
    &&& fits(r.origin, 0x80_0000_0000 - r.bounces_left * 0x2_0000_0000)
    &&& fits(r.direction, DIR_LIMIT as int)
    &&& rgb_wf(r.color)
}

} // verus!

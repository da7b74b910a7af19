//! Rays: an origin and a direction, both fixed-point vectors.

use vstd::prelude::*;
use crate::rtx::vector::{Vector, fits, add_spec, scale_spec};

verus! {

#[derive(Clone, Copy, Debug, PartialEq, Eq, Structural)]
pub struct Ray {
    pub origin: Vector,
    pub direction: Vector,
}

/// The point reached after parameter `t` (fixed point): `origin + t * direction`.
pub open spec fn at_spec(ray: Ray, t: int) -> Vector {
    add_spec(ray.origin, scale_spec(ray.direction, t))
}

impl Ray {
    pub fn new(origin: Vector, direction: Vector) -> (r: Ray)
        ensures
            r.origin == origin,
            r.direction == direction,
    {
        Ray { origin, direction }
    }

    pub fn at(&self, t: i64) -> (r: Vector)
        requires
            fits(self.origin, 0x100_0000_0000_0000),
            fits(self.direction, 0x40_0000_0000),
            -0x40_0000_0000 <= t <= 0x40_0000_0000,
        ensures
            r == at_spec(*self, t as int),
    {
        let step = self.direction.scale(t);
        proof {
            crate::rtx::vector::lemma_mul_bounds(
                self.direction.x as int, t as int, 0x40_0000_0000, 0x40_0000_0000);
            crate::rtx::vector::lemma_mul_bounds(
                self.direction.y as int, t as int, 0x40_0000_0000, 0x40_0000_0000);
            crate::rtx::vector::lemma_mul_bounds(
                self.direction.z as int, t as int, 0x40_0000_0000, 0x40_0000_0000);
            crate::fx::lemma_div_trunc_mag(
                self.direction.x * t, crate::fx::SCALE as int, 0x1000_0000_0000_0000);
            crate::fx::lemma_div_trunc_mag(
                self.direction.y * t, crate::fx::SCALE as int, 0x1000_0000_0000_0000);
            crate::fx::lemma_div_trunc_mag(
                self.direction.z * t, crate::fx::SCALE as int, 0x1000_0000_0000_0000);
        }
        self.origin.add(step)
    }
}

} // verus!

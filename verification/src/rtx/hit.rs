//! The record produced by a ray-surface intersection.
//!
//! The stored normal always opposes the incident ray: the outward normal is
//! kept when the ray arrives from outside (`front_face`), and flipped
//! otherwise.

use vstd::prelude::*;
use crate::fx::SCALE;
use crate::rtx::vector::{Vector, fits, dot_spec, neg_spec};
use crate::rtx::ray::Ray;
use crate::rtx::target::Target;
use crate::rtx::material::Material;

verus! {

#[derive(Clone, Copy, Debug, PartialEq, Eq, Structural)]
pub struct Hit {
    pub p: Vector,
    pub normal: Vector,
    pub t: i64,
    pub front_face: bool,
    pub target: Target,
    pub material: Material,
}

/// What the scattering model needs of a hit record: a unit-ish normal.
pub open spec fn hit_wf(h: Hit) -> bool {
    fits(h.normal, SCALE as int)
}

impl Hit {
    /// Build a hit record, flipping the outward normal so the stored normal
    /// opposes the incident ray.
    pub fn new(
        p: Vector,
        t: i64,
        ray: Ray,
        outward_normal: Vector,
        target: Target,
        material: Material,
    ) -> (r: Hit)
        requires
            fits(ray.direction, 0x1000_0000_0000_0000),
            fits(outward_normal, 0x1000_0000_0000_0000),
        ensures
            r.p == p,
            r.t == t,
            r.target == target,
            r.material == material,
            r.front_face == (dot_spec(ray.direction, outward_normal) < 0),
            r.normal == if r.front_face {
                outward_normal
            } else {
                neg_spec(outward_normal)
            },
            dot_spec(ray.direction, r.normal) <= 0,
    {
        let d = ray.direction.dot_raw(outward_normal);
        let front_face = d < 0;
        let normal = if front_face {
            outward_normal
        } else {
            outward_normal.neg()
        };
        proof {
            if !front_face {
                assert(dot_spec(ray.direction, neg_spec(outward_normal))
                    == -dot_spec(ray.direction, outward_normal)) by (nonlinear_arith)
                    requires
                        fits(outward_normal, 0x1000_0000_0000_0000),
                        neg_spec(outward_normal).x == -outward_normal.x,
                        neg_spec(outward_normal).y == -outward_normal.y,
                        neg_spec(outward_normal).z == -outward_normal.z,
                ;
            }
        }
        Hit { p, normal, t, front_face, target, material }
    }
}

} // verus!

//! The closed set of surface kinds a ray can hit, dispatched by one match.

use vstd::prelude::*;
use crate::fx::SCALE;
use crate::rtx::vector::{fits, dot_spec, DIR_LIMIT};
use crate::rtx::ray::Ray;
use crate::rtx::interval::Interval;
use crate::rtx::hit::Hit;
use crate::rtx::material::Material;
use crate::rtx::sphere::{
    SphereData, sphere_wf, hit_t_spec, sphere_hit_record, lemma_hit_window, REACH_LIMIT, T_LIMIT,
};

verus! {

#[derive(Clone, Copy, Debug, PartialEq, Eq, Structural)]
pub enum Target {
    Sphere(SphereData),
}

pub open spec fn target_wf(t: Target) -> bool {
    match t {
        Target::Sphere(s) => sphere_wf(s),
    }
}

/// The hit parameter a target yields inside a window.
pub open spec fn target_hit_t(t: Target, ray: Ray, tmin: int, tmax: int) -> Option<int> {
    match t {
        Target::Sphere(s) => hit_t_spec(ray, s.center, s.radius as int, tmin, tmax),
    }
}

/// The record a target yields at an accepted parameter.
pub open spec fn target_hit_record(t: Target, ray: Ray, tt: int) -> Hit {
    match t {
        Target::Sphere(s) => sphere_hit_record(s, ray, tt),
    }
}

pub open spec fn target_material(t: Target) -> Material {
    match t {
        Target::Sphere(s) => s.material,
    }
}

/// The window-shrink stability of each target kind.
pub proof fn lemma_target_window(t: Target, ray: Ray, tmin: int, tmax: int, cut: int)
    requires
        cut <= tmax,
    ensures
        target_hit_t(t, ray, tmin, cut).is_some()
            ==> target_hit_t(t, ray, tmin, tmax) == target_hit_t(t, ray, tmin, cut),
        target_hit_t(t, ray, tmin, tmax).is_some()
            && target_hit_t(t, ray, tmin, tmax).unwrap() < cut
            ==> target_hit_t(t, ray, tmin, cut) == target_hit_t(t, ray, tmin, tmax),
        target_hit_t(t, ray, tmin, cut).is_none()
            && target_hit_t(t, ray, tmin, tmax).is_some()
            ==> target_hit_t(t, ray, tmin, tmax).unwrap() >= cut,
{
    match t {
        Target::Sphere(s) => {
            lemma_hit_window(ray, s.center, s.radius as int, tmin, tmax, cut);
        },
    }
}

impl Target {
    /// Nearest intersection with this target strictly inside the window.
    pub fn hit(&self, ray: Ray, t: Interval) -> (r: Option<Hit>)
        requires
            target_wf(*self),
            fits(ray.origin, REACH_LIMIT as int),
            fits(ray.direction, DIR_LIMIT as int),
            -T_LIMIT <= t.min,
            t.max <= T_LIMIT,
        ensures
            r.is_some() == target_hit_t(*self, ray, t.min as int, t.max as int).is_some(),
            r matches Some(h) ==> {
                &&& target_hit_t(*self, ray, t.min as int, t.max as int) == Some(h.t as int)
                &&& h == target_hit_record(*self, ray, h.t as int)
                &&& t.min < h.t < t.max
                &&& h.material == target_material(*self)
                &&& crate::rtx::material::material_wf(h.material)
                &&& dot_spec(ray.direction, h.normal) <= 0
                &&& fits(h.normal, SCALE as int)
                &&& -0x2_0000_0000 <= h.p.x - ray.origin.x <= 0x2_0000_0000
                &&& -0x2_0000_0000 <= h.p.y - ray.origin.y <= 0x2_0000_0000
                &&& -0x2_0000_0000 <= h.p.z - ray.origin.z <= 0x2_0000_0000
            },
    {
        match self {
            Target::Sphere(data) => data.hit(ray, t),
        }
    }
}

} // verus!

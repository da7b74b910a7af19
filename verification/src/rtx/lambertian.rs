//! Diffuse scattering: the outgoing direction is the surface normal plus a
//! random unit vector, with the normal itself as a fallback when that sum is
//! degenerate; the attenuation is the stored albedo.

use vstd::prelude::*;
use crate::fx::SCALE;
use crate::rng::SampleRng;
use crate::rtx::vector::{
    Vector, fits, add_spec, near_zero_spec, random_unit_from, UNIT_TRIES, DIR_LIMIT,
};
use crate::rtx::ray::Ray;
use crate::rtx::rgb::{RGB, rgb_wf};
use crate::rtx::hit::{Hit, hit_wf};
use crate::rtx::scatter_result::ScatterResult;

verus! {

#[derive(Clone, Copy, Debug, PartialEq, Eq, Structural)]
pub struct LambertianData {
    pub albedo: RGB,
}

/// The outgoing ray of a diffuse bounce, with the follow-on generator state.
pub open spec fn lambertian_scatter_spec(hit: Hit, state: u64) -> (Ray, u64) {
    let (u, s) = random_unit_from(state, UNIT_TRIES as nat);
    let d0 = add_spec(hit.normal, u);
    let dir = if near_zero_spec(d0) {
        hit.normal
    } else {
        d0
    };
    (Ray { origin: hit.p, direction: dir }, s)
}

impl LambertianData {
    pub fn new(albedo: RGB) -> (r: LambertianData)
        requires
            rgb_wf(albedo),
        ensures
            r.albedo == albedo,
    {
        LambertianData { albedo }
    }

    pub fn scatter(self, _incoming: Ray, hit: Hit, rng: &mut SampleRng) -> (r: ScatterResult)
        requires
            hit_wf(hit),
            rgb_wf(self.albedo),
        ensures
            ({
                let (ray, s) = lambertian_scatter_spec(hit, old(rng).state);
                r.scattered == ray && final(rng).state == s
            }),
            r.attenuation == self.albedo,
            r.scattered.origin == hit.p,
            fits(r.scattered.direction, DIR_LIMIT as int),
    {
        let u = Vector::random_unit_vector(rng);
        let scattered = hit.normal.add(u);
        let dir = if scattered.near_zero() {
            hit.normal
        } else {
            scattered
        };
        assert(SCALE + SCALE <= DIR_LIMIT);
        ScatterResult::new(self.albedo, Ray::new(hit.p, dir))
    }
}

} // verus!

//! The closed set of materials, dispatched by one match.

use vstd::prelude::*;
use crate::fx::SCALE;
use crate::rng::SampleRng;
use crate::rtx::vector::{Vector, fits, DIR_LIMIT};
use crate::rtx::ray::Ray;
use crate::rtx::rgb::{RGB, rgb_wf};
use crate::rtx::hit::{Hit, hit_wf};
use crate::rtx::scatter_result::ScatterResult;
use crate::rtx::lambertian::{LambertianData, lambertian_scatter_spec};
use crate::rtx::metal::{MetalData, metal_scatter_spec};
use crate::rtx::dielectric::{DielectricData, dielectric_wf, dielectric_scatter_spec};

verus! {

#[derive(Clone, Copy, Debug, PartialEq, Eq, Structural)]
pub enum Material {
    Lambertian(LambertianData),
    Metal(MetalData),
    Dielectric(DielectricData),
}

pub open spec fn material_wf(m: Material) -> bool {
    match m {
        Material::Lambertian(l) => rgb_wf(l.albedo),
        Material::Metal(mt) => rgb_wf(mt.albedo) && 0 <= mt.fuzz <= SCALE,
        Material::Dielectric(d) => dielectric_wf(d),
    }
}

/// Attenuation, outgoing ray, and follow-on generator state of one bounce.
pub open spec fn scatter_spec(m: Material, incoming: Ray, hit: Hit, state: u64)
    -> (RGB, Ray, u64) {
    match m {
        Material::Lambertian(l) => {
            let (ray, s) = lambertian_scatter_spec(hit, state);
            (l.albedo, ray, s)
        },
        Material::Metal(mt) => {
            let (ray, s) = metal_scatter_spec(mt, incoming, hit, state);
            (mt.albedo, ray, s)
        },
        Material::Dielectric(d) => {
            let (ray, s) = dielectric_scatter_spec(d, incoming, hit, state);
            (Vector { x: SCALE, y: SCALE, z: SCALE }, ray, s)
        },
    }
}

impl Material {
    /// One bounce: every surviving ray scatters into exactly one outgoing
    /// ray whose origin is the hit point.
    pub fn scatter(self, incoming: Ray, hit: Hit, rng: &mut SampleRng) -> (r: ScatterResult)
        requires
            material_wf(self),
            hit_wf(hit),
            fits(incoming.direction, DIR_LIMIT as int),
        ensures
            ({
                let (att, ray, s) = scatter_spec(self, incoming, hit, old(rng).state);
                r.attenuation == att && r.scattered == ray && final(rng).state == s
            }),
            r.scattered.origin == hit.p,
            fits(r.scattered.direction, DIR_LIMIT as int),
            rgb_wf(r.attenuation),
    {
        match self {
            Material::Lambertian(data) => data.scatter(incoming, hit, rng),
            Material::Metal(data) => data.scatter(incoming, hit, rng),
            Material::Dielectric(data) => data.scatter(incoming, hit, rng),
        }
    }
}

} // verus!

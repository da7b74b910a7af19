//! Specular scattering: reflect the incoming direction about the normal,
//! renormalize, and widen the lobe by a fuzz factor times a random unit
//! vector; the attenuation is the stored albedo.

use vstd::prelude::*;
use crate::fx::SCALE;
use crate::rng::SampleRng;
use crate::rtx::vector::{
    Vector, fits, add_spec, scale_spec, reflect_spec, normalize_spec, random_unit_from,
    lemma_mul_bounds, lemma_reflect_quot_bounds, UNIT_TRIES, DIR_LIMIT,
};
use crate::rtx::ray::Ray;
use crate::rtx::rgb::{RGB, rgb_wf};
use crate::rtx::hit::{Hit, hit_wf};
use crate::rtx::scatter_result::ScatterResult;
use crate::fx::lemma_div_trunc_mag;

verus! {

#[derive(Clone, Copy, Debug, PartialEq, Eq, Structural)]
pub struct MetalData {
    pub albedo: RGB,
    pub fuzz: i64,
}

/// The outgoing ray of a specular bounce, with the follow-on generator state.
pub open spec fn metal_scatter_spec(data: MetalData, incoming: Ray, hit: Hit, state: u64)
    -> (Ray, u64) {
    let refl = reflect_spec(incoming.direction, hit.normal);
    let (u, s) = random_unit_from(state, UNIT_TRIES as nat);
    let dir = add_spec(normalize_spec(refl), scale_spec(u, data.fuzz as int));
    (Ray { origin: hit.p, direction: dir }, s)
}

impl MetalData {
    /// The fuzz factor is clamped to at most one, so the specular lobe is at
    /// most a full unit sphere wide.
    pub fn new(albedo: RGB, fuzz: i64) -> (r: MetalData)
        requires
            rgb_wf(albedo),
            0 <= fuzz,
        ensures
            r.albedo == albedo,
            r.fuzz == if fuzz > SCALE {
                SCALE as int
            } else {
                fuzz as int
            },
            0 <= r.fuzz <= SCALE,
    {
        MetalData { albedo, fuzz: if fuzz > SCALE { SCALE } else { fuzz } }
    }

    pub fn scatter(self, incoming: Ray, hit: Hit, rng: &mut SampleRng) -> (r: ScatterResult)
        requires
            hit_wf(hit),
            rgb_wf(self.albedo),
            0 <= self.fuzz <= SCALE,
            fits(incoming.direction, DIR_LIMIT as int),
        ensures
            ({
                let (ray, s) = metal_scatter_spec(self, incoming, hit, old(rng).state);
                r.scattered == ray && final(rng).state == s
            }),
            r.attenuation == self.albedo,
            r.scattered.origin == hit.p,
            fits(r.scattered.direction, DIR_LIMIT as int),
    {
        proof {
            lemma_reflect_quot_bounds(incoming.direction, hit.normal);
        }
        let reflected = incoming.direction.reflect(hit.normal);
        let head = reflected.normalize();
        let u = Vector::random_unit_vector(rng);
        proof {
            lemma_mul_bounds(u.x as int, self.fuzz as int, SCALE as int, SCALE as int);
            lemma_mul_bounds(u.y as int, self.fuzz as int, SCALE as int, SCALE as int);
            lemma_mul_bounds(u.z as int, self.fuzz as int, SCALE as int, SCALE as int);
            lemma_div_trunc_mag(u.x * self.fuzz, 65536, 65536);
            lemma_div_trunc_mag(u.y * self.fuzz, 65536, 65536);
            lemma_div_trunc_mag(u.z * self.fuzz, 65536, 65536);
        }
        let fuzzed = head.add(u.scale(self.fuzz));
        ScatterResult::new(self.albedo, Ray::new(hit.p, fuzzed))
    }
}

} // verus!

//! Refractive scattering. The effective ratio is the reciprocal of the
//! refraction index when the ray arrives from outside. The ray reflects on
//! total internal reflection, or with the Schlick reflectance probability,
//! and refracts otherwise; the attenuation is always opaque white.

use vstd::prelude::*;
use crate::fx::{
    SCALE, div_trunc, mul_fx, sqrt_floor, is_sqrt_floor, div_i128, isqrt_i128,
    lemma_div_trunc_bounds, lemma_div_trunc_mag,
};
use crate::rng::{SampleRng, next_state_spec};
use crate::rtx::vector::{
    Vector, fits, dot_spec, reflect_spec, refract_spec, normalize_spec, draw_in_spec,
    mul_fx_exec, lemma_mul_bounds, DIR_LIMIT,
};
use crate::rtx::ray::Ray;
use crate::rtx::rgb::RGB;
use crate::rtx::hit::{Hit, hit_wf};
use crate::rtx::scatter_result::ScatterResult;

verus! {

/// Smallest and largest accepted refraction index (one quarter to four).
pub const RI_MIN: i64 = 16384;

pub const RI_MAX: i64 = 262144;

#[derive(Clone, Copy, Debug, PartialEq, Eq, Structural)]
pub struct DielectricData {
    pub refraction_index: i64,
}

pub open spec fn dielectric_wf(d: DielectricData) -> bool {
    RI_MIN <= d.refraction_index <= RI_MAX
}

/// The effective refraction ratio: `1 / index` from outside, `index` from
/// inside.
pub open spec fn dielectric_ratio(ri: int, front_face: bool) -> int {
    if front_face {
        div_trunc(0x1_0000_0000, ri)
    } else {
        ri
    }
}

/// Schlick reflectance: `r0 + (1 - r0) (1 - cos)^5` with
/// `r0 = ((1 - index) / (1 + index))^2`, in fixed point.
pub open spec fn reflectance_spec(ri: int, cos: int) -> int {
    let q = div_trunc((SCALE as int - ri) * (SCALE as int), SCALE as int + ri);
    let r0 = mul_fx(q, q);
    let p1 = SCALE as int - cos;
    let p2 = mul_fx(p1, p1);
    let p4 = mul_fx(p2, p2);
    let p5 = mul_fx(p4, p1);
    r0 + mul_fx(SCALE as int - r0, p5)
}

/// The cosine of the incidence angle the scattering decision uses: the
/// clamped fixed-point dot of the reversed unit direction with the normal.
pub open spec fn incidence_cos(unit: Vector, normal: Vector) -> int {
    let cos0 = div_trunc(-dot_spec(unit, normal), SCALE as int);
    if cos0 > SCALE as int {
        SCALE as int
    } else {
        cos0
    }
}

/// The fixed-point sine from the cosine, guarded at zero so a slightly
/// out-of-range cosine cannot take the square root of a negative value.
pub open spec fn incidence_sin(cos: int) -> int {
    let c2 = mul_fx(cos, cos);
    let inner = if SCALE as int - c2 >= 0 {
        SCALE as int - c2
    } else {
        0
    };
    sqrt_floor(inner * (SCALE as int))
}

/// The outgoing ray of a refractive bounce, with the follow-on generator
/// state. On total internal reflection no random draw is made.
pub open spec fn dielectric_scatter_spec(data: DielectricData, incoming: Ray, hit: Hit, state: u64)
    -> (Ray, u64) {
    let ratio = dielectric_ratio(data.refraction_index as int, hit.front_face);
    let unit = normalize_spec(incoming.direction);
    let cos = incidence_cos(unit, hit.normal);
    let sin = incidence_sin(cos);
    if mul_fx(ratio, sin) > SCALE as int {
        (Ray { origin: hit.p, direction: reflect_spec(unit, hit.normal) }, state)
    } else {
        let coin = draw_in_spec(state, 0, SCALE as int);
        let s2 = next_state_spec(state);
        if reflectance_spec(data.refraction_index as int, cos) > coin {
            (Ray { origin: hit.p, direction: reflect_spec(unit, hit.normal) }, s2)
        } else {
            (Ray { origin: hit.p, direction: refract_spec(unit, hit.normal, ratio) }, s2)
        }
    }
}

impl DielectricData {
    pub fn new(refraction_index: i64) -> (r: DielectricData)
        requires
            RI_MIN <= refraction_index <= RI_MAX,
        ensures
            r.refraction_index == refraction_index,
            dielectric_wf(r),
    {
        DielectricData { refraction_index }
    }

    /// Schlick reflectance for a given incidence cosine.
    fn reflectance(self, cosine: i64) -> (r: i64)
        requires
            dielectric_wf(self),
            -196608 <= cosine <= 65536,
        ensures
            r == reflectance_spec(self.refraction_index as int, cosine as int),
            -65536 <= r <= 67174400,
    {
        let ri = self.refraction_index;
        proof {
            assert((65536 - ri) * 65536 <= (65536 + ri) * 65536) by (nonlinear_arith)
                requires
                    16384 <= ri <= 262144,
            ;
            assert(-((65536 + ri) * 65536) <= (65536 - ri) * 65536) by (nonlinear_arith)
                requires
                    16384 <= ri <= 262144,
            ;
            lemma_div_trunc_mag((65536 - ri) * 65536, 65536 + ri, 65536);
        }
        let q: i64 = div_i128(((SCALE - ri) as i128) * 65536, (SCALE + ri) as i128) as i64;
        proof {
            lemma_mul_bounds(q as int, q as int, 65536, 65536);
            lemma_div_trunc_mag(q * q, 65536, 65536);
            assert(0 <= q * q) by (nonlinear_arith);
        }
        let r0: i64 = mul_fx_exec(q, q);
        proof {
            lemma_div_trunc_bounds(q * q, 65536);
        }
        let p1: i64 = SCALE - cosine;
        proof {
            lemma_mul_bounds(p1 as int, p1 as int, 262144, 262144);
            lemma_div_trunc_mag(p1 * p1, 65536, 1048576);
            lemma_div_trunc_bounds(p1 * p1, 65536);
        }
        let p2: i64 = mul_fx_exec(p1, p1);
        proof {
            lemma_mul_bounds(p2 as int, p2 as int, 1048576, 1048576);
            lemma_div_trunc_mag(p2 * p2, 65536, 16777216);
            lemma_div_trunc_bounds(p2 * p2, 65536);
        }
        let p4: i64 = mul_fx_exec(p2, p2);
        proof {
            lemma_mul_bounds(p4 as int, p1 as int, 16777216, 262144);
            lemma_div_trunc_mag(p4 * p1, 65536, 67108864);
            lemma_div_trunc_bounds(p4 * p1, 65536);
        }
        let p5: i64 = mul_fx_exec(p4, p1);
        proof {
            lemma_mul_bounds((SCALE - r0) as int, p5 as int, 65536, 67108864);
            lemma_div_trunc_mag((SCALE - r0) * p5, 65536, 67108864);
        }
        r0 + mul_fx_exec(SCALE - r0, p5)
    }

    pub fn scatter(self, incoming: Ray, hit: Hit, rng: &mut SampleRng) -> (r: ScatterResult)
        requires
            dielectric_wf(self),
            hit_wf(hit),
            fits(incoming.direction, 0x1000_0000_0000_0000),
        ensures
            ({
                let (ray, s) = dielectric_scatter_spec(self, incoming, hit, old(rng).state);
                r.scattered == ray && final(rng).state == s
            }),
            r.attenuation == (Vector { x: SCALE, y: SCALE, z: SCALE }),
            r.scattered.origin == hit.p,
            fits(r.scattered.direction, DIR_LIMIT as int),
    {
        let attenuation: RGB = Vector::new(SCALE, SCALE, SCALE);
        let ratio: i64 = if hit.front_face {
            proof {
                lemma_div_trunc_bounds(0x1_0000_0000, self.refraction_index as int);
                assert(16384 <= div_trunc(0x1_0000_0000, self.refraction_index as int) <= 262144)
                    by (nonlinear_arith)
                    requires
                        16384 <= self.refraction_index <= 262144,
                        (self.refraction_index as int)
                            * div_trunc(0x1_0000_0000, self.refraction_index as int)
                            <= 0x1_0000_0000,
                        0x1_0000_0000 - self.refraction_index
                            < (self.refraction_index as int)
                            * div_trunc(0x1_0000_0000, self.refraction_index as int),
                ;
            }
            div_i128(0x1_0000_0000, self.refraction_index as i128) as i64
        } else {
            self.refraction_index
        };
        let unit = incoming.direction.normalize();
        let dn: i128 = unit.dot_raw(hit.normal);
        proof {
            lemma_mul_bounds(unit.x as int, hit.normal.x as int, 65536, 65536);
            lemma_mul_bounds(unit.y as int, hit.normal.y as int, 65536, 65536);
            lemma_mul_bounds(unit.z as int, hit.normal.z as int, 65536, 65536);
            lemma_div_trunc_mag(-dn as int, 65536, 196608);
        }
        let cos0: i64 = div_i128(-dn, 65536) as i64;
        let cos: i64 = if cos0 > SCALE {
            SCALE
        } else {
            cos0
        };
        proof {
            lemma_mul_bounds(cos as int, cos as int, 196608, 196608);
            lemma_div_trunc_mag(cos * cos, 65536, 589824);
            assert(0 <= cos * cos) by (nonlinear_arith);
            lemma_div_trunc_bounds(cos * cos, 65536);
        }
        let c2: i64 = mul_fx_exec(cos, cos);
        let i0: i64 = SCALE - c2;
        let inner: i64 = if i0 >= 0 {
            i0
        } else {
            0
        };
        let sin_big: i128 = isqrt_i128((inner as i128) * 65536);
        proof {
            assert(sin_big <= 65536) by (nonlinear_arith)
                requires
                    is_sqrt_floor(inner * 65536, sin_big as int),
                    0 <= inner <= 65536,
            ;
        }
        let sin: i64 = sin_big as i64;
        proof {
            lemma_mul_bounds(ratio as int, sin as int, 262144, 65536);
            lemma_div_trunc_mag(ratio * sin, 65536, 262144);
        }
        let rs: i64 = mul_fx_exec(ratio, sin);
        let direction: Vector = if rs > SCALE {
            reflect_unit(unit, hit.normal)
        } else {
            let coin = crate::rtx::vector::draw_scalar(rng, 0, SCALE);
            if self.reflectance(cos) > coin {
                reflect_unit(unit, hit.normal)
            } else {
                unit.refract(hit.normal, ratio)
            }
        };
        ScatterResult::new(attenuation, Ray::new(hit.p, direction))
    }
}

/// Reflection of a unit-ish direction about a unit-ish normal stays within
/// the direction bound.
fn reflect_unit(unit: Vector, normal: Vector) -> (r: Vector)
    requires
        fits(unit, SCALE as int),
        fits(normal, SCALE as int),
    ensures
        r == reflect_spec(unit, normal),
        fits(r, DIR_LIMIT as int),
{
    proof {
        lemma_mul_bounds(unit.x as int, normal.x as int, 65536, 65536);
        lemma_mul_bounds(unit.y as int, normal.y as int, 65536, 65536);
        lemma_mul_bounds(unit.z as int, normal.z as int, 65536, 65536);
        lemma_mul_bounds(2 * dot_spec(unit, normal), normal.x as int, 25769803776, 65536);
        lemma_mul_bounds(2 * dot_spec(unit, normal), normal.y as int, 25769803776, 65536);
        lemma_mul_bounds(2 * dot_spec(unit, normal), normal.z as int, 25769803776, 65536);
        lemma_div_trunc_mag(2 * dot_spec(unit, normal) * normal.x, 0x1_0000_0000, 393216);
        lemma_div_trunc_mag(2 * dot_spec(unit, normal) * normal.y, 0x1_0000_0000, 393216);
        lemma_div_trunc_mag(2 * dot_spec(unit, normal) * normal.z, 0x1_0000_0000, 393216);
    }
    unit.reflect(normal)
}

} // verus!

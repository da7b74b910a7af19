//! Spheres and the analytic ray-sphere intersection.
//!
//! The intersection solves `a t^2 - 2 h t + c = 0` with `a = |d|^2`,
//! `h = d . (center - origin)` and `c = |center - origin|^2 - radius^2` over
//! raw fixed-point products, takes the near root first and falls back to the
//! far root, and accepts a root only strictly inside the given window. The
//! contract pins the result to `hit_t_spec`, the exact integer model of this
//! procedure, and carries the geometric facts the renderer relies on: the
//! parameter lies inside the window, the hit point is `ray.at(t)`, and the
//! stored normal opposes the incident ray.

use vstd::prelude::*;
use crate::fx::{
    SCALE, div_trunc, sqrt_floor, is_sqrt_floor, div_i128, isqrt_i128, lemma_div_trunc_mag,
    lemma_sqrt_floor_exists, lemma_div_trunc_ordered,
};
use crate::rtx::vector::{
    Vector, fits, dot_spec, sub_spec, neg_spec, normalize_spec, lemma_mul_bounds,
    COORD_LIMIT, DIR_LIMIT,
};
use crate::rtx::ray::{Ray, at_spec};
use crate::rtx::interval::Interval;
use crate::rtx::hit::Hit;
use crate::rtx::material::{Material, material_wf};
use crate::rtx::target::Target;

verus! {

/// Bound on the coordinates any traced point can reach.
pub const REACH_LIMIT: i64 = 0x80_0000_0000; // 1 << 39

/// Bound on the hit parameter: intersections further out are beyond the
/// model's range and rejected by the windows the renderer passes.
pub const T_LIMIT: i64 = 0x800_0000; // 1 << 27

#[derive(Clone, Copy, Debug, PartialEq, Eq, Structural)]
pub struct SphereData {
    pub center: Vector,
    pub radius: i64,
    pub material: Material,
}

pub open spec fn sphere_wf(s: SphereData) -> bool {
    &&& fits(s.center, COORD_LIMIT as int)
    &&& 0 < s.radius <= COORD_LIMIT
    &&& material_wf(s.material)
}

/// `|d|^2`, the leading coefficient.
pub open spec fn quad_a(ray: Ray) -> int {
    dot_spec(ray.direction, ray.direction)
}

/// `d . (center - origin)`, half the negated linear coefficient.
pub open spec fn quad_h(ray: Ray, center: Vector) -> int {
    ray.direction.x * (center.x - ray.origin.x) + ray.direction.y * (center.y - ray.origin.y)
        + ray.direction.z * (center.z - ray.origin.z)
}

/// `|center - origin|^2 - radius^2`, the constant coefficient.
pub open spec fn quad_c(ray: Ray, center: Vector, radius: int) -> int {
    let ox = center.x - ray.origin.x;
    let oy = center.y - ray.origin.y;
    let oz = center.z - ray.origin.z;
    ox * ox + oy * oy + oz * oz - radius * radius
}

pub open spec fn quad_disc(ray: Ray, center: Vector, radius: int) -> int {
    quad_h(ray, center) * quad_h(ray, center) - quad_a(ray) * quad_c(ray, center, radius)
}

/// The accepted hit parameter: the near root if it lies strictly inside the
/// window, else the far root, else none. A degenerate (zero) direction or a
/// negative discriminant yields none.
pub open spec fn hit_t_spec(ray: Ray, center: Vector, radius: int, tmin: int, tmax: int)
    -> Option<int> {
    let a = quad_a(ray);
    let disc = quad_disc(ray, center, radius);
    if a <= 0 || disc < 0 {
        None
    } else {
        let s = sqrt_floor(disc);
        let root1 = div_trunc((quad_h(ray, center) - s) * (SCALE as int), a);
        if tmin < root1 && root1 < tmax {
            Some(root1)
        } else {
            let root2 = div_trunc((quad_h(ray, center) + s) * (SCALE as int), a);
            if tmin < root2 && root2 < tmax {
                Some(root2)
            } else {
                None
            }
        }
    }
}

/// The full record for a hit of sphere `s` at parameter `t`: the hit point,
/// and the outward normal (the normalized offset from the center, which for
/// points on the sphere is `(p - center) / radius`), flipped to oppose the
/// incident ray.
pub open spec fn sphere_hit_record(s: SphereData, ray: Ray, t: int) -> Hit {
    let p = at_spec(ray, t);
    let outward = normalize_spec(sub_spec(p, s.center));
    let front = dot_spec(ray.direction, outward) < 0;
    Hit {
        p,
        normal: if front {
            outward
        } else {
            neg_spec(outward)
        },
        t: t as i64,
        front_face: front,
        target: Target::Sphere(s),
        material: s.material,
    }
}

/// Shrinking the upper end of the window is stable: a hit found in the
/// shrunken window is the hit of the full window, a full-window hit below the
/// cut is found in the shrunken window, and a miss in the shrunken window
/// means the full window has no hit below the cut.
pub proof fn lemma_hit_window(ray: Ray, center: Vector, radius: int, tmin: int, tmax: int, cut: int)
    requires
        cut <= tmax,
    ensures
        hit_t_spec(ray, center, radius, tmin, cut).is_some()
            ==> hit_t_spec(ray, center, radius, tmin, tmax)
                == hit_t_spec(ray, center, radius, tmin, cut),
        hit_t_spec(ray, center, radius, tmin, tmax).is_some()
            && hit_t_spec(ray, center, radius, tmin, tmax).unwrap() < cut
            ==> hit_t_spec(ray, center, radius, tmin, cut)
                == hit_t_spec(ray, center, radius, tmin, tmax),
        hit_t_spec(ray, center, radius, tmin, cut).is_none()
            && hit_t_spec(ray, center, radius, tmin, tmax).is_some()
            ==> hit_t_spec(ray, center, radius, tmin, tmax).unwrap() >= cut,
{
    let a = quad_a(ray);
    let disc = quad_disc(ray, center, radius);
    if a > 0 && disc >= 0 {
        lemma_sqrt_floor_exists(disc);
        let s = sqrt_floor(disc);
        let h = quad_h(ray, center);
        assert((h - s) * (SCALE as int) <= (h + s) * (SCALE as int)) by (nonlinear_arith)
            requires
                s >= 0,
        ;
        lemma_div_trunc_ordered((h - s) * (SCALE as int), (h + s) * (SCALE as int), a);
    }
}

impl SphereData {
    pub fn new(center: Vector, radius: i64, material: Material) -> (r: SphereData)
        requires
            fits(center, COORD_LIMIT as int),
            0 < radius <= COORD_LIMIT,
            material_wf(material),
        ensures
            r.center == center,
            r.radius == radius,
            r.material == material,
            sphere_wf(r),
    {
        SphereData { center, radius, material }
    }

    /// The hit record at a given accepted parameter.
    fn record_at(&self, ray: Ray, rt: i64) -> (h: Hit)
        requires
            sphere_wf(*self),
            fits(ray.origin, REACH_LIMIT as int),
            fits(ray.direction, DIR_LIMIT as int),
            -T_LIMIT <= rt <= T_LIMIT,
        ensures
            h == sphere_hit_record(*self, ray, rt as int),
            h.t == rt,
            h.material == self.material,
            dot_spec(ray.direction, h.normal) <= 0,
            fits(h.normal, SCALE as int),
            -0x2_0000_0000 <= h.p.x - ray.origin.x <= 0x2_0000_0000,
            -0x2_0000_0000 <= h.p.y - ray.origin.y <= 0x2_0000_0000,
            -0x2_0000_0000 <= h.p.z - ray.origin.z <= 0x2_0000_0000,
    {
        let p = ray.at(rt);
        proof {
            lemma_mul_bounds(ray.direction.x as int, rt as int, DIR_LIMIT as int, T_LIMIT as int);
            lemma_mul_bounds(ray.direction.y as int, rt as int, DIR_LIMIT as int, T_LIMIT as int);
            lemma_mul_bounds(ray.direction.z as int, rt as int, DIR_LIMIT as int, T_LIMIT as int);
            lemma_div_trunc_mag(ray.direction.x * rt, 65536, 0x2_0000_0000);
            lemma_div_trunc_mag(ray.direction.y * rt, 65536, 0x2_0000_0000);
            lemma_div_trunc_mag(ray.direction.z * rt, 65536, 0x2_0000_0000);
        }
        let outward = p.sub(self.center).normalize();
        proof {
            if !(dot_spec(ray.direction, outward) < 0) {
                assert(fits(neg_spec(outward), SCALE as int));
            }
        }
        Hit::new(p, rt, ray, outward, Target::Sphere(*self), self.material)
    }

    /// Nearest intersection with this sphere strictly inside the window.
    pub fn hit(&self, ray: Ray, t: Interval) -> (r: Option<Hit>)
        requires
            sphere_wf(*self),
            fits(ray.origin, REACH_LIMIT as int),
            fits(ray.direction, DIR_LIMIT as int),
            -T_LIMIT <= t.min,
            t.max <= T_LIMIT,
        ensures
            r.is_some() == hit_t_spec(
                ray, self.center, self.radius as int, t.min as int, t.max as int).is_some(),
            r matches Some(h) ==> {
                &&& hit_t_spec(ray, self.center, self.radius as int, t.min as int, t.max as int)
                    == Some(h.t as int)
                &&& h == sphere_hit_record(*self, ray, h.t as int)
                &&& t.min < h.t < t.max
                &&& h.material == self.material
                &&& material_wf(h.material)
                &&& dot_spec(ray.direction, h.normal) <= 0
                &&& fits(h.normal, SCALE as int)
                &&& -0x2_0000_0000 <= h.p.x - ray.origin.x <= 0x2_0000_0000
                &&& -0x2_0000_0000 <= h.p.y - ray.origin.y <= 0x2_0000_0000
                &&& -0x2_0000_0000 <= h.p.z - ray.origin.z <= 0x2_0000_0000
            },
    {
        let ocx: i64 = self.center.x - ray.origin.x;
        let ocy: i64 = self.center.y - ray.origin.y;
        let ocz: i64 = self.center.z - ray.origin.z;
        let dx = ray.direction.x;
        let dy = ray.direction.y;
        let dz = ray.direction.z;
        proof {
            lemma_mul_bounds(dx as int, dx as int, 0x40_0000, 0x40_0000);
            lemma_mul_bounds(dy as int, dy as int, 0x40_0000, 0x40_0000);
            lemma_mul_bounds(dz as int, dz as int, 0x40_0000, 0x40_0000);
            lemma_mul_bounds(dx as int, ocx as int, 0x40_0000, 0x90_0000_0000);
            lemma_mul_bounds(dy as int, ocy as int, 0x40_0000, 0x90_0000_0000);
            lemma_mul_bounds(dz as int, ocz as int, 0x40_0000, 0x90_0000_0000);
            lemma_mul_bounds(ocx as int, ocx as int, 0x90_0000_0000, 0x90_0000_0000);
            lemma_mul_bounds(ocy as int, ocy as int, 0x90_0000_0000, 0x90_0000_0000);
            lemma_mul_bounds(ocz as int, ocz as int, 0x90_0000_0000, 0x90_0000_0000);
            lemma_mul_bounds(self.radius as int, self.radius as int,
                0x10_0000_0000, 0x10_0000_0000);
        }
        let a: i128 = (dx as i128) * (dx as i128) + (dy as i128) * (dy as i128)
            + (dz as i128) * (dz as i128);
        let hq: i128 = (dx as i128) * (ocx as i128) + (dy as i128) * (ocy as i128)
            + (dz as i128) * (ocz as i128);
        let cq: i128 = (ocx as i128) * (ocx as i128) + (ocy as i128) * (ocy as i128)
            + (ocz as i128) * (ocz as i128) - (self.radius as i128) * (self.radius as i128);
        if a <= 0 {
            return None;
        }
        proof {
            lemma_mul_bounds(hq as int, hq as int,
                0x6c00_0000_0000_0000, 0x6c00_0000_0000_0000);
            lemma_mul_bounds(a as int, cq as int,
                0x3000_0000_0000, 0xf400_0000_0000_0000_0000);
        }
        let disc: i128 = hq * hq - a * cq;
        if disc < 0 {
            return None;
        }
        let s: i128 = isqrt_i128(disc);
        proof {
            assert(s <= 0xa000_0000_0000_0000i128) by (nonlinear_arith)
                requires
                    s as int * s as int <= disc as int,
                    0 <= disc <= 0x6000_0000_0000_0000_0000_0000_0000_0000i128,
                    s >= 0,
            ;
        }
        let root1: i128 = div_i128((hq - s) * 65536, a);
        if (t.min as i128) < root1 && root1 < (t.max as i128) {
            let rt = root1 as i64;
            Some(self.record_at(ray, rt))
        } else {
            let root2: i128 = div_i128((hq + s) * 65536, a);
            if (t.min as i128) < root2 && root2 < (t.max as i128) {
                let rt = root2 as i64;
                Some(self.record_at(ray, rt))
            } else {
                None
            }
        }
    }
}

} // verus!

//! The camera: viewport geometry derived once from the configuration, sample
//! ray generation with antialiasing jitter and thin-lens defocus, the
//! recursive radiance estimate, and the row-based render schedule with its
//! task partition and order-independent reassembly.
//!
//! Angles enter as tangents of half-angles in fixed point (the caller
//! computes `tan(vfov / 2)` and `tan(defocus_angle / 2)`), since the model
//! works on fixed-point scalars only.

use vstd::prelude::*;
use crate::fx::{
    SCALE, div_trunc, mul_fx, div_i128, lemma_div_trunc_bounds, lemma_div_trunc_mag,
};
use crate::rng::SampleRng;
use crate::rtx::vector::{
    Vector, vec3, fits, add_spec, sub_spec, neg_spec, scale_spec, mul_vec_spec, div_int_spec,
    cross_spec, normalize_spec, random_disk_from, draw_in_spec, draw_scalar, mul_fx_exec,
    lemma_mul_bounds, UNIT_TRIES, DIR_LIMIT,
};
use crate::rng::next_state_spec;
use crate::rtx::ray::Ray;
use crate::rtx::rgb::{RGB, rgb_wf};
use crate::rtx::interval::Interval;
use crate::rtx::hittable::{Hittable, hittable_targets, hittable_wf};
use crate::rtx::target::Target;
use crate::rtx::target_list::scene_hit_spec;
use crate::rtx::material::scatter_spec;
use crate::rtx::sphere::T_LIMIT;

verus! {

/// Lower end of the search window for every bounce: keeps a scattered ray
/// from immediately re-hitting its own surface.
pub const EPS_T: i64 = 66;

/// Largest supported bounce depth: keeps every reachable point within the
/// coordinate budget of the intersection arithmetic.
pub const MAX_DEPTH: usize = 50;

/// A row range; purely a scheduling unit.
#[derive(Clone, Copy, Debug, PartialEq, Eq, Structural)]
pub struct RenderTask {
    pub start_row: usize,
    pub end_row: usize,
}

impl RenderTask {
    pub fn new(start_row: usize, end_row: usize) -> (r: RenderTask)
        ensures
            r.start_row == start_row,
            r.end_row == end_row,
    {
        RenderTask { start_row, end_row }
    }
}

#[derive(Clone, Copy, Debug, PartialEq, Eq, Structural)]
pub struct Camera {
    pub aspect_ratio: i64,
    pub image_width: usize,
    pub image_height: usize,
    pub samples_per_pixel: usize,
    pub max_depth: usize,
    pub tan_half_vfov: i64,
    pub lookfrom: Vector,
    pub lookat: Vector,
    pub vup: Vector,
    pub tan_half_defocus: i64,
    pub focus_dist: i64,
    pub center: Vector,
    pub pixel00_loc: Vector,
    pub pixel_delta_u: Vector,
    pub pixel_delta_v: Vector,
    pub defocus_disk_u: Vector,
    pub defocus_disk_v: Vector,
}

/// The derived state `Camera::new` computes from the configuration.
pub open spec fn camera_spec(
    image_width: usize,
    image_height: usize,
    samples_per_pixel: usize,
    max_depth: usize,
    tan_half_vfov: i64,
    lookfrom: Vector,
    lookat: Vector,
    vup: Vector,
    tan_half_defocus: i64,
    focus_dist: i64,
) -> Camera {
    let aspect_ratio = div_trunc(image_width * 65536, image_height as int);
    let center = lookfrom;
    let viewport_height = 2 * mul_fx(tan_half_vfov as int, focus_dist as int);
    let viewport_width = mul_fx(viewport_height, aspect_ratio);
    let w = normalize_spec(sub_spec(lookfrom, lookat));
    let u = normalize_spec(cross_spec(vup, w));
    let v = cross_spec(w, u);
    let viewport_u = scale_spec(u, viewport_width);
    let viewport_v = scale_spec(neg_spec(v), viewport_height);
    let pixel_delta_u = div_int_spec(viewport_u, image_width as int);
    let pixel_delta_v = div_int_spec(viewport_v, image_height as int);
    let viewport_upper_left = sub_spec(
        sub_spec(
            sub_spec(center, scale_spec(w, focus_dist as int)),
            div_int_spec(viewport_u, 2),
        ),
        div_int_spec(viewport_v, 2),
    );
    let pixel00_loc = add_spec(
        viewport_upper_left,
        div_int_spec(add_spec(pixel_delta_u, pixel_delta_v), 2),
    );
    let defocus_radius = mul_fx(focus_dist as int, tan_half_defocus as int);
    let defocus_disk_u = scale_spec(u, defocus_radius);
    let defocus_disk_v = scale_spec(v, defocus_radius);
    Camera {
        aspect_ratio: aspect_ratio as i64,
        image_width,
        image_height,
        samples_per_pixel,
        max_depth,
        tan_half_vfov,
        lookfrom,
        lookat,
        vup,
        tan_half_defocus,
        focus_dist,
        center,
        pixel00_loc,
        pixel_delta_u,
        pixel_delta_v,
        defocus_disk_u,
        defocus_disk_v,
    }
}

/// The bounds ray generation and rendering rely on.
pub open spec fn camera_wf(c: Camera) -> bool {
    &&& 1 <= c.image_width <= 16384
    &&& 1 <= c.image_height <= 16384
    &&& 1 <= c.samples_per_pixel <= 0x10_0000
    &&& 1 <= c.max_depth <= MAX_DEPTH
    &&& fits(c.center, 0x10_0000_0000)
    &&& fits(c.pixel00_loc, 0x40_0000_0000)
    &&& fits(c.pixel_delta_u, 0x10_0000_0000)
    &&& fits(c.pixel_delta_v, 0x10_0000_0000)
    &&& -0x10_0000_0000 <= c.image_width * c.pixel_delta_u.x <= 0x10_0000_0000
    &&& -0x10_0000_0000 <= c.image_width * c.pixel_delta_u.y <= 0x10_0000_0000
    &&& -0x10_0000_0000 <= c.image_width * c.pixel_delta_u.z <= 0x10_0000_0000
    &&& -0x10_0000_0000 <= c.image_height * c.pixel_delta_v.x <= 0x10_0000_0000
    &&& -0x10_0000_0000 <= c.image_height * c.pixel_delta_v.y <= 0x10_0000_0000
    &&& -0x10_0000_0000 <= c.image_height * c.pixel_delta_v.z <= 0x10_0000_0000
    &&& fits(c.defocus_disk_u, 0x8000_0000)
    &&& fits(c.defocus_disk_v, 0x8000_0000)
}

impl Camera {
    /// Derive the viewport geometry and defocus basis once from the
    /// configuration.
    #[verifier::rlimit(100)]
    #[verifier::spinoff_prover]
    pub fn new(
        image_width: usize,
        image_height: usize,
        samples_per_pixel: usize,
        max_depth: usize,
        tan_half_vfov: i64,
        lookfrom: Vector,
        lookat: Vector,
        vup: Vector,
        tan_half_defocus: i64,
        focus_dist: i64,
    ) -> (r: Camera)
        requires
            1 <= image_width <= 16384,
            1 <= image_height <= 16384,
            image_width <= 64 * image_height,
            1 <= samples_per_pixel <= 0x10_0000,
            1 <= max_depth <= MAX_DEPTH,
            0 < tan_half_vfov <= 262144,
            fits(lookfrom, 0x10_0000_0000),
            fits(lookat, 0x10_0000_0000),
            fits(vup, 0x10_0000_0000),
            0 <= tan_half_defocus <= 262144,
            0 < focus_dist <= 0x400_0000,
        ensures
            r == camera_spec(
                image_width, image_height, samples_per_pixel, max_depth, tan_half_vfov,
                lookfrom, lookat, vup, tan_half_defocus, focus_dist),
            camera_wf(r),
    {
        proof {
            lemma_div_trunc_mag(image_width * 65536, image_height as int, 4194304);
        }
        let aspect_ratio: i64 = div_i128(
            (image_width as i128) * 65536, image_height as i128) as i64;
        let center = lookfrom;
        proof {
            lemma_mul_bounds(tan_half_vfov as int, focus_dist as int, 262144, 0x400_0000);
            lemma_div_trunc_mag(tan_half_vfov * focus_dist, 65536, 0x1000_0000);
        }
        let viewport_height: i64 = 2 * mul_fx_exec(tan_half_vfov, focus_dist);
        proof {
            lemma_mul_bounds(viewport_height as int, aspect_ratio as int, 0x2000_0000, 4194304);
            lemma_div_trunc_mag(viewport_height * aspect_ratio, 65536, 0x8_0000_0000);
        }
        let viewport_width: i64 = mul_fx_exec(viewport_height, aspect_ratio);
        let w = lookfrom.sub(lookat).normalize();
        proof {
            crate::rtx::vector::lemma_cross_bound(vup, w, 0x10_0000_0000, 65536);
        }
        let u = vup.cross(w).normalize();
        let v = w.cross(u);
        proof {
            assert(fits(v, 131072int)) by {
                lemma_mul_bounds(w.y as int, u.z as int, 65536, 65536);
                lemma_mul_bounds(w.z as int, u.y as int, 65536, 65536);
                lemma_mul_bounds(w.z as int, u.x as int, 65536, 65536);
                lemma_mul_bounds(w.x as int, u.z as int, 65536, 65536);
                lemma_mul_bounds(w.x as int, u.y as int, 65536, 65536);
                lemma_mul_bounds(w.y as int, u.x as int, 65536, 65536);
                lemma_div_trunc_mag(w.y * u.z - w.z * u.y, 65536, 131072);
                lemma_div_trunc_mag(w.z * u.x - w.x * u.z, 65536, 131072);
                lemma_div_trunc_mag(w.x * u.y - w.y * u.x, 65536, 131072);
            }
        }
        proof {
            lemma_scale_bound(u, viewport_width as int, 65536, 0x8_0000_0000);
            lemma_scale_bound(neg_spec(v), viewport_height as int, 131072, 0x2000_0000);
        }
        let viewport_u = u.scale(viewport_width);
        let viewport_v = v.neg().scale(viewport_height);
        proof {
            lemma_div_int_scaled(viewport_u, image_width as int, 0x8_0000_0001);
            lemma_div_int_scaled(viewport_v, image_height as int, 0x4000_0001);
            lemma_div_int_scaled(viewport_u, 2, 0x8_0000_0001);
            lemma_div_int_scaled(viewport_v, 2, 0x4000_0001);
        }
        let pixel_delta_u = viewport_u.div_int(image_width as i64);
        let pixel_delta_v = viewport_v.div_int(image_height as i64);
        proof {
            lemma_scale_bound(w, focus_dist as int, 65536, 0x400_0000);
        }
        let viewport_upper_left = center
            .sub(w.scale(focus_dist))
            .sub(viewport_u.div_int(2))
            .sub(viewport_v.div_int(2));
        proof {
            lemma_div_int_scaled(
                add_spec(pixel_delta_u, pixel_delta_v), 2, 0xC_0000_0002);
        }
        let pixel00_loc = viewport_upper_left.add(pixel_delta_u.add(pixel_delta_v).div_int(2));
        proof {
            lemma_mul_bounds(focus_dist as int, tan_half_defocus as int, 0x400_0000, 262144);
            lemma_div_trunc_mag(focus_dist * tan_half_defocus, 65536, 0x1000_0000);
        }
        let defocus_radius: i64 = mul_fx_exec(focus_dist, tan_half_defocus);
        proof {
            lemma_scale_bound(u, defocus_radius as int, 65536, 0x1000_0000);
            lemma_scale_bound(v, defocus_radius as int, 131072, 0x1000_0000);
        }
        let defocus_disk_u = u.scale(defocus_radius);
        let defocus_disk_v = v.scale(defocus_radius);
        Camera {
            aspect_ratio,
            image_width,
            image_height,
            samples_per_pixel,
            max_depth,
            tan_half_vfov,
            lookfrom,
            lookat,
            vup,
            tan_half_defocus,
            focus_dist,
            center,
            pixel00_loc,
            pixel_delta_u,
            pixel_delta_v,
            defocus_disk_u,
            defocus_disk_v,
        }
    }
}

/// A scaled vector's components are bounded by the product of the bounds.
proof fn lemma_scale_bound(a: Vector, s: int, ba: int, bs: int)
    requires
        fits(a, ba),
        -bs <= s <= bs,
        0 <= ba,
        0 <= bs,
        ba * bs <= 0x7fff_ffff_ffff_ffff * 65536,
    ensures
        fits(scale_spec(a, s), div_trunc(ba * bs, 65536) + 1),
        -(ba * bs) <= a.x * s <= ba * bs,
        -(ba * bs) <= a.y * s <= ba * bs,
        -(ba * bs) <= a.z * s <= ba * bs,
{
    lemma_mul_bounds(a.x as int, s, ba, bs);
    lemma_mul_bounds(a.y as int, s, ba, bs);
    lemma_mul_bounds(a.z as int, s, ba, bs);
    lemma_div_trunc_bounds(ba * bs, 65536);
    let bound = div_trunc(ba * bs, 65536) + 1;
    assert(ba * bs <= bound * 65536) by (nonlinear_arith)
        requires
            65536 * div_trunc(ba * bs, 65536) > ba * bs - 65536,
            bound == div_trunc(ba * bs, 65536) + 1,
    ;
    lemma_div_trunc_mag(a.x * s, 65536, bound);
    lemma_div_trunc_mag(a.y * s, 65536, bound);
    lemma_div_trunc_mag(a.z * s, 65536, bound);
}

/// Dividing a bounded vector by a positive count keeps each component within
/// the bound, and the count times the quotient within the original bound.
proof fn lemma_div_int_scaled(a: Vector, n: int, ba: int)
    requires
        fits(a, ba),
        0 < n,
        0 <= ba,
    ensures
        fits(div_int_spec(a, n), ba),
        -ba <= n * div_trunc(a.x as int, n) <= ba,
        -ba <= n * div_trunc(a.y as int, n) <= ba,
        -ba <= n * div_trunc(a.z as int, n) <= ba,
{
    lemma_div_trunc_bounds(a.x as int, n);
    lemma_div_trunc_bounds(a.y as int, n);
    lemma_div_trunc_bounds(a.z as int, n);
    lemma_div_int_sign(a.x as int, n);
    lemma_div_int_sign(a.y as int, n);
    lemma_div_int_sign(a.z as int, n);
}

/// The product of the divisor with the quotient keeps the dividend's sign.
proof fn lemma_div_int_sign(m: int, n: int)
    requires
        0 < n,
    ensures
        m >= 0 ==> 0 <= n * div_trunc(m, n),
        m <= 0 ==> n * div_trunc(m, n) <= 0,
{
    lemma_div_trunc_bounds(m, n);
    if m >= 0 {
        assert(0 <= n * div_trunc(m, n)) by (nonlinear_arith)
            requires
                0 < n,
                0 <= div_trunc(m, n),
        ;
    } else {
        assert(n * div_trunc(m, n) <= 0) by (nonlinear_arith)
            requires
                0 < n,
                div_trunc(m, n) <= 0,
        ;
    }
}

/// One sample ray for pixel `(i, j)`: sub-pixel jitter drawn uniformly in
/// `[-1/2, 1/2)` on each axis, the origin on the defocus disk when defocus is
/// on, and a normalized direction toward the sampled point.
pub open spec fn get_ray_spec(c: Camera, i: int, j: int, state: u64) -> (Ray, u64) {
    let ox = draw_in_spec(state, -32768, 32768);
    let s1 = next_state_spec(state);
    let oy = draw_in_spec(s1, -32768, 32768);
    let s2 = next_state_spec(s1);
    let pixel_sample = add_spec(
        add_spec(c.pixel00_loc, scale_spec(c.pixel_delta_u, i * 65536 + ox)),
        scale_spec(c.pixel_delta_v, j * 65536 + oy),
    );
    let (origin, s3) = if c.tan_half_defocus <= 0 {
        (c.center, s2)
    } else {
        let (p, sd) = random_disk_from(s2, UNIT_TRIES as nat);
        (
            add_spec(
                add_spec(c.center, scale_spec(c.defocus_disk_u, p.x as int)),
                scale_spec(c.defocus_disk_v, p.y as int),
            ),
            sd,
        )
    };
    let direction = normalize_spec(sub_spec(pixel_sample, origin));
    (Ray { origin, direction }, s3)
}

/// The sky gradient a missed ray shows: white blended toward light blue by
/// the vertical component of the normalized direction.
pub open spec fn background_spec(ray: Ray) -> RGB {
    let d = normalize_spec(ray.direction);
    let t = div_trunc(d.y + 65536, 2);
    vec3(
        mul_fx(65536 - t, 65536) + mul_fx(t, 32768),
        mul_fx(65536 - t, 65536) + mul_fx(t, 45875),
        mul_fx(65536 - t, 65536) + mul_fx(t, 65536),
    )
}

/// The radiance estimate: at depth zero black; at a miss the accumulated
/// attenuation times the sky gradient; at a hit one scatter step, the
/// attenuation folded into the accumulator, and one bounce less.
pub open spec fn ray_color_from(
    targets: Seq<Target>, ray: Ray, depth: nat, acc: RGB, state: u64,
) -> (RGB, u64)
    decreases depth,
{
    if depth == 0 {
        (vec3(0, 0, 0), state)
    } else {
        match scene_hit_spec(targets, ray, EPS_T as int, T_LIMIT as int) {
            Some(h) => {
                let (att, sray, s2) = scatter_spec(h.material, ray, h, state);
                ray_color_from(targets, sray, (depth - 1) as nat, mul_vec_spec(acc, att), s2)
            },
            None => (mul_vec_spec(acc, background_spec(ray)), state),
        }
    }
}

/// Scaling a pixel delta by an in-image jitter offset stays within the
/// viewport bound.
proof fn lemma_pixel_step(d: Vector, n: int, s: int)
    requires
        -0x10_0000_0000 <= n * d.x <= 0x10_0000_0000,
        -0x10_0000_0000 <= n * d.y <= 0x10_0000_0000,
        -0x10_0000_0000 <= n * d.z <= 0x10_0000_0000,
        0 < n,
        -(n * 65536) <= s <= n * 65536,
    ensures
        fits(scale_spec(d, s), 0x10_0000_0000),
        -(0x10_0000_0000 * 65536) <= d.x * s <= 0x10_0000_0000 * 65536,
        -(0x10_0000_0000 * 65536) <= d.y * s <= 0x10_0000_0000 * 65536,
        -(0x10_0000_0000 * 65536) <= d.z * s <= 0x10_0000_0000 * 65536,
{
    assert(-(0x10_0000_0000 * 65536) <= d.x * s <= 0x10_0000_0000 * 65536) by (nonlinear_arith)
        requires
            -0x10_0000_0000 <= n * d.x <= 0x10_0000_0000,
            0 < n,
            -(n * 65536) <= s <= n * 65536,
    ;
    assert(-(0x10_0000_0000 * 65536) <= d.y * s <= 0x10_0000_0000 * 65536) by (nonlinear_arith)
        requires
            -0x10_0000_0000 <= n * d.y <= 0x10_0000_0000,
            0 < n,
            -(n * 65536) <= s <= n * 65536,
    ;
    assert(-(0x10_0000_0000 * 65536) <= d.z * s <= 0x10_0000_0000 * 65536) by (nonlinear_arith)
        requires
            -0x10_0000_0000 <= n * d.z <= 0x10_0000_0000,
            0 < n,
            -(n * 65536) <= s <= n * 65536,
    ;
    lemma_div_trunc_mag(d.x * s, 65536, 0x10_0000_0000);
    lemma_div_trunc_mag(d.y * s, 65536, 0x10_0000_0000);
    lemma_div_trunc_mag(d.z * s, 65536, 0x10_0000_0000);
}

impl Camera {
    /// Origin for a defocused ray: a point on the defocus disk.
    fn defocus_disk_sample(&self, rng: &mut SampleRng) -> (r: Vector)
        requires
            camera_wf(*self),
        ensures
            ({
                let (p, s) = random_disk_from(old(rng).state, UNIT_TRIES as nat);
                r == add_spec(
                    add_spec(self.center, scale_spec(self.defocus_disk_u, p.x as int)),
                    scale_spec(self.defocus_disk_v, p.y as int),
                ) && final(rng).state == s
            }),
            fits(r, 0x11_0000_0000),
    {
        let p = Vector::random_in_unit_disk(rng);
        proof {
            lemma_scale_bound(self.defocus_disk_u, p.x as int, 0x8000_0000, 65536);
            lemma_scale_bound(self.defocus_disk_v, p.y as int, 0x8000_0000, 65536);
        }
        self.center.add(self.defocus_disk_u.scale(p.x)).add(self.defocus_disk_v.scale(p.y))
    }

    /// One sample ray through pixel `(i, j)`.
    pub fn get_ray(&self, i: usize, j: usize, rng: &mut SampleRng) -> (r: Ray)
        requires
            camera_wf(*self),
            i < self.image_width,
            j < self.image_height,
        ensures
            ({
                let (ray, s) = get_ray_spec(*self, i as int, j as int, old(rng).state);
                r == ray && final(rng).state == s
            }),
            fits(r.origin, 0x11_0000_0000),
            fits(r.direction, SCALE as int),
    {
        let ox = draw_scalar(rng, -32768, 32768);
        let oy = draw_scalar(rng, -32768, 32768);
        let sx: i64 = (i as i64) * SCALE + ox;
        let sy: i64 = (j as i64) * SCALE + oy;
        proof {
            lemma_pixel_step(self.pixel_delta_u, self.image_width as int, sx as int);
            lemma_pixel_step(self.pixel_delta_v, self.image_height as int, sy as int);
        }
        let a = self.pixel_delta_u.scale(sx);
        let b = self.pixel_delta_v.scale(sy);
        let pixel_sample = self.pixel00_loc.add(a).add(b);
        let origin = if self.tan_half_defocus <= 0 {
            self.center
        } else {
            self.defocus_disk_sample(rng)
        };
        let direction = pixel_sample.sub(origin).normalize();
        Ray::new(origin, direction)
    }

    /// The radiance estimate for one camera ray.
    pub fn ray_color(&self, ray: Ray, world: &Hittable, depth: usize, rng: &mut SampleRng)
        -> (r: RGB)
        requires
            hittable_wf(*world),
            depth <= MAX_DEPTH,
            fits(ray.origin, 0x80_0000_0000 - depth * 0x2_0000_0000),
            fits(ray.direction, DIR_LIMIT as int),
        ensures
            ({
                let (c, s) = ray_color_from(
                    hittable_targets(*world), ray, depth as nat, vec3(65536, 65536, 65536),
                    old(rng).state);
                r == c && final(rng).state == s
            }),
            rgb_wf(r),
    {
        let white = Vector::new(SCALE, SCALE, SCALE);
        ray_color_acc(ray, world, depth, white, rng)
    }
}

/// The sky gradient of a missed ray.
pub fn background(ray: Ray) -> (r: RGB)
    requires
        fits(ray.direction, 0x1000_0000_0000_0000),
    ensures
        r == background_spec(ray),
        rgb_wf(r),
{
    let d = ray.direction.normalize();
    proof {
        lemma_div_trunc_bounds((d.y + 65536) as int, 2);
    }
    let t: i64 = div_i128((d.y as i128) + 65536, 2) as i64;
    proof {
        lemma_background_channel(t as int, 32768);
        lemma_background_channel(t as int, 45875);
        lemma_background_channel(t as int, 65536);
    }
    Vector::new(
        mul_fx_exec(SCALE - t, SCALE) + mul_fx_exec(t, 32768),
        mul_fx_exec(SCALE - t, SCALE) + mul_fx_exec(t, 45875),
        mul_fx_exec(SCALE - t, SCALE) + mul_fx_exec(t, 65536),
    )
}

/// Each blended channel of the sky gradient lies within `[0, SCALE]`.
proof fn lemma_background_channel(t: int, c: int)
    requires
        0 <= t <= 65536,
        0 <= c <= 65536,
    ensures
        mul_fx(65536 - t, 65536) == 65536 - t,
        0 <= mul_fx(t, c) <= t,
        0 <= mul_fx(65536 - t, 65536) + mul_fx(t, c) <= 65536,
        -(0x7fff_ffff_ffff_ffff * 65536) <= (65536 - t) * 65536 <= 0x7fff_ffff_ffff_ffff * 65536,
        -(0x7fff_ffff_ffff_ffff * 65536) <= t * c <= 0x7fff_ffff_ffff_ffff * 65536,
{
    lemma_mul_bounds(t, c, 65536, 65536);
    lemma_mul_bounds(65536 - t, 65536, 65536, 65536);
    assert((65536 - t) * 65536 >= 0 && t * c >= 0) by (nonlinear_arith)
        requires
            0 <= t <= 65536,
            0 <= c,
    ;
    vstd::arithmetic::div_mod::lemma_div_by_multiple(65536 - t, 65536);
    lemma_div_trunc_bounds(t * c, 65536);
    assert(t * c <= t * 65536) by (nonlinear_arith)
        requires
            0 <= t,
            c <= 65536,
    ;
    crate::fx::lemma_div_trunc_ordered(t * c, t * 65536, 65536);
    vstd::arithmetic::div_mod::lemma_div_by_multiple(t, 65536);
}

/// The recursion behind `ray_color`, with the accumulated attenuation as an
/// explicit argument so the data-parallel formulation computes the same
/// estimate.
fn ray_color_acc(ray: Ray, world: &Hittable, depth: usize, acc: RGB, rng: &mut SampleRng)
    -> (r: RGB)
    requires
        hittable_wf(*world),
        depth <= MAX_DEPTH,
        fits(ray.origin, 0x80_0000_0000 - depth * 0x2_0000_0000),
        fits(ray.direction, DIR_LIMIT as int),
        rgb_wf(acc),
    ensures
        ({
            let (c, s) = ray_color_from(
                hittable_targets(*world), ray, depth as nat, acc, old(rng).state);
            r == c && final(rng).state == s
        }),
        rgb_wf(r),
    decreases depth,
{
    if depth == 0 {
        return Vector::new(0, 0, 0);
    }
    let hit = world.hit(ray, Interval::new(EPS_T, T_LIMIT));
    match hit {
        Some(h) => {
            let sc = h.material.scatter(ray, h, rng);
            proof {
                crate::rtx::rgb::lemma_rgb_mul(acc, sc.attenuation);
            }
            let acc2 = acc.mul(sc.attenuation);
            ray_color_acc(sc.scattered, world, depth - 1, acc2, rng)
        },
        None => {
            let bg = background(ray);
            proof {
                crate::rtx::rgb::lemma_rgb_mul(acc, bg);
            }
            acc.mul(bg)
        },
    }
}

/// The running sum of `k` sample estimates for pixel `(x, y)`, and the
/// generator state after drawing them.
#[verifier::opaque]
pub open spec fn sample_sum_spec(
    c: Camera, targets: Seq<Target>, y: int, x: int, k: nat, state: u64,
) -> (RGB, u64)
    decreases k,
{
    if k == 0 {
        (vec3(0, 0, 0), state)
    } else {
        let (rest, s1) = sample_sum_spec(c, targets, y, x, (k - 1) as nat, state);
        let (ray, s2) = get_ray_spec(c, x, y, s1);
        let (col, s3) = ray_color_from(
            targets, ray, c.max_depth as nat, vec3(65536, 65536, 65536), s2);
        (add_spec(rest, col), s3)
    }
}

/// The average of the per-pixel sample estimates.
pub open spec fn render_pixel_spec(
    c: Camera, targets: Seq<Target>, y: int, x: int, state: u64,
) -> (RGB, u64) {
    let (sum, s) = sample_sum_spec(c, targets, y, x, c.samples_per_pixel as nat, state);
    (div_int_spec(sum, c.samples_per_pixel as int), s)
}

/// One row of pixels, left to right.
#[verifier::opaque]
pub open spec fn row_spec(
    c: Camera, targets: Seq<Target>, y: int, k: nat, state: u64,
) -> (Seq<RGB>, u64)
    decreases k,
{
    if k == 0 {
        (Seq::<RGB>::empty(), state)
    } else {
        let (rest, s1) = row_spec(c, targets, y, (k - 1) as nat, state);
        let (px, s2) = render_pixel_spec(c, targets, y, k - 1, s1);
        (rest.push(px), s2)
    }
}

/// The first `k` rows, flattened in row order.
#[verifier::opaque]
pub open spec fn image_spec(
    c: Camera, targets: Seq<Target>, k: nat, state: u64,
) -> (Seq<RGB>, u64)
    decreases k,
{
    if k == 0 {
        (Seq::<RGB>::empty(), state)
    } else {
        let (rest, s1) = image_spec(c, targets, (k - 1) as nat, state);
        let (row, s2) = row_spec(c, targets, k - 1, c.image_width as nat, s1);
        (rest + row, s2)
    }
}

/// Rows `y0 .. y0 + k`, each as its own sequence.
#[verifier::opaque]
pub open spec fn rows_from_spec(
    c: Camera, targets: Seq<Target>, y0: int, k: nat, state: u64,
) -> (Seq<Seq<RGB>>, u64)
    decreases k,
{
    if k == 0 {
        (Seq::<Seq<RGB>>::empty(), state)
    } else {
        let (rest, s1) = rows_from_spec(c, targets, y0, (k - 1) as nat, state);
        let (row, s2) = row_spec(c, targets, y0 + k - 1, c.image_width as nat, s1);
        (rest.push(row), s2)
    }
}

/// The row sequence of `rows_from_spec` has exactly `k` rows.
proof fn lemma_rows_from_len(c: Camera, targets: Seq<Target>, y0: int, k: nat, state: u64)
    ensures
        rows_from_spec(c, targets, y0, k, state).0.len() == k,
    decreases k,
{
    reveal_with_fuel(rows_from_spec, 2);
    if k > 0 {
        lemma_rows_from_len(c, targets, y0, (k - 1) as nat, state);
    }
}

impl Camera {
    /// Average of `samples_per_pixel` independent radiance estimates.
    pub fn render_pixel(&self, world: &Hittable, y: usize, x: usize, rng: &mut SampleRng)
        -> (r: RGB)
        requires
            camera_wf(*self),
            hittable_wf(*world),
            x < self.image_width,
            y < self.image_height,
        ensures
            ({
                let (c, s) = render_pixel_spec(
                    *self, hittable_targets(*world), y as int, x as int, old(rng).state);
                r == c && final(rng).state == s
            }),
            rgb_wf(r),
    {
        let ghost s0: u64 = rng.state;
        proof {
            reveal_with_fuel(sample_sum_spec, 2);
        }
        let mut color = Vector::new(0, 0, 0);
        let spp = self.samples_per_pixel;
        let mut k: usize = 0;
        while k < spp
            invariant
                camera_wf(*self),
                hittable_wf(*world),
                x < self.image_width,
                y < self.image_height,
                spp == self.samples_per_pixel,
                k <= spp,
                ({
                    let (c0, st) = sample_sum_spec(
                        *self, hittable_targets(*world), y as int, x as int, k as nat, s0);
                    color == c0 && rng.state == st
                }),
                0 <= color.x <= k * 65536,
                0 <= color.y <= k * 65536,
                0 <= color.z <= k * 65536,
            decreases spp - k,
        {
            let ray = self.get_ray(x, y, rng);
            let c = self.ray_color(ray, world, self.max_depth, rng);
            color = color.add(c);
            k = k + 1;
            proof {
                reveal_with_fuel(sample_sum_spec, 2);
            }
        }
        proof {
            reveal_with_fuel(sample_sum_spec, 1);
            lemma_div_trunc_mag(color.x as int, spp as int, 65536);
            lemma_div_trunc_mag(color.y as int, spp as int, 65536);
            lemma_div_trunc_mag(color.z as int, spp as int, 65536);
            lemma_div_trunc_bounds(color.x as int, spp as int);
            lemma_div_trunc_bounds(color.y as int, spp as int);
            lemma_div_trunc_bounds(color.z as int, spp as int);
        }
        color.div_int(spp as i64)
    }

    /// One full row of pixels.
    pub fn render_row(&self, world: &Hittable, y: usize, rng: &mut SampleRng) -> (r: Vec<RGB>)
        requires
            camera_wf(*self),
            hittable_wf(*world),
            y < self.image_height,
        ensures
            ({
                let (row, s) = row_spec(
                    *self, hittable_targets(*world), y as int, self.image_width as nat,
                    old(rng).state);
                r@ == row && final(rng).state == s
            }),
            r@.len() == self.image_width,
    {
        let ghost s0: u64 = rng.state;
        proof {
            reveal_with_fuel(row_spec, 2);
        }
        let mut row: Vec<RGB> = Vec::new();
        let w = self.image_width;
        let mut x: usize = 0;
        while x < w
            invariant
                camera_wf(*self),
                hittable_wf(*world),
                y < self.image_height,
                w == self.image_width,
                x <= w,
                row@.len() == x,
                ({
                    let (rs, st) = row_spec(
                        *self, hittable_targets(*world), y as int, x as nat, s0);
                    row@ == rs && rng.state == st
                }),
            decreases w - x,
        {
            let px = self.render_pixel(world, y, x, rng);
            row.push(px);
            x = x + 1;
            proof {
                reveal_with_fuel(row_spec, 2);
            }
        }
        row
    }

    /// The whole image, one row after another, in row order.
    pub fn render(&self, world: &Hittable, rng: &mut SampleRng) -> (r: Vec<RGB>)
        requires
            camera_wf(*self),
            hittable_wf(*world),
        ensures
            ({
                let (img, s) = image_spec(
                    *self, hittable_targets(*world), self.image_height as nat, old(rng).state);
                r@ == img && final(rng).state == s
            }),
            r@.len() == self.image_width * self.image_height,
    {
        let ghost s0: u64 = rng.state;
        proof {
            reveal_with_fuel(image_spec, 2);
        }
        let mut image: Vec<RGB> = Vec::new();
        let h = self.image_height;
        let mut y: usize = 0;
        while y < h
            invariant
                camera_wf(*self),
                hittable_wf(*world),
                h == self.image_height,
                y <= h,
                image@.len() == y * self.image_width,
                ({
                    let (img, st) = image_spec(
                        *self, hittable_targets(*world), y as nat, s0);
                    image@ == img && rng.state == st
                }),
            decreases h - y,
        {
            let mut row = self.render_row(world, y, rng);
            image.append(&mut row);
            y = y + 1;
            proof {
                reveal_with_fuel(image_spec, 2);
                assert((y - 1) * self.image_width + self.image_width == y * self.image_width)
                    by (nonlinear_arith);
            }
        }
        proof {
            assert(h * self.image_width == self.image_width * h) by (nonlinear_arith);
        }
        image
    }

    /// The rows of one task, each tagged with its row index.
    pub fn render_task(&self, world: &Hittable, task: RenderTask, rng: &mut SampleRng)
        -> (r: Vec<(usize, Vec<RGB>)>)
        requires
            camera_wf(*self),
            hittable_wf(*world),
            task.start_row <= task.end_row,
            task.end_row <= self.image_height,
        ensures
            r@.len() == task.end_row - task.start_row,
            forall|i: int| 0 <= i < r@.len() ==> (#[trigger] r@[i]).0 == task.start_row + i,
            forall|i: int| 0 <= i < r@.len() ==> (#[trigger] r@[i]).1@.len() == self.image_width,
            ({
                let (rows, s) = rows_from_spec(
                    *self, hittable_targets(*world), task.start_row as int,
                    (task.end_row - task.start_row) as nat, old(rng).state);
                final(rng).state == s
                && forall|i: int| 0 <= i < r@.len() ==> (#[trigger] r@[i]).1@ == rows[i]
            }),
    {
        self.render_rows_rec(world, task.start_row, task.end_row - task.start_row, rng)
    }

    /// Rows `y0 .. y0 + count`, tagged with their indices, rendered in order.
    #[verifier::rlimit(100)]
    #[verifier::spinoff_prover]
    fn render_rows_rec(&self, world: &Hittable, y0: usize, count: usize, rng: &mut SampleRng)
        -> (r: Vec<(usize, Vec<RGB>)>)
        requires
            camera_wf(*self),
            hittable_wf(*world),
            y0 + count <= self.image_height,
        ensures
            r@.len() == count,
            forall|i: int| 0 <= i < r@.len() ==> (#[trigger] r@[i]).0 == y0 + i,
            forall|i: int| 0 <= i < r@.len() ==> (#[trigger] r@[i]).1@.len() == self.image_width,
            ({
                let (rows, s) = rows_from_spec(
                    *self, hittable_targets(*world), y0 as int, count as nat, old(rng).state);
                final(rng).state == s
                && forall|i: int| 0 <= i < r@.len() ==> (#[trigger] r@[i]).1@ == rows[i]
            }),
        decreases count,
    {
        proof {
            reveal_with_fuel(rows_from_spec, 2);
        }
        if count == 0 {
            Vec::new()
        } else {
            let ghost st0: u64 = rng.state;
            let mut r = self.render_rows_rec(world, y0, count - 1, rng);
            let ghost pair_prev = rows_from_spec(
                *self, hittable_targets(*world), y0 as int, (count - 1) as nat, st0);
            let ghost st1: u64 = rng.state;
            let row = self.render_row(world, y0 + count - 1, rng);
            let ghost rowpair = row_spec(
                *self, hittable_targets(*world), y0 + count - 1,
                self.image_width as nat, st1);
            r.push((y0 + count - 1, row));
            proof {
                reveal_with_fuel(rows_from_spec, 2);
                lemma_rows_from_len(
                    *self, hittable_targets(*world), y0 as int, (count - 1) as nat, st0);
                let pair = rows_from_spec(
                    *self, hittable_targets(*world), y0 as int, count as nat, st0);
                assert(pair_prev.1 == st1);
                assert(pair.0 == pair_prev.0.push(rowpair.0) && pair.1 == rowpair.1);
                assert(rng.state == rowpair.1);
                assert(row@ == rowpair.0);
                assert forall|i: int| 0 <= i < r@.len()
                    implies (#[trigger] r@[i]).1@ == pair.0[i] by {
                    if i < count - 1 {
                        assert(r@[i].1@ == pair_prev.0[i]);
                    }
                }
            }
            r
        }
    }
}

/// Partition the image rows into contiguous tasks of `rows_per_task` rows,
/// the last one possibly shorter.
pub fn render_tasks(image_height: usize, rows_per_task: usize) -> (r: Vec<RenderTask>)
    requires
        1 <= rows_per_task,
        image_height <= 16384,
    ensures
        forall|k: int| 0 <= k < r@.len() ==> {
            &&& (#[trigger] r@[k]).start_row == k * rows_per_task
            &&& r@[k].end_row == if (k + 1) * rows_per_task <= image_height {
                (k + 1) * rows_per_task
            } else {
                image_height as int
            }
            &&& r@[k].start_row < r@[k].end_row <= image_height
        },
        image_height > 0 ==> r@.len() > 0 && r@[r@.len() - 1].end_row == image_height,
        image_height == 0 ==> r@.len() == 0,
{
    let mut tasks: Vec<RenderTask> = Vec::new();
    let mut current_row: usize = 0;
    proof {
        assert(tasks@.len() * rows_per_task == 0) by (nonlinear_arith)
            requires
                tasks@.len() == 0,
        ;
    }
    while current_row < image_height
        invariant
            1 <= rows_per_task,
            image_height <= 16384,
            current_row <= image_height,
            current_row == tasks@.len() * rows_per_task
                || (current_row == image_height && tasks@.len() > 0
                    && tasks@[tasks@.len() - 1].end_row == image_height),
            tasks@.len() > 0 ==> tasks@[tasks@.len() - 1].end_row == current_row,
            tasks@.len() == 0 ==> current_row == 0,
            forall|k: int| 0 <= k < tasks@.len() ==> {
                &&& (#[trigger] tasks@[k]).start_row == k * rows_per_task
                &&& tasks@[k].end_row == if (k + 1) * rows_per_task <= image_height {
                    (k + 1) * rows_per_task
                } else {
                    image_height as int
                }
                &&& tasks@[k].start_row < tasks@[k].end_row <= image_height
            },
        decreases image_height - current_row,
    {
        let start_row = current_row;
        let end_row = if rows_per_task <= image_height - current_row {
            current_row + rows_per_task
        } else {
            image_height
        };
        tasks.push(RenderTask::new(start_row, end_row));
        current_row = end_row;
        proof {
            let n = tasks@.len() as int;
            assert((n - 1) * rows_per_task + rows_per_task == n * rows_per_task)
                by (nonlinear_arith);
        }
    }
    tasks
}

/// Some message carries row `y`.
pub open spec fn has_row(messages: Seq<(usize, Vec<RGB>)>, y: int) -> bool {
    exists|j: int| 0 <= j < messages.len() && (#[trigger] messages[j]).0 == y
}

/// Reassemble rows reported in any completion order into a row-major image:
/// the output row order equals the row index carried by each message, not
/// the order in which the messages arrived.
pub fn assemble_rows(
    image_width: usize,
    image_height: usize,
    messages: &Vec<(usize, Vec<RGB>)>,
) -> (r: Vec<RGB>)
    requires
        image_width * image_height <= 0x1000_0000,
        forall|j: int| 0 <= j < messages@.len() ==> (#[trigger] messages@[j]).0 < image_height,
        forall|j: int| 0 <= j < messages@.len()
            ==> (#[trigger] messages@[j]).1@.len() == image_width,
        forall|y: int| 0 <= y < image_height ==> #[trigger] has_row(messages@, y),
        forall|j: int, k: int| 0 <= j < k < messages@.len()
            ==> (#[trigger] messages@[j]).0 != (#[trigger] messages@[k]).0,
    ensures
        r@.len() == image_width * image_height,
        forall|j: int, x: int|
            0 <= j < messages@.len() && 0 <= x < image_width
            ==> r@[(#[trigger] messages@[j]).0 * image_width + x]
                == (#[trigger] messages@[j].1@[x]),
{
    let mut out: Vec<RGB> = Vec::new();
    let mut y: usize = 0;
    while y < image_height
        invariant
            image_width * image_height <= 0x1000_0000,
            forall|j: int| 0 <= j < messages@.len() ==> (#[trigger] messages@[j]).0 < image_height,
            forall|j: int| 0 <= j < messages@.len()
                ==> (#[trigger] messages@[j]).1@.len() == image_width,
            forall|yy: int| 0 <= yy < image_height ==> #[trigger] has_row(messages@, yy),
            forall|j: int, k: int| 0 <= j < k < messages@.len()
                ==> (#[trigger] messages@[j]).0 != (#[trigger] messages@[k]).0,
            y <= image_height,
            out@.len() == y * image_width,
            forall|j: int, x: int|
                0 <= j < messages@.len() && 0 <= x < image_width && messages@[j].0 < y
                ==> out@[(#[trigger] messages@[j]).0 * image_width + x]
                    == (#[trigger] messages@[j].1@[x]),
        decreases image_height - y,
    {
        let mut j: usize = 0;
        while j < messages.len() && messages[j].0 != y
            invariant
                j <= messages@.len(),
                forall|jj: int| 0 <= jj < j ==> (#[trigger] messages@[jj]).0 != y,
            decreases messages@.len() - j,
        {
            j = j + 1;
        }
        proof {
            if j == messages@.len() {
                assert(has_row(messages@, y as int));
                assert(false);
            }
        }
        let row = &messages[j].1;
        let ghost out_before = out@;
        let mut x: usize = 0;
        while x < image_width
            invariant
                j < messages@.len(),
                messages@[j as int].0 == y,
                messages@[j as int].1@.len() == image_width,
                x <= image_width,
                out@.len() == out_before.len() + x,
                out@ =~= out_before + messages@[j as int].1@.subrange(0, x as int),
            decreases image_width - x,
        {
            let px = messages[j].1[x];
            out.push(px);
            x = x + 1;
            proof {
                assert(out@ =~= out_before + messages@[j as int].1@.subrange(0, x as int));
            }
        }
        y = y + 1;
        proof {
            assert(messages@[j as int].1@.subrange(0, image_width as int)
                =~= messages@[j as int].1@);
            assert((y - 1) * image_width + image_width == y * image_width) by (nonlinear_arith);
            assert(forall|jj: int, x: int|
                0 <= jj < messages@.len() && 0 <= x < image_width && messages@[jj].0 < y
                ==> out@[(#[trigger] messages@[jj]).0 * image_width + x]
                    == (#[trigger] messages@[jj].1@[x])) by {
                assert forall|jj: int, x: int|
                    0 <= jj < messages@.len() && 0 <= x < image_width && messages@[jj].0 < y
                    implies out@[(#[trigger] messages@[jj]).0 * image_width + x]
                        == (#[trigger] messages@[jj].1@[x]) by {
                    if messages@[jj].0 < y - 1 {
                        assert(out@[messages@[jj].0 * image_width + x]
                            == out_before[messages@[jj].0 * image_width + x]) by {
                            lemma_row_slot(messages@[jj].0 as int, x, y - 1, image_width as int);
                        }
                    } else {
                        assert(messages@[jj].0 == y - 1);
                        assert(jj == j) by {
                            if jj != j {
                                assert(messages@[jj].0 != messages@[j as int].0);
                            }
                        }
                        assert(out@[(y - 1) * image_width + x]
                            == messages@[j as int].1@.subrange(0, image_width as int)[x]);
                    }
                }
            }
        }
    }
    proof {
        assert(image_height * image_width == image_width * image_height) by (nonlinear_arith);
    }
    out
}

/// A slot in a row strictly before the last appended row lies inside the
/// earlier prefix.
proof fn lemma_row_slot(row: int, x: int, rows_done: int, width: int)
    requires
        0 <= row < rows_done,
        0 <= x < width,
    ensures
        0 <= row * width + x < rows_done * width,
        row * width + x < (rows_done + 1) * width,
{
    assert(0 <= row * width + x < rows_done * width) by (nonlinear_arith)
        requires
            0 <= row < rows_done,
            0 <= x < width,
    ;
    assert(rows_done * width < (rows_done + 1) * width) by (nonlinear_arith)
        requires
            width > 0,
            rows_done >= 0,
    ;
}

} // verus!

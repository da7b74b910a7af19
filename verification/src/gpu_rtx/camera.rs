//! Batch ray generation for the data-parallel renderer and the host-side
//! accumulation that mirrors its pixel-to-ray index mapping.
//!
//! A batch holds `batch` samples for every pixel as one flat buffer; the ray
//! for sample `s` of pixel `(x, y)` sits at index
//! `(y * width + x) * batch + s`, and the accumulation step reads exactly
//! that index back, so no reordering can creep in between generation and
//! summation.

use vstd::prelude::*;
use crate::rng::{SampleRng, next_u64_spec, next_state_spec};
use crate::rtx::vector::{Vector, vec3, fits, add_spec, div_int_spec, lemma_mul_bounds};
use crate::rtx::rgb::{RGB, rgb_wf};
use crate::rtx::camera::{Camera, camera_wf, get_ray_spec};
use crate::gpu_rtx::ray::{Ray as GpuRay, gpu_ray_wf};

verus! {

/// A row range; purely a scheduling unit.
#[derive(Clone, Copy, Debug, PartialEq, Eq, Structural)]
pub struct RenderTask {
    pub start_row: usize,
    pub end_row: usize,
}

impl RenderTask {
    pub fn new(start_row: usize, end_row: usize) -> (r: RenderTask)
        ensures
            r.start_row == start_row,
            r.end_row == end_row,
    {
        RenderTask { start_row, end_row }
    }
}

/// The ray generated for flat index `idx`: the camera sample ray for the
/// pixel the index encodes, white running color, a full bounce budget, and a
/// draw stream seeded from the generator.
pub open spec fn gen_one_spec(c: Camera, batch: int, idx: int, state: u64) -> (GpuRay, u64) {
    let x = (idx / batch) % (c.image_width as int);
    let y = (idx / batch) / (c.image_width as int);
    let (ray, s1) = get_ray_spec(c, x, y, state);
    let seed = next_u64_spec(s1);
    let s2 = next_state_spec(s1);
    (
        GpuRay {
            origin: ray.origin,
            direction: ray.direction,
            color: vec3(65536, 65536, 65536),
            bounces_left: c.max_depth as u32,
            rng: SampleRng { state: seed },
            done: false,
        },
        s2,
    )
}

/// The first `k` rays of a batch, in flat index order.
#[verifier::opaque]
pub open spec fn gen_rays_spec(c: Camera, batch: int, k: nat, state: u64) -> (Seq<GpuRay>, u64)
    decreases k,
{
    if k == 0 {
        (Seq::<GpuRay>::empty(), state)
    } else {
        let (rest, s1) = gen_rays_spec(c, batch, (k - 1) as nat, state);
        let (ray, s2) = gen_one_spec(c, batch, k - 1, s1);
        (rest.push(ray), s2)
    }
}

/// A pixel's running total after folding in its first `k` sample colors
/// from a flat traced buffer, starting from `start`.
pub open spec fn pixel_accum_spec(
    start: Vector, rays: Seq<GpuRay>, pix: int, batch: int, k: nat,
) -> Vector
    decreases k,
{
    if k == 0 {
        start
    } else {
        add_spec(
            pixel_accum_spec(start, rays, pix, batch, (k - 1) as nat),
            rays[pix * batch + (k - 1)].color,
        )
    }
}

impl Camera {
    /// One whole batch of sample rays, `batch` per pixel, as one flat
    /// buffer in the index order the accumulation step reads back.
    pub fn generate_rays(&self, batch: usize, rng: &mut SampleRng) -> (r: Vec<GpuRay>)
        requires
            camera_wf(*self),
            1 <= batch <= 64,
            self.image_width * self.image_height * batch <= 0x4000_0000,
        ensures
            r@.len() == self.image_width * self.image_height * batch,
            ({
                let (rays, s) = gen_rays_spec(
                    *self, batch as int,
                    (self.image_width * self.image_height * batch) as nat, old(rng).state);
                r@ == rays && final(rng).state == s
            }),
            forall|i: int| 0 <= i < r@.len() ==> gpu_ray_wf(#[trigger] r@[i]),
    {
        let ghost s0: u64 = rng.state;
        proof {
            reveal_with_fuel(gen_rays_spec, 2);
            lemma_mul_bounds(self.image_width as int, self.image_height as int, 16384, 16384);
            lemma_mul_bounds(
                (self.image_width * self.image_height) as int, batch as int,
                0x1000_0000, 64);
        }
        let total: usize = self.image_width * self.image_height * batch;
        let mut out: Vec<GpuRay> = Vec::new();
        let mut k: usize = 0;
        while k < total
            invariant
                camera_wf(*self),
                1 <= batch <= 64,
                total == self.image_width * self.image_height * batch,
                total <= 0x4000_0000,
                k <= total,
                out@.len() == k,
                ({
                    let (rays, st) = gen_rays_spec(*self, batch as int, k as nat, s0);
                    out@ == rays && rng.state == st
                }),
                forall|i: int| 0 <= i < out@.len() ==> gpu_ray_wf(#[trigger] out@[i]),
            decreases total - k,
        {
            let pix: usize = k / batch;
            let x: usize = pix % self.image_width;
            let y: usize = pix / self.image_width;
            proof {
                lemma_flat_index(
                    k as int, batch as int, self.image_width as int, self.image_height as int);
            }
            let ray = self.get_ray(x, y, rng);
            let seed = rng.next_u64();
            let gr = GpuRay {
                origin: ray.origin,
                direction: ray.direction,
                color: Vector::new(65536, 65536, 65536),
                bounces_left: self.max_depth as u32,
                rng: SampleRng::from_seed(seed),
                done: false,
            };
            out.push(gr);
            k = k + 1;
            proof {
                reveal_with_fuel(gen_rays_spec, 2);
            }
        }
        out
    }
}

/// A flat index below `width * height * batch` decodes to a pixel inside the
/// image.
proof fn lemma_flat_index(k: int, batch: int, width: int, height: int)
    requires
        0 <= k < width * height * batch,
        1 <= batch,
        1 <= width,
        1 <= height,
    ensures
        0 <= (k / batch) % width < width,
        0 <= (k / batch) / width < height,
{
    let pix = k / batch;
    vstd::arithmetic::div_mod::lemma_div_pos_is_pos(k, batch);
    vstd::arithmetic::div_mod::lemma_fundamental_div_mod(k, batch);
    vstd::arithmetic::div_mod::lemma_mod_bound(k, batch);
    assert(pix < width * height) by (nonlinear_arith)
        requires
            k < (width * height) * batch,
            batch * pix + (k % batch) == k,
            0 <= k % batch,
            1 <= batch,
            0 <= pix,
    ;
    vstd::arithmetic::div_mod::lemma_mod_bound(pix, width);
    vstd::arithmetic::div_mod::lemma_div_pos_is_pos(pix, width);
    vstd::arithmetic::div_mod::lemma_fundamental_div_mod(pix, width);
    vstd::arithmetic::div_mod::lemma_mod_bound(pix, width);
    assert(pix / width < height) by (nonlinear_arith)
        requires
            width * (pix / width) + (pix % width) == pix,
            0 <= pix % width,
            pix < width * height,
            1 <= width,
            0 <= pix / width,
    ;
}

/// Fold one traced batch into the per-pixel running totals, reading each
/// sample back from exactly the index it was generated at.
pub fn accumulate(accum: &mut Vec<RGB>, rays: &Vec<GpuRay>, batch: usize)
    requires
        1 <= batch <= 64,
        rays@.len() == old(accum)@.len() * batch,
        old(accum)@.len() <= 0x1000_0000,
        forall|p: int| 0 <= p < old(accum)@.len() ==> {
            &&& 0 <= (#[trigger] old(accum)@[p]).x <= 0x1000_0000_0000 - batch * 65536
            &&& 0 <= old(accum)@[p].y <= 0x1000_0000_0000 - batch * 65536
            &&& 0 <= old(accum)@[p].z <= 0x1000_0000_0000 - batch * 65536
        },
        forall|i: int| 0 <= i < rays@.len() ==> rgb_wf((#[trigger] rays@[i]).color),
    ensures
        final(accum)@.len() == old(accum)@.len(),
        forall|p: int| 0 <= p < final(accum)@.len() ==> #[trigger] final(accum)@[p]
            == pixel_accum_spec(old(accum)@[p], rays@, p, batch as int, batch as nat),
{
    let n = accum.len();
    let rlen = rays.len();
    let ghost accum0 = accum@;
    let mut p: usize = 0;
    while p < n
        invariant
            1 <= batch <= 64,
            rlen == rays@.len(),
            n == accum0.len(),
            accum@.len() == n,
            rays@.len() == n * batch,
            n <= 0x1000_0000,
            forall|q: int| 0 <= q < n ==> {
                &&& 0 <= (#[trigger] accum0[q]).x <= 0x1000_0000_0000 - batch * 65536
                &&& 0 <= accum0[q].y <= 0x1000_0000_0000 - batch * 65536
                &&& 0 <= accum0[q].z <= 0x1000_0000_0000 - batch * 65536
            },
            forall|i: int| 0 <= i < rays@.len() ==> rgb_wf((#[trigger] rays@[i]).color),
            p <= n,
            forall|q: int| 0 <= q < p ==> #[trigger] accum@[q]
                == pixel_accum_spec(accum0[q], rays@, q, batch as int, batch as nat),
            forall|q: int| p <= q < n ==> #[trigger] accum@[q] == accum0[q],
        decreases n - p,
    {
        proof {
            lemma_pixel_slot(p as int, batch as int, n as int);
            assert(p * batch + batch <= rlen);
        }
        let mut sum = accum[p];
        let base: usize = p * batch;
        let mut s: usize = 0;
        while s < batch
            invariant
                1 <= batch <= 64,
                p < n,
                rays@.len() == n * batch,
                base == p * batch,
                base + batch <= rlen,
                rlen == rays@.len(),
                forall|i: int| 0 <= i < rays@.len() ==> rgb_wf((#[trigger] rays@[i]).color),
                0 <= accum0[p as int].x <= 0x1000_0000_0000 - batch * 65536,
                0 <= accum0[p as int].y <= 0x1000_0000_0000 - batch * 65536,
                0 <= accum0[p as int].z <= 0x1000_0000_0000 - batch * 65536,
                s <= batch,
                sum == pixel_accum_spec(accum0[p as int], rays@, p as int, batch as int, s as nat),
                0 <= sum.x <= 0x1000_0000_0000 - (batch - s) * 65536,
                0 <= sum.y <= 0x1000_0000_0000 - (batch - s) * 65536,
                0 <= sum.z <= 0x1000_0000_0000 - (batch - s) * 65536,
            decreases batch - s,
        {
            let c = rays[base + s].color;
            sum = sum.add(c);
            s = s + 1;
        }
        accum.set(p, sum);
        p = p + 1;
    }
}

/// A pixel's sample block lies inside the flat buffer.
proof fn lemma_pixel_slot(p: int, batch: int, n: int)
    requires
        0 <= p < n,
        1 <= batch,
    ensures
        0 <= p * batch,
        p * batch + batch <= n * batch,
{
    assert(0 <= p * batch && p * batch + batch <= n * batch) by (nonlinear_arith)
        requires
            0 <= p < n,
            1 <= batch,
    ;
}

/// The final image: each accumulated total divided by the total sample
/// count.
pub fn average_samples(accum: &Vec<RGB>, total_samples: usize) -> (r: Vec<RGB>)
    requires
        1 <= total_samples <= 0x1000_0000,
    ensures
        r@.len() == accum@.len(),
        forall|p: int| 0 <= p < r@.len() ==> #[trigger] r@[p]
            == div_int_spec(accum@[p], total_samples as int),
{
    let mut out: Vec<RGB> = Vec::new();
    let n = accum.len();
    let mut p: usize = 0;
    while p < n
        invariant
            1 <= total_samples <= 0x1000_0000,
            n == accum@.len(),
            p <= n,
            out@.len() == p,
            forall|q: int| 0 <= q < p ==> #[trigger] out@[q]
                == div_int_spec(accum@[q], total_samples as int),
        decreases n - p,
    {
        let v = accum[p].div_int(total_samples as i64);
        out.push(v);
        p = p + 1;
    }
    out
}

} // verus!

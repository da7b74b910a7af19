//! The bounce passes of the data-parallel design, and their agreement with
//! the recursive radiance estimate.
//!
//! One pass advances every ray by one bounce, reading one buffer and writing
//! the other; an inert ray passes through unchanged. Iterating the pass one
//! more time than a ray's bounce budget drives the ray to its final color,
//! and that color is exactly the recursive estimate `ray_color_from` of the
//! row renderer: the two schedulers compute the same radiance.

use vstd::prelude::*;
use crate::rng::SampleRng;
use crate::rtx::vector::vec3;
use crate::rtx::vector::mul_vec_spec;
use crate::rtx::ray::Ray;
use crate::rtx::rgb::lemma_rgb_mul;
use crate::rtx::interval::Interval;
use crate::rtx::target::Target;
use crate::rtx::target_list::{TargetList, list_wf, scene_hit_spec};
use crate::rtx::material::scatter_spec;
use crate::rtx::camera::{background, background_spec, ray_color_from, EPS_T};
use crate::rtx::sphere::T_LIMIT;
use crate::rtx::vector::Vector;
use crate::gpu_rtx::ray::{Ray as GpuRay, gpu_ray_wf};

verus! {

/// One bounce of one ray: an inert ray is unchanged; an exhausted ray goes
/// inert and black; a missed ray goes inert with its accumulated color times
/// the sky gradient; a hit ray scatters, folds the attenuation into its
/// color, and spends one bounce.
#[verifier::opaque]
pub open spec fn step_spec(targets: Seq<Target>, r: GpuRay) -> GpuRay {
    if r.done {
        r
    } else if r.bounces_left == 0 {
        GpuRay { color: vec3(0, 0, 0), done: true, ..r }
    } else {
        let ray = Ray { origin: r.origin, direction: r.direction };
        match scene_hit_spec(targets, ray, EPS_T as int, T_LIMIT as int) {
            None => GpuRay {
                color: mul_vec_spec(r.color, background_spec(ray)),
                done: true,
                ..r
            },
            Some(h) => {
                let (att, sray, s2) = scatter_spec(h.material, ray, h, r.rng.state);
                GpuRay {
                    origin: sray.origin,
                    direction: sray.direction,
                    color: mul_vec_spec(r.color, att),
                    bounces_left: (r.bounces_left - 1) as u32,
                    rng: SampleRng { state: s2 },
                    done: false,
                }
            },
        }
    }
}

/// `k` bounces of one ray, first bounce first.
pub open spec fn steps_spec(targets: Seq<Target>, r: GpuRay, k: nat) -> GpuRay
    decreases k,
{
    if k == 0 {
        r
    } else {
        steps_spec(targets, step_spec(targets, r), (k - 1) as nat)
    }
}

/// The color this ray will finally show: its own color once inert, else the
/// recursive radiance estimate of its remaining path.
pub open spec fn finish_spec(targets: Seq<Target>, r: GpuRay) -> Vector {
    if r.done {
        r.color
    } else {
        ray_color_from(
            targets,
            Ray { origin: r.origin, direction: r.direction },
            r.bounces_left as nat,
            r.color,
            r.rng.state,
        ).0
    }
}

/// One bounce pass never changes the color a ray will finally show: the
/// data-parallel schedule is sound step by step.
#[verifier::rlimit(100)]
pub proof fn lemma_step_preserves_finish(targets: Seq<Target>, r: GpuRay)
    ensures
        finish_spec(targets, step_spec(targets, r)) == finish_spec(targets, r),
{
    reveal(step_spec);
    if r.done {
    } else if r.bounces_left == 0 {
        assert(ray_color_from(
            targets,
            Ray { origin: r.origin, direction: r.direction },
            0,
            r.color,
            r.rng.state,
        ).0 == vec3(0, 0, 0));
    } else {
    }
}

/// Applying one more pass after `k` passes is the same as stepping the
/// `k`-pass result.
pub proof fn lemma_steps_shift(targets: Seq<Target>, r: GpuRay, k: nat)
    ensures
        steps_spec(targets, r, k + 1) == step_spec(targets, steps_spec(targets, r, k)),
    decreases k,
{
    reveal_with_fuel(steps_spec, 3);
    if k > 0 {
        lemma_steps_shift(targets, step_spec(targets, r), (k - 1) as nat);
    }
}

/// A ray that is already inert never changes again.
pub proof fn lemma_steps_of_done(targets: Seq<Target>, r: GpuRay, k: nat)
    requires
        r.done,
    ensures
        steps_spec(targets, r, k) == r,
    decreases k,
{
    reveal(step_spec);
    reveal_with_fuel(steps_spec, 2);
    if k > 0 {
        lemma_steps_of_done(targets, r, (k - 1) as nat);
    }
}

/// After one pass more than its bounce budget, a ray is inert and shows
/// exactly the recursive radiance estimate of its initial state: the
/// iterative and the recursive scheduler agree on every ray.
pub proof fn lemma_batch_color(targets: Seq<Target>, r: GpuRay, passes: nat)
    requires
        passes >= r.bounces_left + 1,
    ensures
        steps_spec(targets, r, passes).done,
        steps_spec(targets, r, passes).color == finish_spec(targets, r),
    decreases passes,
{
    reveal(step_spec);
    if r.done {
        lemma_steps_of_done(targets, r, passes);
    } else {
        let r2 = step_spec(targets, r);
        lemma_step_preserves_finish(targets, r);
        assert(steps_spec(targets, r, passes)
            == steps_spec(targets, r2, (passes - 1) as nat));
        if r2.done {
            lemma_steps_of_done(targets, r2, (passes - 1) as nat);
        } else {
            assert(r2.bounces_left == r.bounces_left - 1);
            lemma_batch_color(targets, r2, (passes - 1) as nat);
        }
    }
}

/// One bounce of one ray.
pub fn trace_step(scene: &TargetList, r: &GpuRay) -> (out: GpuRay)
    requires
        list_wf(*scene),
        gpu_ray_wf(*r),
    ensures
        out == step_spec(scene.list@, *r),
        gpu_ray_wf(out),
{
    proof {
        reveal(step_spec);
    }
    if r.done {
        *r
    } else if r.bounces_left == 0 {
        GpuRay { color: Vector::new(0, 0, 0), done: true, ..*r }
    } else {
        let ray = Ray::new(r.origin, r.direction);
        match scene.hit(ray, Interval::new(EPS_T, T_LIMIT)) {
            None => {
                let bg = background(ray);
                proof {
                    lemma_rgb_mul(r.color, bg);
                }
                GpuRay { color: r.color.mul(bg), done: true, ..*r }
            },
            Some(h) => {
                let mut rng = r.rng;
                let sc = h.material.scatter(ray, h, &mut rng);
                proof {
                    lemma_rgb_mul(r.color, sc.attenuation);
                }
                GpuRay {
                    origin: sc.scattered.origin,
                    direction: sc.scattered.direction,
                    color: r.color.mul(sc.attenuation),
                    bounces_left: r.bounces_left - 1,
                    rng,
                    done: false,
                }
            },
        }
    }
}

/// One full pass: every ray of the input buffer advances one bounce into a
/// fresh output buffer, so no pass reads and writes the same memory.
pub fn trace_pass(scene: &TargetList, rays: &Vec<GpuRay>) -> (out: Vec<GpuRay>)
    requires
        list_wf(*scene),
        forall|i: int| 0 <= i < rays@.len() ==> gpu_ray_wf(#[trigger] rays@[i]),
    ensures
        out@.len() == rays@.len(),
        forall|i: int| 0 <= i < out@.len()
            ==> #[trigger] out@[i] == step_spec(scene.list@, rays@[i]),
        forall|i: int| 0 <= i < out@.len() ==> gpu_ray_wf(#[trigger] out@[i]),
{
    let mut out: Vec<GpuRay> = Vec::new();
    let n = rays.len();
    let mut i: usize = 0;
    while i < n
        invariant
            list_wf(*scene),
            n == rays@.len(),
            forall|j: int| 0 <= j < rays@.len() ==> gpu_ray_wf(#[trigger] rays@[j]),
            i <= n,
            out@.len() == i,
            forall|j: int| 0 <= j < out@.len()
                ==> #[trigger] out@[j] == step_spec(scene.list@, rays@[j]),
            forall|j: int| 0 <= j < out@.len() ==> gpu_ray_wf(#[trigger] out@[j]),
        decreases n - i,
    {
        let stepped = trace_step(scene, &rays[i]);
        out.push(stepped);
        i = i + 1;
    }
    out
}

/// A whole batch: `passes` ping-pong passes over the ray buffer.
pub fn trace_batch(scene: &TargetList, rays: Vec<GpuRay>, passes: usize) -> (out: Vec<GpuRay>)
    requires
        list_wf(*scene),
        forall|i: int| 0 <= i < rays@.len() ==> gpu_ray_wf(#[trigger] rays@[i]),
    ensures
        out@.len() == rays@.len(),
        forall|i: int| 0 <= i < out@.len()
            ==> #[trigger] out@[i] == steps_spec(scene.list@, rays@[i], passes as nat),
        forall|i: int| 0 <= i < out@.len() ==> gpu_ray_wf(#[trigger] out@[i]),
{
    let mut buf = rays;
    let ghost rays0 = buf@;
    let mut k: usize = 0;
    while k < passes
        invariant
            list_wf(*scene),
            k <= passes,
            buf@.len() == rays0.len(),
            forall|i: int| 0 <= i < buf@.len()
                ==> #[trigger] buf@[i] == steps_spec(scene.list@, rays0[i], k as nat),
            forall|i: int| 0 <= i < buf@.len() ==> gpu_ray_wf(#[trigger] buf@[i]),
        decreases passes - k,
    {
        let next = trace_pass(scene, &buf);
        proof {
            assert forall|i: int| 0 <= i < next@.len()
                implies #[trigger] next@[i] == steps_spec(scene.list@, rays0[i], (k + 1) as nat)
            by {
                lemma_steps_shift(scene.list@, rays0[i], k as nat);
            }
        }
        buf = next;
        k = k + 1;
    }
    buf
}

} // verus!

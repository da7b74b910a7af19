//! A scene handle: a single target, an owned list, or a shared list behind a
//! reference-counted pointer so many workers can read one scene.

use vstd::prelude::*;
use std::sync::Arc;
use crate::fx::SCALE;
use crate::rtx::vector::{fits, dot_spec, DIR_LIMIT};
use crate::rtx::ray::Ray;
use crate::rtx::interval::Interval;
use crate::rtx::hit::Hit;
use crate::rtx::sphere::{REACH_LIMIT, T_LIMIT};
use crate::rtx::target::{Target, target_wf, target_hit_t, target_hit_record};
use crate::rtx::target_list::{TargetList, list_wf, scene_hit_spec, some_target_hits};

verus! {

#[derive(Debug, Clone)]
pub enum Hittable {
    Single(Target),
    Multiple(TargetList),
    MultiplePtr(Arc<TargetList>),
}

/// The sequence of targets a scene handle stands for.
pub open spec fn hittable_targets(h: Hittable) -> Seq<Target> {
    match h {
        Hittable::Single(t) => seq![t],
        Hittable::Multiple(l) => l.list@,
        Hittable::MultiplePtr(p) => p.list@,
    }
}

pub open spec fn hittable_wf(h: Hittable) -> bool {
    forall|i: int| 0 <= i < hittable_targets(h).len()
        ==> target_wf(#[trigger] hittable_targets(h)[i])
}

impl Hittable {
    /// Nearest valid hit among the scene's targets (see `TargetList::hit`).
    pub fn hit(&self, ray: Ray, t: Interval) -> (r: Option<Hit>)
        requires
            hittable_wf(*self),
            fits(ray.origin, REACH_LIMIT as int),
            fits(ray.direction, DIR_LIMIT as int),
            -T_LIMIT <= t.min,
            t.max <= T_LIMIT,
        ensures
            r == scene_hit_spec(hittable_targets(*self), ray, t.min as int, t.max as int),
            r.is_some() == some_target_hits(
                hittable_targets(*self), ray, t.min as int, t.max as int),
            r matches Some(h) ==> {
                &&& forall|i: int|
                    0 <= i < hittable_targets(*self).len()
                    && (#[trigger] target_hit_t(
                        hittable_targets(*self)[i], ray, t.min as int, t.max as int)).is_some()
                    ==> h.t as int <= target_hit_t(
                        hittable_targets(*self)[i], ray, t.min as int, t.max as int).unwrap()
                &&& t.min < h.t < t.max
                &&& crate::rtx::material::material_wf(h.material)
                &&& dot_spec(ray.direction, h.normal) <= 0
                &&& fits(h.normal, SCALE as int)
                &&& -0x2_0000_0000 <= h.p.x - ray.origin.x <= 0x2_0000_0000
                &&& -0x2_0000_0000 <= h.p.y - ray.origin.y <= 0x2_0000_0000
                &&& -0x2_0000_0000 <= h.p.z - ray.origin.z <= 0x2_0000_0000
            },
    {
        match self {
            Hittable::Single(target) => {
                let r = target.hit(ray, t);
                proof {
                    let l = hittable_targets(*self);
                    lemma_scan_single(l, ray, t.min as int, t.max as int);
                    assert(l[0] == *target);
                    if r.is_some() {
                        assert(target_hit_t(l[0], ray, t.min as int, t.max as int).is_some());
                    }
                }
                r
            },
            Hittable::Multiple(list) => list.hit(ray, t),
            Hittable::MultiplePtr(ptr) => ptr.hit(ray, t),
        }
    }
}

/// Unfolding of the scan over a one-element sequence.
pub open spec fn scan_single(l: Seq<Target>, ray: Ray, tmin: int, tmax: int) -> Option<Hit>
    recommends
        l.len() == 1,
{
    match target_hit_t(l[0], ray, tmin, tmax) {
        Some(tt) => Some(target_hit_record(l[0], ray, tt)),
        None => None,
    }
}

/// The scan over a one-element sequence is just that element's hit.
pub proof fn lemma_scan_single(l: Seq<Target>, ray: Ray, tmin: int, tmax: int)
    requires
        l.len() == 1,
    ensures
        scene_hit_spec(l, ray, tmin, tmax) == scan_single(l, ray, tmin, tmax),
{
    reveal_with_fuel(crate::rtx::target_list::scan_from, 3);
}

} // verus!

//! The scene: an ordered list of targets and the linear nearest-hit scan.
//!
//! The scan tests every target, shrinking the upper end of the search window
//! to the best parameter found so far; the contract states that the returned
//! hit is the globally nearest one with respect to the original window, and
//! that ties go to the earliest target in the list.

use vstd::prelude::*;
use crate::fx::SCALE;
use crate::rtx::vector::{fits, dot_spec, DIR_LIMIT};
use crate::rtx::ray::Ray;
use crate::rtx::interval::Interval;
use crate::rtx::hit::Hit;
use crate::rtx::sphere::{REACH_LIMIT, T_LIMIT};
use crate::rtx::target::{
    Target, target_wf, target_hit_t, target_hit_record, lemma_target_window,
};

verus! {

#[derive(Debug, Clone)]
pub struct TargetList {
    pub list: Vec<Target>,
}

pub open spec fn list_wf(l: TargetList) -> bool {
    forall|i: int| 0 <= i < l.list.len() ==> target_wf(#[trigger] l.list[i])
}

/// Some target in the sequence hits inside the window.
pub open spec fn some_target_hits(l: Seq<Target>, ray: Ray, tmin: int, tmax: int) -> bool {
    exists|i: int| 0 <= i < l.len() && (#[trigger] target_hit_t(l[i], ray, tmin, tmax)).is_some()
}

/// The scan from index `k` on, with the best hit and shrunken window so far:
/// the exact fold the linear traversal computes.
pub open spec fn scan_from(
    l: Seq<Target>, ray: Ray, tmin: int, closest: int, best: Option<Hit>, k: int,
) -> Option<Hit>
    decreases l.len() - k,
{
    if k < 0 || k >= l.len() {
        best
    } else {
        match target_hit_t(l[k], ray, tmin, closest) {
            Some(tt) => scan_from(
                l, ray, tmin, tt, Some(target_hit_record(l[k], ray, tt)), k + 1),
            None => scan_from(l, ray, tmin, closest, best, k + 1),
        }
    }
}

/// What the traversal of a whole scene returns.
pub open spec fn scene_hit_spec(l: Seq<Target>, ray: Ray, tmin: int, tmax: int) -> Option<Hit> {
    scan_from(l, ray, tmin, tmax, None, 0)
}

impl TargetList {
    pub fn new() -> (r: TargetList)
        ensures
            r.list@.len() == 0,
    {
        TargetList { list: Vec::new() }
    }

    pub fn add(&mut self, object: Target)
        ensures
            final(self).list@ == old(self).list@.push(object),
    {
        self.list.push(object);
    }

    /// The globally nearest valid hit among all targets: the scan shrinks the
    /// window to the best parameter so far, so later targets are tested
    /// against a strictly smaller window, yet the result is the minimum over
    /// every target's hit in the original window.
    pub fn hit(&self, ray: Ray, t: Interval) -> (r: Option<Hit>)
        requires
            list_wf(*self),
            fits(ray.origin, REACH_LIMIT as int),
            fits(ray.direction, DIR_LIMIT as int),
            -T_LIMIT <= t.min,
            t.max <= T_LIMIT,
        ensures
            r == scene_hit_spec(self.list@, ray, t.min as int, t.max as int),
            r.is_some() == some_target_hits(self.list@, ray, t.min as int, t.max as int),
            r matches Some(h) ==> {
                &&& exists|i: int|
                    0 <= i < self.list@.len()
                    && (#[trigger] target_hit_t(self.list@[i], ray, t.min as int, t.max as int))
                        == Some(h.t as int)
                    && h == target_hit_record(self.list@[i], ray, h.t as int)
                &&& forall|i: int|
                    0 <= i < self.list@.len()
                    && (#[trigger] target_hit_t(self.list@[i], ray, t.min as int, t.max as int))
                        .is_some()
                    ==> h.t as int
                        <= target_hit_t(self.list@[i], ray, t.min as int, t.max as int).unwrap()
                &&& t.min < h.t < t.max
                &&& crate::rtx::material::material_wf(h.material)
                &&& dot_spec(ray.direction, h.normal) <= 0
                &&& fits(h.normal, SCALE as int)
                &&& -0x2_0000_0000 <= h.p.x - ray.origin.x <= 0x2_0000_0000
                &&& -0x2_0000_0000 <= h.p.y - ray.origin.y <= 0x2_0000_0000
                &&& -0x2_0000_0000 <= h.p.z - ray.origin.z <= 0x2_0000_0000
            },
    {
        let mut closest: i64 = t.max;
        let mut best: Option<Hit> = None;
        let n = self.list.len();
        let mut idx: usize = 0;
        while idx < n
            invariant
                0 <= idx <= n,
                n == self.list@.len(),
                list_wf(*self),
                fits(ray.origin, REACH_LIMIT as int),
                fits(ray.direction, DIR_LIMIT as int),
                -T_LIMIT <= t.min,
                t.max <= T_LIMIT,
                closest <= t.max,
                scene_hit_spec(self.list@, ray, t.min as int, t.max as int)
                    == scan_from(self.list@, ray, t.min as int, closest as int, best, idx as int),
                best.is_none() ==> closest == t.max,
                best.is_none() ==> forall|j: int|
                    0 <= j < idx ==> (#[trigger] target_hit_t(
                        self.list@[j], ray, t.min as int, t.max as int)).is_none(),
                best matches Some(h) ==> {
                    &&& h.t == closest
                    &&& t.min < h.t < t.max
                    &&& exists|j: int|
                        0 <= j < idx
                        && (#[trigger] target_hit_t(self.list@[j], ray, t.min as int, t.max as int))
                            == Some(h.t as int)
                        && h == target_hit_record(self.list@[j], ray, h.t as int)
                    &&& forall|j: int|
                        0 <= j < idx
                        && (#[trigger] target_hit_t(self.list@[j], ray, t.min as int, t.max as int))
                            .is_some()
                        ==> h.t as int
                            <= target_hit_t(self.list@[j], ray, t.min as int, t.max as int).unwrap()
                    &&& crate::rtx::material::material_wf(h.material)
                    &&& dot_spec(ray.direction, h.normal) <= 0
                    &&& fits(h.normal, SCALE as int)
                    &&& -0x2_0000_0000 <= h.p.x - ray.origin.x <= 0x2_0000_0000
                    &&& -0x2_0000_0000 <= h.p.y - ray.origin.y <= 0x2_0000_0000
                    &&& -0x2_0000_0000 <= h.p.z - ray.origin.z <= 0x2_0000_0000
                },
            decreases n - idx,
        {
            let cur = self.list[idx];
            let ri = cur.hit(ray, Interval::new(t.min, closest));
            proof {
                lemma_target_window(cur, ray, t.min as int, t.max as int, closest as int);
            }
            match ri {
                Some(h2) => {
                    closest = h2.t;
                    best = Some(h2);
                },
                None => {},
            }
            idx = idx + 1;
        }
        best
    }
}

} // verus!

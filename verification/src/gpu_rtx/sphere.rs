//! The flat sphere record of the GPU buffer layout: one fixed-size entry per
//! sphere with the material encoded as a tag and the union of material
//! parameters, convertible to the tagged scene representation.

use vstd::prelude::*;
use crate::fx::SCALE;
use crate::rtx::vector::{Vector, fits, COORD_LIMIT};
use crate::rtx::rgb::{RGB, rgb_wf};
use crate::rtx::material::{Material, material_wf};
use crate::rtx::lambertian::LambertianData;
use crate::rtx::metal::MetalData;
use crate::rtx::dielectric::{DielectricData, RI_MIN, RI_MAX};
use crate::rtx::sphere::{SphereData, sphere_wf};
use crate::rtx::target::{Target, target_wf};
use crate::rtx::target_list::{TargetList, list_wf};

verus! {

/// Material tag of a flat sphere record.
pub const MAT_LAMBERTIAN: u32 = 0;

pub const MAT_METAL: u32 = 1;

pub const MAT_DIELECTRIC: u32 = 2;

#[derive(Clone, Copy, Debug, PartialEq, Eq, Structural)]
pub struct Sphere {
    pub center: Vector,
    pub radius: i64,
    pub albedo: RGB,
    pub material_id: u32,
    pub fuzz: i64,
    pub refraction_index: i64,
}

pub open spec fn gpu_sphere_wf(s: Sphere) -> bool {
    &&& fits(s.center, COORD_LIMIT as int)
    &&& 0 < s.radius <= COORD_LIMIT
    &&& rgb_wf(s.albedo)
    &&& s.material_id <= 2
    &&& 0 <= s.fuzz <= SCALE
    &&& (s.material_id == 2 ==> RI_MIN <= s.refraction_index <= RI_MAX)
}

/// The tagged material a flat record stands for.
pub open spec fn material_of_spec(s: Sphere) -> Material {
    if s.material_id == 1 {
        Material::Metal(MetalData { albedo: s.albedo, fuzz: s.fuzz })
    } else if s.material_id == 2 {
        Material::Dielectric(DielectricData { refraction_index: s.refraction_index })
    } else {
        Material::Lambertian(LambertianData { albedo: s.albedo })
    }
}

pub open spec fn to_target_spec(s: Sphere) -> Target {
    Target::Sphere(SphereData {
        center: s.center,
        radius: s.radius,
        material: material_of_spec(s),
    })
}

impl Sphere {
    /// The tagged scene representation of this record.
    pub fn to_target(&self) -> (r: Target)
        requires
            gpu_sphere_wf(*self),
        ensures
            r == to_target_spec(*self),
            target_wf(r),
    {
        let material = if self.material_id == 1 {
            Material::Metal(MetalData { albedo: self.albedo, fuzz: self.fuzz })
        } else if self.material_id == 2 {
            Material::Dielectric(DielectricData { refraction_index: self.refraction_index })
        } else {
            Material::Lambertian(LambertianData { albedo: self.albedo })
        };
        Target::Sphere(SphereData { center: self.center, radius: self.radius, material })
    }
}

/// The whole scene of a flat sphere buffer.
pub fn spheres_to_list(spheres: &Vec<Sphere>) -> (r: TargetList)
    requires
        forall|i: int| 0 <= i < spheres@.len() ==> gpu_sphere_wf(#[trigger] spheres@[i]),
    ensures
        r.list@.len() == spheres@.len(),
        forall|i: int| 0 <= i < spheres@.len()
            ==> #[trigger] r.list@[i] == to_target_spec(spheres@[i]),
        list_wf(r),
{
    let mut out = TargetList::new();
    let n = spheres.len();
    let mut i: usize = 0;
    while i < n
        invariant
            n == spheres@.len(),
            forall|j: int| 0 <= j < spheres@.len() ==> gpu_sphere_wf(#[trigger] spheres@[j]),
            i <= n,
            out.list@.len() == i,
            forall|j: int| 0 <= j < out.list@.len()
                ==> #[trigger] out.list@[j] == to_target_spec(spheres@[j]),
            forall|j: int| 0 <= j < out.list@.len() ==> target_wf(#[trigger] out.list@[j]),
        decreases n - i,
    {
        let t = spheres[i].to_target();
        out.add(t);
        i = i + 1;
    }
    out
}

} // verus!

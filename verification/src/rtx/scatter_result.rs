//! What a material hands back for one bounce: the attenuation it applies and
//! the outgoing ray.

use vstd::prelude::*;
use crate::rtx::rgb::RGB;
use crate::rtx::ray::Ray;

verus! {

#[derive(Clone, Copy, Debug, PartialEq, Eq, Structural)]
pub struct ScatterResult {
    pub attenuation: RGB,
    pub scattered: Ray,
}

impl ScatterResult {
    pub fn new(attenuation: RGB, scattered: Ray) -> (r: ScatterResult)
        ensures
            r.attenuation == attenuation,
            r.scattered == scattered,
    {
        ScatterResult { attenuation, scattered }
    }
}

} // verus!

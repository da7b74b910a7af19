//! The small uniform block a bounce dispatch carries: which batch and which
//! bounce within it are being traced.

use vstd::prelude::*;

verus! {

#[derive(Clone, Copy, Debug, PartialEq, Eq, Structural)]
pub struct SceneUniforms {
    pub pass_idx: u32,
    pub bounce_idx: u32,
}

} // verus!

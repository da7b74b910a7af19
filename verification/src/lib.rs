//! A path tracer whose optical core is carried out in fixed-point arithmetic
//! so that every geometric and radiometric step can be verified.
//!
//! Scalars are `i64` values scaled by [`fx::SCALE`]: a raw value `q` stands
//! for the real number `q / SCALE`. The camera, the sphere intersection, the
//! material scattering model and both render schedulers (the recursive
//! per-pixel renderer and the data-parallel pass renderer) work on this
//! representation and carry exact contracts over the integer model.

pub mod fx;
pub mod rng;
pub mod rtx;
pub mod gpu_rtx;

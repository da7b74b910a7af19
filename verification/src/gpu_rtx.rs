//! The data-parallel path tracing core: per-ray state records, batch ray
//! generation, the ping-pong bounce passes, and the host-side accumulation,
//! verified to compute the same radiance estimate as the recursive core.

pub mod camera;
pub mod ray;
pub mod scene_uniforms;
pub mod sphere;
pub mod trace;

pub use camera::RenderTask;
pub use ray::Ray;
pub use scene_uniforms::SceneUniforms;
pub use sphere::Sphere;

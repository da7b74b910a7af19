//! The recursive path-tracing core: geometry, materials, camera and the
//! row-based render schedule.

pub mod camera;
pub mod dielectric;
pub mod hit;
pub mod hittable;
pub mod interval;
pub mod lambertian;
pub mod material;
pub mod metal;
pub mod ray;
pub mod rgb;
pub mod scatter_result;
pub mod sphere;
pub mod target;
pub mod target_list;
pub mod vector;

pub use camera::{Camera, RenderTask};
pub use dielectric::DielectricData;
pub use hit::Hit;
pub use hittable::Hittable;
pub use interval::Interval;
pub use lambertian::LambertianData;
pub use material::Material;
pub use metal::MetalData;
pub use ray::Ray;
pub use rgb::RGB;
pub use scatter_result::ScatterResult;
pub use sphere::SphereData;
pub use target::Target;
pub use target_list::TargetList;
pub use vector::Vector;

use pathtrace::fx::SCALE;
use pathtrace::rng::SampleRng;
use pathtrace::rtx::dielectric::DielectricData;
use pathtrace::rtx::interval::Interval;
use pathtrace::rtx::lambertian::LambertianData;
use pathtrace::rtx::material::Material;
use pathtrace::rtx::metal::MetalData;
use pathtrace::rtx::ray::Ray;
use pathtrace::rtx::sphere::{SphereData, T_LIMIT};
use pathtrace::rtx::vector::Vector;

fn head_on_hit(material: Material) -> (Ray, pathtrace::rtx::hit::Hit) {
    let sphere = SphereData::new(Vector::new(0, 0, -SCALE), SCALE / 2, material);
    let ray = Ray::new(Vector::new(0, 0, 0), Vector::new(0, 0, -SCALE));
    let hit = sphere.hit(ray, Interval::new(66, T_LIMIT)).expect("must hit");
    (ray, hit)
}

#[test]
fn lambertian_keeps_albedo_and_origin() {
    let albedo = Vector::new(SCALE / 2, SCALE / 4, SCALE / 8);
    let data = LambertianData::new(albedo);
    let (ray, hit) = head_on_hit(Material::Lambertian(data));
    let mut rng = SampleRng::from_seed(3);
    let sc = data.scatter(ray, hit, &mut rng);
    assert_eq!(sc.attenuation, albedo);
    assert_eq!(sc.scattered.origin, hit.p);
    // The outgoing direction leaves the surface (non-negative component
    // along the normal up to the degenerate-guard fallback).
    assert!(sc.scattered.direction.dot_raw(hit.normal) >= -(SCALE as i128) * (SCALE as i128) / 64);
}

#[test]
fn metal_new_clamps_fuzz_to_at_most_one() {
    let albedo = Vector::new(SCALE, SCALE, SCALE);
    let m = MetalData::new(albedo, 3 * SCALE);
    assert_eq!(m.fuzz, SCALE);
    let m2 = MetalData::new(albedo, SCALE / 4);
    assert_eq!(m2.fuzz, SCALE / 4);
}

#[test]
fn polished_metal_reflects_head_on_ray_back() {
    let albedo = Vector::new(SCALE / 2, SCALE / 2, SCALE / 2);
    let data = MetalData::new(albedo, 0);
    let (ray, hit) = head_on_hit(Material::Metal(data));
    let mut rng = SampleRng::from_seed(5);
    let sc = data.scatter(ray, hit, &mut rng);
    assert_eq!(sc.attenuation, albedo);
    assert_eq!(sc.scattered.origin, hit.p);
    // A head-on ray reflects straight back along +z; fuzz is zero so the
    // perturbation term vanishes.
    assert_eq!(sc.scattered.direction, Vector::new(0, 0, SCALE));
}

#[test]
fn dielectric_attenuation_is_white() {
    let data = DielectricData::new(3 * SCALE / 2);
    let (ray, hit) = head_on_hit(Material::Dielectric(data));
    let mut rng = SampleRng::from_seed(9);
    let sc = data.scatter(ray, hit, &mut rng);
    assert_eq!(sc.attenuation, Vector::new(SCALE, SCALE, SCALE));
    assert_eq!(sc.scattered.origin, hit.p);
}

#[test]
fn unit_index_refracts_head_on_unchanged() {
    // With refraction index one the medium does not bend light at all: a
    // head-on ray passes through with its direction intact.
    let d = Vector::new(0, 0, -SCALE);
    let n = Vector::new(0, 0, SCALE);
    let out = d.refract(n, SCALE);
    assert_eq!(out, d);
}

#[test]
fn unit_index_refracts_oblique_rays_nearly_unchanged() {
    // At index one, refraction leaves any incidence angle unchanged up to
    // the fixed-point truncation of the intermediate steps.
    let n = Vector::new(0, 0, SCALE);
    let mut rng = SampleRng::from_seed(21);
    let mut checked = 0;
    for _ in 0..100 {
        let u = Vector::random_unit_vector(&mut rng);
        // Use directions heading into the surface.
        if u.dot_raw(n) >= -(SCALE as i128) * (SCALE as i128) / 4 {
            continue;
        }
        checked += 1;
        let out = u.refract(n, SCALE);
        let tol = SCALE / 16;
        assert!((out.x - u.x).abs() <= tol, "x {} vs {}", out.x, u.x);
        assert!((out.y - u.y).abs() <= tol, "y {} vs {}", out.y, u.y);
        assert!((out.z - u.z).abs() <= tol, "z {} vs {}", out.z, u.z);
    }
    assert!(checked > 10);
}

#[test]
fn steep_internal_ray_totally_reflects() {
    // From inside glass at a grazing angle the ratio * sin exceeds one and
    // the ray must reflect, which needs no random draw: the generator state
    // is untouched.
    let data = DielectricData::new(3 * SCALE / 2);
    let sphere = SphereData::new(Vector::new(0, 0, 0), SCALE, Material::Dielectric(data));
    // A chord ray inside the sphere hitting at a shallow angle.
    let ray = Ray::new(
        Vector::new(0, 61000, 0),
        Vector::new(SCALE, 1500, 0).normalize(),
    );
    let hit = sphere
        .hit(ray, Interval::new(66, T_LIMIT))
        .expect("chord must exit");
    assert!(!hit.front_face);
    let mut rng = SampleRng::from_seed(33);
    let before = rng;
    let sc = data.scatter(ray, hit, &mut rng);
    assert_eq!(rng, before, "total internal reflection draws nothing");
    // Still scatters exactly one outgoing ray from the hit point.
    assert_eq!(sc.scattered.origin, hit.p);
}

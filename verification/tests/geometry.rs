use pathtrace::fx::SCALE;
use pathtrace::rng::SampleRng;
use pathtrace::rtx::interval::Interval;
use pathtrace::rtx::lambertian::LambertianData;
use pathtrace::rtx::material::Material;
use pathtrace::rtx::ray::Ray;
use pathtrace::rtx::sphere::{SphereData, T_LIMIT};
use pathtrace::rtx::target::Target;
use pathtrace::rtx::target_list::TargetList;
use pathtrace::rtx::vector::Vector;

fn gray() -> Material {
    Material::Lambertian(LambertianData::new(Vector::new(SCALE / 2, SCALE / 2, SCALE / 2)))
}

fn window() -> Interval {
    Interval::new(66, T_LIMIT)
}

#[test]
fn head_on_hit_reports_near_root() {
    // Camera at the origin looking down -z at a sphere of radius 1/2
    // centered at (0, 0, -1): the near intersection is at t = 1/2.
    let sphere = SphereData::new(Vector::new(0, 0, -SCALE), SCALE / 2, gray());
    let ray = Ray::new(Vector::new(0, 0, 0), Vector::new(0, 0, -SCALE));
    let hit = sphere.hit(ray, window()).expect("must hit");
    assert_eq!(hit.t, SCALE / 2);
    assert_eq!(hit.p, Vector::new(0, 0, -SCALE / 2));
    assert!(hit.front_face);
    // The normal points back toward the camera.
    assert_eq!(hit.normal, Vector::new(0, 0, SCALE));
}

#[test]
fn normal_opposes_incident_ray() {
    let sphere = SphereData::new(Vector::new(0, 0, -2 * SCALE), SCALE, gray());
    let mut rng = SampleRng::from_seed(17);
    let mut hits = 0;
    for _ in 0..200 {
        let origin = Vector::new(0, 0, 0);
        let d = Vector::random_unit_vector(&mut rng);
        let ray = Ray::new(origin, d);
        if let Some(hit) = sphere.hit(ray, window()) {
            hits += 1;
            assert!(ray.direction.dot_raw(hit.normal) <= 0);
            // The camera is outside the sphere, so every hit is front-facing.
            assert!(hit.front_face);
        }
    }
    assert!(hits > 0);
}

#[test]
fn ray_from_inside_is_back_facing() {
    let sphere = SphereData::new(Vector::new(0, 0, 0), 2 * SCALE, gray());
    let ray = Ray::new(Vector::new(0, 0, 0), Vector::new(0, 0, -SCALE));
    let hit = sphere.hit(ray, window()).expect("must hit from inside");
    assert!(!hit.front_face);
    assert!(ray.direction.dot_raw(hit.normal) <= 0);
    assert_eq!(hit.t, 2 * SCALE);
}

#[test]
fn hit_point_lies_on_sphere_surface() {
    // |‖p - center‖ - radius| stays below a loose fixed-point tolerance.
    let mut rng = SampleRng::from_seed(19);
    for _ in 0..100 {
        let cx = (rng.next_below(8 * SCALE as u64) as i64) - 4 * SCALE;
        let cy = (rng.next_below(8 * SCALE as u64) as i64) - 4 * SCALE;
        let radius = SCALE / 2 + rng.next_below(2 * SCALE as u64) as i64;
        let sphere = SphereData::new(Vector::new(cx, cy, -8 * SCALE), radius, gray());
        let d = Vector::new(0, 0, -SCALE);
        let ray = Ray::new(Vector::new(cx, cy, 0), d);
        let hit = sphere.hit(ray, window()).expect("axis ray must hit");
        let dist = hit.p.sub(sphere.center).length();
        assert!(
            (dist - radius).abs() < SCALE / 256,
            "distance {} radius {}",
            dist,
            radius
        );
    }
}

#[test]
fn window_bounds_are_exclusive() {
    let sphere = SphereData::new(Vector::new(0, 0, -SCALE), SCALE / 2, gray());
    let ray = Ray::new(Vector::new(0, 0, 0), Vector::new(0, 0, -SCALE));
    // The near root is exactly 1/2; a window ending there must skip to the
    // far root at 3/2, and a window excluding both must miss.
    let hit = sphere
        .hit(ray, Interval::new(66, SCALE / 2))
        .map(|h| h.t);
    assert_eq!(hit, None);
    let far = sphere
        .hit(ray, Interval::new(SCALE / 2, T_LIMIT))
        .expect("far root");
    assert_eq!(far.t, 3 * SCALE / 2);
    assert_eq!(
        sphere.hit(ray, Interval::new(SCALE / 2, 3 * SCALE / 2)).map(|h| h.t),
        None
    );
}

#[test]
fn miss_returns_none() {
    let sphere = SphereData::new(Vector::new(0, 4 * SCALE, -4 * SCALE), SCALE / 2, gray());
    let ray = Ray::new(Vector::new(0, 0, 0), Vector::new(0, 0, -SCALE));
    assert!(sphere.hit(ray, window()).is_none());
}

#[test]
fn traversal_finds_globally_closest_hit() {
    // Compare the scanning traversal against a brute-force minimum over
    // every sphere, for randomized scenes of at least five spheres.
    let mut rng = SampleRng::from_seed(23);
    for _ in 0..40 {
        let mut list = TargetList::new();
        let mut spheres = Vec::new();
        let n = 5 + rng.next_below(4) as usize;
        for _ in 0..n {
            let cx = (rng.next_below(6 * SCALE as u64) as i64) - 3 * SCALE;
            let cy = (rng.next_below(6 * SCALE as u64) as i64) - 3 * SCALE;
            let cz = -(SCALE + rng.next_below(10 * SCALE as u64) as i64);
            let radius = SCALE / 4 + rng.next_below(2 * SCALE as u64) as i64;
            let s = SphereData::new(Vector::new(cx, cy, cz), radius, gray());
            spheres.push(s);
            list.add(Target::Sphere(s));
        }
        let d = Vector::random_in_hemisphere(Vector::new(0, 0, -SCALE), &mut rng);
        let ray = Ray::new(Vector::new(0, 0, 0), d);
        let got = list.hit(ray, window()).map(|h| h.t);
        let brute = spheres
            .iter()
            .filter_map(|s| s.hit(ray, window()).map(|h| h.t))
            .min();
        assert_eq!(got, brute);
    }
}

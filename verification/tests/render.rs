use pathtrace::fx::SCALE;
use pathtrace::rng::SampleRng;
use pathtrace::rtx::camera::{assemble_rows, render_tasks, Camera};
use pathtrace::rtx::hittable::Hittable;
use pathtrace::rtx::lambertian::LambertianData;
use pathtrace::rtx::material::Material;
use pathtrace::rtx::sphere::SphereData;
use pathtrace::rtx::target::Target;
use pathtrace::rtx::target_list::TargetList;
use pathtrace::rtx::interval::Interval;
use pathtrace::rtx::ray::Ray;
use pathtrace::rtx::sphere::T_LIMIT;
use pathtrace::rtx::vector::Vector;
use std::sync::Arc;

fn small_camera(width: usize, height: usize, spp: usize, depth: usize) -> Camera {
    Camera::new(
        width,
        height,
        spp,
        depth,
        SCALE, // tan of half the vertical field of view: a 90 degree fov
        Vector::new(0, 0, 0),
        Vector::new(0, 0, -SCALE),
        Vector::new(0, SCALE, 0),
        0, // no defocus
        SCALE,
    )
}

fn one_sphere_world() -> Hittable {
    let albedo = Vector::new(SCALE / 2, SCALE / 2, SCALE / 2);
    let mut list = TargetList::new();
    list.add(Target::Sphere(SphereData::new(
        Vector::new(0, 0, -SCALE),
        SCALE / 2,
        Material::Lambertian(LambertianData::new(albedo)),
    )));
    list.add(Target::Sphere(SphereData::new(
        Vector::new(0, -100 * SCALE, -SCALE),
        99 * SCALE,
        Material::Lambertian(LambertianData::new(albedo)),
    )));
    Hittable::Multiple(list)
}

#[test]
fn render_produces_row_major_image_of_right_size() {
    let camera = small_camera(8, 6, 2, 4);
    let world = one_sphere_world();
    let mut rng = SampleRng::from_seed(1);
    let image = camera.render(&world, &mut rng);
    assert_eq!(image.len(), 8 * 6);
    for px in &image {
        assert!(0 <= px.x && px.x <= SCALE);
        assert!(0 <= px.y && px.y <= SCALE);
        assert!(0 <= px.z && px.z <= SCALE);
    }
}

#[test]
fn render_is_deterministic_per_seed() {
    let camera = small_camera(6, 4, 3, 4);
    let world = one_sphere_world();
    let mut a = SampleRng::from_seed(99);
    let mut b = SampleRng::from_seed(99);
    let img_a = camera.render(&world, &mut a);
    let img_b = camera.render(&world, &mut b);
    assert_eq!(img_a, img_b);
}

#[test]
fn tasks_tile_the_image_rows() {
    let tasks = render_tasks(10, 3);
    assert_eq!(tasks.len(), 4);
    assert_eq!((tasks[0].start_row, tasks[0].end_row), (0, 3));
    assert_eq!((tasks[1].start_row, tasks[1].end_row), (3, 6));
    assert_eq!((tasks[2].start_row, tasks[2].end_row), (6, 9));
    assert_eq!((tasks[3].start_row, tasks[3].end_row), (9, 10));
    let exact = render_tasks(8, 2);
    assert_eq!(exact.len(), 4);
    assert_eq!((exact[3].start_row, exact[3].end_row), (6, 8));
}

#[test]
fn reassembly_is_independent_of_completion_order() {
    // Render the image as four and more tasks, deliver the row messages in a
    // scrambled completion order, and check the assembled image equals the
    // in-order assembly: output row order equals row index, not arrival
    // order.
    let camera = small_camera(5, 8, 1, 3);
    let world = one_sphere_world();
    let tasks = render_tasks(8, 2);
    assert!(tasks.len() >= 4);
    let mut messages = Vec::new();
    for (i, task) in tasks.iter().enumerate() {
        let mut rng = SampleRng::from_seed(1000 + i as u64);
        let mut rows = camera.render_task(&world, *task, &mut rng);
        messages.append(&mut rows);
    }
    let in_order = assemble_rows(5, 8, &messages);

    // A fixed scramble standing for randomized per-task completion delay.
    let mut scrambled = Vec::new();
    let order = [5usize, 0, 7, 2, 6, 1, 4, 3];
    for &i in order.iter() {
        scrambled.push(messages[i].clone());
    }
    let out_of_order = assemble_rows(5, 8, &scrambled);
    assert_eq!(in_order, out_of_order);

    // And each row sits at the offset its index names.
    for msg in &messages {
        let y = msg.0;
        for x in 0..5 {
            assert_eq!(in_order[y * 5 + x], msg.1[x]);
        }
    }
}

#[test]
fn head_on_pixel_sees_the_sphere() {
    // One Lambertian sphere dead ahead: the center pixel color must be
    // darker than the sky but not black, and the corner pixels see sky.
    let camera = small_camera(3, 3, 8, 6);
    let world = one_sphere_world();
    let mut rng = SampleRng::from_seed(7);
    let center = camera.render_pixel(&world, 1, 1, &mut rng);
    // Sky pixels are bright (between the white-blue gradient bounds).
    let corner = camera.render_pixel(&world, 0, 0, &mut rng);
    assert!(corner.z > SCALE / 2, "corner {:?}", corner);
    // The sphere shades the center pixel well below the sky.
    assert!(center.z < corner.z, "center {:?} corner {:?}", center, corner);
}

#[test]
fn scene_handle_variants_agree() {
    let albedo = Vector::new(SCALE / 2, SCALE / 2, SCALE / 2);
    let sphere = SphereData::new(
        Vector::new(0, 0, -SCALE),
        SCALE / 2,
        Material::Lambertian(LambertianData::new(albedo)),
    );
    let mut list = TargetList::new();
    list.add(Target::Sphere(sphere));
    let single = Hittable::Single(Target::Sphere(sphere));
    let owned = Hittable::Multiple(list.clone());
    let shared = Hittable::MultiplePtr(Arc::new(list));

    let ray = Ray::new(Vector::new(0, 0, 0), Vector::new(0, 0, -SCALE));
    let window = Interval::new(66, T_LIMIT);
    let a = single.hit(ray, window).map(|h| h.t);
    let b = owned.hit(ray, window).map(|h| h.t);
    let c = shared.hit(ray, window).map(|h| h.t);
    assert_eq!(a, Some(SCALE / 2));
    assert_eq!(a, b);
    assert_eq!(b, c);
}

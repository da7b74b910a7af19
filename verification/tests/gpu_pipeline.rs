use pathtrace::fx::SCALE;
use pathtrace::gpu_rtx::camera::{accumulate, average_samples};
use pathtrace::gpu_rtx::ray::Ray as GpuRay;
use pathtrace::gpu_rtx::sphere::{spheres_to_list, Sphere};
use pathtrace::gpu_rtx::trace::{trace_batch, trace_pass};
use pathtrace::rng::SampleRng;
use pathtrace::rtx::camera::Camera;
use pathtrace::rtx::hittable::Hittable;
use pathtrace::rtx::lambertian::LambertianData;
use pathtrace::rtx::material::Material;
use pathtrace::rtx::sphere::SphereData;
use pathtrace::rtx::target::Target;
use pathtrace::rtx::target_list::TargetList;
use pathtrace::rtx::vector::Vector;

fn gpu_scene() -> Vec<Sphere> {
    vec![
        Sphere {
            center: Vector::new(0, 0, -SCALE),
            radius: SCALE / 2,
            albedo: Vector::new(SCALE / 2, SCALE / 2, SCALE / 2),
            material_id: 0,
            fuzz: 0,
            refraction_index: 0,
        },
        Sphere {
            center: Vector::new(0, -100 * SCALE, -SCALE),
            radius: 99 * SCALE,
            albedo: Vector::new(3 * SCALE / 4, 3 * SCALE / 4, 0),
            material_id: 0,
            fuzz: 0,
            refraction_index: 0,
        },
    ]
}

fn gpu_camera() -> Camera {
    Camera::new(
        4,
        4,
        1,
        6,
        SCALE,
        Vector::new(0, 0, 0),
        Vector::new(0, 0, -SCALE),
        Vector::new(0, SCALE, 0),
        0,
        SCALE,
    )
}

#[test]
fn flat_sphere_records_convert_to_tagged_scene() {
    let spheres = gpu_scene();
    let list = spheres_to_list(&spheres);
    assert_eq!(list.list.len(), 2);
    match list.list[0] {
        Target::Sphere(s) => {
            assert_eq!(s.center, Vector::new(0, 0, -SCALE));
            assert_eq!(s.radius, SCALE / 2);
            match s.material {
                Material::Lambertian(l) => {
                    assert_eq!(l.albedo, Vector::new(SCALE / 2, SCALE / 2, SCALE / 2))
                }
                _ => panic!("wrong material tag"),
            }
        }
    }
}

#[test]
fn generated_batch_has_row_major_sample_layout() {
    let camera = gpu_camera();
    let mut rng = SampleRng::from_seed(41);
    let batch = 3;
    let rays = camera.generate_rays(batch, &mut rng);
    assert_eq!(rays.len(), 4 * 4 * batch);
    for r in &rays {
        assert_eq!(r.color, Vector::new(SCALE, SCALE, SCALE));
        assert_eq!(r.bounces_left, 6);
        assert!(!r.done);
        // Every ray direction is unit-ish.
        let len = r.direction.length();
        assert!((len - SCALE).abs() <= 64);
    }
}

#[test]
fn inert_rays_pass_through_unchanged() {
    let spheres = gpu_scene();
    let scene = spheres_to_list(&spheres);
    let done_ray = GpuRay {
        origin: Vector::new(0, 0, 0),
        direction: Vector::new(0, 0, -SCALE),
        color: Vector::new(SCALE / 3, SCALE / 5, SCALE / 7),
        bounces_left: 0,
        rng: SampleRng::from_seed(1),
        done: true,
    };
    let out = trace_pass(&scene, &vec![done_ray]);
    assert_eq!(out[0], done_ray);
}

#[test]
fn exhausted_rays_terminate_black() {
    let spheres = gpu_scene();
    let scene = spheres_to_list(&spheres);
    let spent = GpuRay {
        origin: Vector::new(0, 0, 0),
        direction: Vector::new(0, 0, -SCALE),
        color: Vector::new(SCALE, SCALE, SCALE),
        bounces_left: 0,
        rng: SampleRng::from_seed(1),
        done: false,
    };
    let out = trace_pass(&scene, &vec![spent]);
    assert!(out[0].done);
    assert_eq!(out[0].color, Vector::new(0, 0, 0));
}

#[test]
fn iterative_passes_agree_with_recursive_estimate() {
    // The data-parallel schedule and the recursive renderer are two
    // realizations of one optical model: driven from the same generator
    // state, the ping-pong passes produce exactly the recursive estimate.
    let spheres = gpu_scene();
    let scene = spheres_to_list(&spheres);
    let mut world_list = TargetList::new();
    for s in &spheres {
        world_list.add(s.to_target());
    }
    let world = Hittable::Multiple(world_list);
    let camera = gpu_camera();

    let mut gen_rng = SampleRng::from_seed(77);
    let depth: usize = 6;
    let mut gpu_rays = Vec::new();
    let mut cpu_colors = Vec::new();
    for k in 0..8u64 {
        let ray = camera.get_ray((k % 4) as usize, (k as usize / 4) % 4, &mut gen_rng);
        let seed = gen_rng.next_u64();
        gpu_rays.push(GpuRay {
            origin: ray.origin,
            direction: ray.direction,
            color: Vector::new(SCALE, SCALE, SCALE),
            bounces_left: depth as u32,
            rng: SampleRng::from_seed(seed),
            done: false,
        });
        let mut cpu_rng = SampleRng::from_seed(seed);
        cpu_colors.push(camera.ray_color(ray, &world, depth, &mut cpu_rng));
    }
    let traced = trace_batch(&scene, gpu_rays, depth + 1);
    for (t, c) in traced.iter().zip(cpu_colors.iter()) {
        assert!(t.done);
        assert_eq!(t.color, *c);
    }
}

#[test]
fn accumulation_reads_back_the_generation_order() {
    // Two pixels, three samples each, with marked colors: each pixel's total
    // must be the sum of exactly its own block of the flat buffer.
    let mut rays = Vec::new();
    for pix in 0..2i64 {
        for s in 0..3i64 {
            rays.push(GpuRay {
                origin: Vector::new(0, 0, 0),
                direction: Vector::new(0, 0, -SCALE),
                color: Vector::new(pix * 1000 + s, pix, s),
                bounces_left: 0,
                rng: SampleRng::from_seed(0),
                done: true,
            });
        }
    }
    let mut accum = vec![Vector::new(0, 0, 0), Vector::new(SCALE, 0, 0)];
    accumulate(&mut accum, &rays, 3);
    assert_eq!(accum[0], Vector::new(3, 0, 3));
    assert_eq!(accum[1], Vector::new(SCALE + 3003, 3, 3));
    let avg = average_samples(&accum, 3);
    assert_eq!(avg[0], Vector::new(1, 0, 1));
    assert_eq!(avg[1], Vector::new((SCALE + 3003) / 3, 1, 1));
}

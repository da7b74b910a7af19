use pathtrace::fx::SCALE;
use pathtrace::rng::SampleRng;
use pathtrace::rtx::camera::Camera;
use pathtrace::rtx::hittable::Hittable;
use pathtrace::rtx::lambertian::LambertianData;
use pathtrace::rtx::material::Material;
use pathtrace::rtx::sphere::SphereData;
use pathtrace::rtx::target::Target;
use pathtrace::rtx::target_list::TargetList;
use pathtrace::rtx::vector::Vector;

fn diffuse_world() -> Hittable {
    let mut list = TargetList::new();
    list.add(Target::Sphere(SphereData::new(
        Vector::new(0, 0, -2 * SCALE),
        SCALE,
        Material::Lambertian(LambertianData::new(Vector::new(
            SCALE / 2,
            SCALE / 2,
            SCALE / 2,
        ))),
    )));
    Hittable::Multiple(list)
}

fn pixel_variance(spp: usize, runs: u64) -> f64 {
    let world = diffuse_world();
    let camera = Camera::new(
        2,
        2,
        spp,
        5,
        SCALE,
        Vector::new(0, 0, 0),
        Vector::new(0, 0, -SCALE),
        Vector::new(0, SCALE, 0),
        0,
        2 * SCALE,
    );
    let mut samples: Vec<Vec<f64>> = vec![Vec::new(); 4];
    for run in 0..runs {
        let mut rng = SampleRng::from_seed(0x5eed + run);
        let image = camera.render(&world, &mut rng);
        for (i, px) in image.iter().enumerate() {
            samples[i].push(px.x as f64 / SCALE as f64);
        }
    }
    let mut total = 0.0;
    for vals in &samples {
        let mean: f64 = vals.iter().sum::<f64>() / vals.len() as f64;
        let var: f64 =
            vals.iter().map(|v| (v - mean) * (v - mean)).sum::<f64>() / vals.len() as f64;
        total += var;
    }
    total / samples.len() as f64
}

#[test]
fn more_samples_reduce_run_to_run_variance() {
    // Monte Carlo consistency: with a deterministic generator substitute,
    // raising the per-pixel sample count from 10 to 1000 must shrink the
    // variance of repeated renders' pixel colors.
    let coarse = pixel_variance(10, 8);
    let fine = pixel_variance(1000, 8);
    assert!(
        fine < coarse,
        "variance did not shrink: {} -> {}",
        coarse,
        fine
    );
}

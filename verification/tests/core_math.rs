use pathtrace::fx::{div_i128, isqrt_u128, SCALE};
use pathtrace::rng::SampleRng;
use pathtrace::rtx::vector::Vector;

#[test]
fn isqrt_exact_squares() {
    assert_eq!(isqrt_u128(0), 0);
    assert_eq!(isqrt_u128(1), 1);
    assert_eq!(isqrt_u128(4), 2);
    assert_eq!(isqrt_u128(65536 * 65536), 65536);
    assert_eq!(isqrt_u128(10), 3);
    assert_eq!(isqrt_u128(99), 9);
    let big: u128 = (1u128 << 100) - 1;
    let r = isqrt_u128(big);
    assert!(r * r <= big);
    assert!((r + 1) * (r + 1) > big);
}

#[test]
fn division_truncates_toward_zero() {
    assert_eq!(div_i128(7, 2), 3);
    assert_eq!(div_i128(-7, 2), -3);
    assert_eq!(div_i128(6, 3), 2);
    assert_eq!(div_i128(-6, 3), -2);
    assert_eq!(div_i128(0, 5), 0);
}

#[test]
fn dot_and_length_fixed_point() {
    // (3, 4, 0) in fixed point has length 5.
    let v = Vector::new(3 * SCALE, 4 * SCALE, 0);
    assert_eq!(v.length(), 5 * SCALE);
    assert_eq!(v.length_squared(), 25 * SCALE);
    let u = Vector::new(SCALE, 0, 0);
    let w = Vector::new(0, SCALE, 0);
    assert_eq!(u.dot(w), 0);
    assert_eq!(u.dot(u), SCALE);
}

#[test]
fn normalize_unit_and_zero_guard() {
    let v = Vector::new(3 * SCALE, 4 * SCALE, 0);
    let n = v.normalize();
    // 0.6 and 0.8 exactly in fixed point.
    assert_eq!(n, Vector::new(39321, 52428, 0));
    // The zero vector stays the zero vector.
    let z = Vector::new(0, 0, 0);
    assert_eq!(z.normalize(), Vector::new(0, 0, 0));
}

#[test]
fn cross_follows_right_hand_rule() {
    let x = Vector::new(SCALE, 0, 0);
    let y = Vector::new(0, SCALE, 0);
    assert_eq!(x.cross(y), Vector::new(0, 0, SCALE));
    assert_eq!(y.cross(x), Vector::new(0, 0, -SCALE));
}

#[test]
fn near_zero_guard() {
    assert!(Vector::new(0, 0, 0).near_zero());
    assert!(Vector::new(1, -1, 0).near_zero());
    assert!(!Vector::new(2, 0, 0).near_zero());
    assert!(!Vector::new(0, 0, SCALE).near_zero());
}

#[test]
fn reflect_mirrors_about_normal() {
    // Incoming straight down onto the x-z plane with upward normal.
    let d = Vector::new(SCALE, -SCALE, 0);
    let n = Vector::new(0, SCALE, 0);
    let r = d.reflect(n);
    assert_eq!(r, Vector::new(SCALE, SCALE, 0));
}

#[test]
fn reflect_law_within_tolerance() {
    // For a unit normal the incidence component of the reflection is the
    // reverse of the incident one, up to 3 * SCALE in the raw dot product.
    let normals = [
        Vector::new(0, SCALE, 0),
        Vector::new(SCALE, 0, 0),
        Vector::new(0, 0, -SCALE),
    ];
    let mut rng = SampleRng::from_seed(7);
    for n in normals {
        for _ in 0..20 {
            let d = Vector::random_unit_vector(&mut rng);
            let r = d.reflect(n);
            let lhs = r.dot_raw(n);
            let rhs = -d.dot_raw(n);
            assert!((lhs - rhs).abs() <= 3 * SCALE as i128);
        }
    }
}

#[test]
fn sampled_unit_vectors_are_unit_length() {
    let mut rng = SampleRng::from_seed(11);
    for _ in 0..50 {
        let u = Vector::random_unit_vector(&mut rng);
        let len = u.length();
        assert!((len - SCALE).abs() <= 64, "length {} not unit", len);
    }
}

#[test]
fn sampled_disk_points_stay_in_disk() {
    let mut rng = SampleRng::from_seed(13);
    for _ in 0..50 {
        let p = Vector::random_in_unit_disk(&mut rng);
        assert_eq!(p.z, 0);
        assert!(p.dot_raw(p) < (SCALE as i128) * (SCALE as i128));
    }
}

#[test]
fn generator_is_deterministic_per_seed() {
    let mut a = SampleRng::from_seed(42);
    let mut b = SampleRng::from_seed(42);
    for _ in 0..10 {
        assert_eq!(a.next_u64(), b.next_u64());
    }
    let mut c = SampleRng::from_seed(43);
    assert_ne!(a.next_u64(), c.next_u64());
}

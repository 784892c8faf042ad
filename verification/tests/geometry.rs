use raytrace::fixed::{fx_mul, fx_div, fx_sqrt, SCALE, HALF};
use raytrace::vec3::Vec3;
use raytrace::ray::Ray;
use raytrace::shade::hit_sphere;

fn v(x: i128, y: i128, z: i128) -> Vec3 {
    Vec3::new(x, y, z)
}

#[test]
fn fixed_mul_rescales() {
    assert_eq!(fx_mul(SCALE, SCALE), SCALE);
    assert_eq!(fx_mul(2 * SCALE, HALF), SCALE);
    assert_eq!(fx_mul(-3 * SCALE, 2 * SCALE), -6 * SCALE);
    assert_eq!(fx_mul(1, 1), 0);
}

#[test]
fn fixed_div_rescales() {
    assert_eq!(fx_div(SCALE, 2 * SCALE), HALF);
    assert_eq!(fx_div(-SCALE, 2 * SCALE), -HALF);
    assert_eq!(fx_div(SCALE, -2 * SCALE), -HALF);
    assert_eq!(fx_div(7, 2 * SCALE), 3);
}

#[test]
fn fixed_sqrt_is_floor_sqrt() {
    assert_eq!(fx_sqrt(0), 0);
    assert_eq!(fx_sqrt(SCALE), SCALE);
    assert_eq!(fx_sqrt(4 * SCALE), 2 * SCALE);
    assert_eq!(fx_sqrt(2 * SCALE), 1_414_213);
}

#[test]
fn vector_componentwise_ops() {
    let a = v(1_000_000, -2_000_000, 3_000_000);
    let b = v(500_000, 500_000, -500_000);
    assert_eq!(a.add(b), v(1_500_000, -1_500_000, 2_500_000));
    assert_eq!(a.subtract(b), v(500_000, -2_500_000, 3_500_000));
    assert_eq!(a.scale(2 * SCALE), v(2_000_000, -4_000_000, 6_000_000));
    assert_eq!(a.divide(2 * SCALE), v(500_000, -1_000_000, 1_500_000));
}

#[test]
fn dot_commutes_on_samples() {
    let pairs = [
        (v(SCALE, 2 * SCALE, -3 * SCALE), v(-7 * SCALE, HALF, 123_456)),
        (v(1, 2, 3), v(4, 5, 6)),
        (v(-987_654, 321_000, 0), v(111_111, -222_222, 333_333)),
    ];
    for (a, b) in pairs {
        assert_eq!(a.dot(b), b.dot(a));
    }
}

#[test]
fn length_of_scaled_pythagorean_triple_is_exact() {
    let a = v(3 * SCALE, 4 * SCALE, 0);
    assert_eq!(a.length_squared(), 25 * SCALE);
    assert_eq!(a.length(), 5 * SCALE);
}

#[test]
fn normalized_has_unit_length_within_tolerance() {
    let samples = [
        v(3 * SCALE, 4 * SCALE, 0),
        v(SCALE, SCALE, SCALE),
        v(123_456, -654_321, 987_654),
        v(0, 250_000, 0),
    ];
    for a in samples {
        let n = a.normalized();
        let len = n.length();
        assert!((len - SCALE).abs() <= 10, "length {} strays from one", len);
    }
}

#[test]
fn normalized_exact_on_axis_aligned() {
    assert_eq!(v(0, 7 * SCALE, 0).normalized(), v(0, SCALE, 0));
    assert_eq!(v(3 * SCALE, 4 * SCALE, 0).normalized(), v(600_000, 800_000, 0));
}

#[test]
fn ray_at_zero_is_origin() {
    let rays = [
        Ray::new(v(SCALE, 2 * SCALE, -3 * SCALE), v(-SCALE, HALF, 42)),
        Ray::new(v(0, 0, 0), v(0, SCALE, 0)),
        Ray::new(v(-5, 17, 99), v(123, -456, 789)),
    ];
    for r in rays {
        assert_eq!(r.at(0), r.origin);
    }
}

#[test]
fn ray_at_walks_the_direction() {
    let r = Ray::new(v(SCALE, 0, 0), v(0, 0, -SCALE));
    assert_eq!(r.at(2 * SCALE), v(SCALE, 0, -2 * SCALE));
    assert_eq!(r.at(HALF), v(SCALE, 0, -HALF));
    assert_eq!(r.at(-SCALE), v(SCALE, 0, SCALE));
}

#[test]
fn hit_sphere_miss_returns_minus_one() {
    // Straight up from the origin: never approaches the sphere, the
    // discriminant is negative.
    let r = Ray::new(v(0, 0, 0), v(0, SCALE, 0));
    let t = hit_sphere(v(0, 0, -SCALE), HALF, &r);
    assert_eq!(t, -SCALE);
}

#[test]
fn hit_sphere_direct_hit_at_half_unit() {
    // Straight into the sphere's front surface: the nearer root is
    // one half.
    let r = Ray::new(v(0, 0, 0), v(0, 0, -SCALE));
    let t = hit_sphere(v(0, 0, -SCALE), HALF, &r);
    assert_eq!(t, HALF);
}

#[test]
fn hit_sphere_behind_camera_is_negative() {
    // Pointing away from the sphere: both roots are negative, and the
    // nearer one comes back; the caller's positivity check rejects it.
    let r = Ray::new(v(0, 0, 0), v(0, 0, SCALE));
    let t = hit_sphere(v(0, 0, -SCALE), HALF, &r);
    assert_eq!(t, -1_500_000);
}

use raytrace::fixed::SCALE;
use raytrace::vec3::Vec3;
use raytrace::ray::Ray;
use raytrace::shade::ray_color;
use raytrace::camera::{image_height, Camera};
use raytrace::render::{render, color_to_byte};

fn v(x: i128, y: i128, z: i128) -> Vec3 {
    Vec3::new(x, y, z)
}

/// The aspect ratio sixteen to nine, as a scaled value.
fn wide_aspect() -> i128 {
    16 * SCALE / 9
}

#[test]
fn ray_color_straight_up_is_zenith_blue() {
    let r = Ray::new(v(0, 0, 0), v(0, SCALE, 0));
    assert_eq!(ray_color(&r), v(500_000, 700_000, SCALE));
}

#[test]
fn ray_color_direct_hit_visualizes_normal() {
    // The hit point's normal is (0, 0, 1), displayed as (0.5, 0.5, 1).
    let r = Ray::new(v(0, 0, 0), v(0, 0, -SCALE));
    assert_eq!(ray_color(&r), v(500_000, 500_000, SCALE));
}

#[test]
fn ray_color_backward_ray_shades_sky() {
    // The sphere lies behind the ray, so the sky gradient shows at
    // one half: the mid blend of white and zenith blue.
    let r = Ray::new(v(0, 0, 0), v(0, 0, SCALE));
    assert_eq!(ray_color(&r), v(750_000, 850_000, SCALE));
}

#[test]
fn image_height_of_400_wide_is_225() {
    assert_eq!(image_height(400, wide_aspect()), 225);
}

#[test]
fn image_height_of_square_image_is_width() {
    assert_eq!(image_height(100, SCALE), 100);
    assert_eq!(image_height(1, SCALE), 1);
}

#[test]
fn camera_steps_span_the_viewport() {
    let cam = Camera::new(400, wide_aspect());
    assert_eq!(cam.image_width, 400);
    assert_eq!(cam.image_height, 225);
    assert_eq!(cam.delta_u, v(8_888, 0, 0));
    assert_eq!(cam.delta_v, v(0, -8_888, 0));
    assert_eq!(cam.pixel00, v(-1_773_333, 995_556, -SCALE));
}

#[test]
fn first_pixel_ray_points_at_upper_left() {
    let cam = Camera::new(400, wide_aspect());
    let r = cam.pixel_ray(0, 0);
    assert_eq!(r.origin, v(0, 0, 0));
    assert_eq!(r.dir, v(-1_773_333, 995_556, -SCALE));
}

#[test]
fn render_emits_one_color_per_pixel() {
    let out = render(400, wide_aspect());
    assert_eq!(out.len(), 400 * 225);
    // Raster order: the first emitted color is the top-left pixel's,
    // a sky color; the center of the image shows the sphere.
    assert_eq!(out[0], v(640_175, 784_105, SCALE));
    assert_eq!(out[112 * 400 + 200], v(502_133, 500_050, 999_996));
    for c in &out {
        assert!(c.x.abs() <= 10 * SCALE && c.y.abs() <= 10 * SCALE && c.z.abs() <= 10 * SCALE);
    }
}

#[test]
fn render_twice_is_byte_identical() {
    let aspect = wide_aspect();
    let first = render(40, aspect);
    let second = render(40, aspect);
    assert_eq!(first.len(), 40 * 22);
    assert_eq!(first, second);
    let bytes_of = |colors: &Vec<Vec3>| -> Vec<u8> {
        let mut bytes = Vec::new();
        for c in colors {
            bytes.push(color_to_byte(c.x));
            bytes.push(color_to_byte(c.y));
            bytes.push(color_to_byte(c.z));
        }
        bytes
    };
    assert_eq!(bytes_of(&first), bytes_of(&second));
}

#[test]
fn color_bytes_clamp_and_scale() {
    assert_eq!(color_to_byte(0), 0);
    assert_eq!(color_to_byte(SCALE), 255);
    assert_eq!(color_to_byte(500_000), 128);
    assert_eq!(color_to_byte(999_000), 255);
    assert_eq!(color_to_byte(998_999), 255);
    assert_eq!(color_to_byte(300_000), 76);
    assert_eq!(color_to_byte(-123), 0);
    assert_eq!(color_to_byte(2 * SCALE), 255);
}

#[test]
fn image_height_at_largest_width() {
    // Width ten thousand with aspect ratio one hundred: one hundred rows.
    assert_eq!(image_height(10_000, 100_000_000), 100);
}

#[test]
fn image_height_at_narrowest_aspect() {
    // Aspect ratio one tenth: ten rows per pixel column.
    assert_eq!(image_height(10, 100_000), 100);
}

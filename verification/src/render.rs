//! The full pipeline: one color per pixel, in raster order, and the
//! conversion of a channel to an output byte.

use vstd::prelude::*;
use vstd::arithmetic::div_mod::lemma_div_is_ordered;
use vstd::arithmetic::div_mod::lemma_div_pos_is_pos;
use vstd::arithmetic::div_mod::lemma_mod_division_less_than_divisor;
use vstd::arithmetic::div_mod::lemma_multiply_divide_lt;
use crate::fixed::SCALE;
use crate::vec3::{Vec3, V3};
use crate::camera::{Camera, valid_config, spec_image_height, spec_scene_ray, spec_pixel_ray_of};
use crate::shade::{ray_color, spec_ray_color};

verus! {

/// The image as mathematics: for each index `k` in raster order
/// (row-major, top row first), the color of the ray through pixel
/// (`k` mod width, `k` div width).
pub open spec fn spec_render(width: int, aspect: int) -> Seq<V3> {
    Seq::new(
        (width * spec_image_height(width, aspect)) as nat,
        |k: int| spec_ray_color(spec_scene_ray(width, aspect, k % width, k / width)),
    )
}

/// Renders the whole image: exactly width times height colors, each
/// the color of its pixel's ray, in raster order.
pub fn render(image_width: u32, aspect_ratio: i128) -> (out: Vec<Vec3>)
    requires
        valid_config(image_width as int, aspect_ratio as int),
    ensures
        out@.len() == image_width as int * spec_image_height(
            image_width as int,
            aspect_ratio as int,
        ),
        forall|k: int|
            0 <= k < out@.len() ==> out@[k]@ == spec_render(
                image_width as int,
                aspect_ratio as int,
            )[k],
{
    let ghost wi = image_width as int;
    let ghost ar = aspect_ratio as int;
    let cam = Camera::new(image_width, aspect_ratio);
    let w = cam.image_width;
    let h = cam.image_height;
    assert(0 <= w as int * h as int <= 1_000_000_000) by (nonlinear_arith)
        requires
            1 <= w as int <= 10_000,
            1 <= h as int <= 100_000,
    ;
    let total: u64 = (w as u64) * (h as u64);
    assert(total as int == wi * spec_image_height(wi, ar));
    let mut out: Vec<Vec3> = Vec::new();
    let mut k: u64 = 0;
    while k < total
        invariant
            valid_config(wi, ar),
            cam.wf(),
            cam.image_width == w,
            cam.image_height == h,
            w as int == wi,
            h as int == spec_image_height(wi, ar),
            cam@.delta_u == crate::camera::spec_delta_u(wi, ar),
            cam@.delta_v == crate::camera::spec_delta_v(wi, ar),
            cam@.pixel00 == crate::camera::spec_pixel00(wi, ar),
            total as int == wi * spec_image_height(wi, ar),
            k <= total,
            out@.len() == k as int,
            forall|m: int| 0 <= m < k as int ==> out@[m]@ == spec_render(wi, ar)[m],
        decreases total - k,
    {
        proof {
            lemma_mod_division_less_than_divisor(k as int, w as int);
            lemma_multiply_divide_lt(k as int, w as int, h as int);
            lemma_div_pos_is_pos(k as int, w as int);
        }
        let i = (k % (w as u64)) as u32;
        let j = (k / (w as u64)) as u32;
        let ray = cam.pixel_ray(i, j);
        proof {
            assert(spec_pixel_ray_of(cam, i as int, j as int) == spec_scene_ray(
                wi,
                ar,
                k as int % wi,
                k as int / wi,
            ));
        }
        let color = ray_color(&ray);
        out.push(color);
        k = k + 1;
    }
    out
}

/// Rendering is deterministic: two outputs that both satisfy the
/// render contract for one configuration are the same sequence.
pub proof fn lemma_render_deterministic(o1: Seq<V3>, o2: Seq<V3>, width: int, aspect: int)
    requires
        o1.len() == spec_render(width, aspect).len(),
        o2.len() == spec_render(width, aspect).len(),
        forall|k: int| 0 <= k < o1.len() ==> o1[k] == spec_render(width, aspect)[k],
        forall|k: int| 0 <= k < o2.len() ==> o2[k] == spec_render(width, aspect)[k],
    ensures
        o1 == o2,
{
    assert(o1 =~= o2);
}

/// A channel clamped into the displayable range, just below one.
pub open spec fn spec_clamp_channel(c: int) -> int {
    if c < 0 {
        0
    } else if c > 999_000 {
        999_000
    } else {
        c
    }
}

/// The output byte of a channel: 256 times the clamped channel,
/// rounded down; values at or above one saturate at 255.
pub open spec fn spec_channel_byte(c: int) -> int {
    (256 * spec_clamp_channel(c)) / (SCALE as int)
}

/// Converts one color channel to its output byte.
pub fn color_to_byte(c: i128) -> (r: u8)
    ensures
        r as int == spec_channel_byte(c as int),
        r <= 255,
{
    let cl: i128 = if c < 0 {
        0
    } else if c > 999_000 {
        999_000
    } else {
        c
    };
    let num: u128 = (256 * cl) as u128;
    let q: u128 = num / 1_000_000;
    proof {
        lemma_div_pos_is_pos(num as int, 1_000_000int);
        lemma_div_is_ordered(num as int, 255_744_000int, 1_000_000int);
    }
    q as u8
}

} // verus!

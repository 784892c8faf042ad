//! Camera and viewport geometry, computed once per render.
//!
//! The camera sits at the origin and looks down the negative z axis at
//! a viewport two units tall, one focal length away.  From the image
//! size the module derives the per-pixel step vectors and the center
//! of the top-left pixel; each pixel's ray follows from those by exact
//! whole-number stepping.

use vstd::prelude::*;
use vstd::arithmetic::div_mod::lemma_div_by_self;
use vstd::arithmetic::div_mod::lemma_div_is_ordered;
use vstd::arithmetic::div_mod::lemma_div_is_ordered_by_denominator;
use vstd::arithmetic::div_mod::lemma_div_pos_is_pos;
use crate::fixed::{
    SCALE, HALF, iabs, tdiv, s_mul, lemma_tdiv_multiple, lemma_tdiv_zero,
    lemma_scaled_div_bound, lemma_s_mul_bound, lemma_s_mul_square_nonneg,
    lemma_s_div_bound_unit,
};
use crate::vec3::{Vec3, V3, in_range, spec_add, spec_sub, spec_scale, spec_divide, spec_dot};
use crate::ray::{Ray, RayModel};
use crate::shade::GEO_LIM;

verus! {

/// Largest accepted image width, in pixels.
pub const WIDTH_LIM: u32 = 10_000;

/// Smallest accepted aspect ratio: one tenth, scaled.
pub const ASPECT_MIN: i128 = 100_000;

/// Largest accepted aspect ratio: one hundred, scaled.
pub const ASPECT_MAX: i128 = 100_000_000;

/// A configuration the renderer accepts: a positive width, an aspect
/// ratio within machine-safe bounds, and an image height of at least
/// one row (the aspect ratio does not exceed the width).
pub open spec fn valid_config(width: int, aspect: int) -> bool {
    &&& 1 <= width <= WIDTH_LIM as int
    &&& ASPECT_MIN as int <= aspect <= ASPECT_MAX as int
    &&& aspect <= width * SCALE
}

/// Number of pixel rows: the width divided by the aspect ratio,
/// rounded down.
pub open spec fn spec_image_height(width: int, aspect: int) -> int {
    tdiv(width * SCALE, aspect)
}

/// Scaled viewport width: the aspect ratio times the viewport height
/// of two units (exact, since two is a whole number).
pub open spec fn spec_viewport_width(aspect: int) -> int {
    s_mul(aspect, 2 * SCALE)
}

/// Horizontal step between neighboring pixel centers.
pub open spec fn spec_delta_u(width: int, aspect: int) -> V3 {
    spec_divide(
        V3 { x: spec_viewport_width(aspect), y: 0, z: 0 },
        width * SCALE,
    )
}

/// Vertical step between neighboring pixel centers; it points down,
/// so that row zero is the top of the image.
pub open spec fn spec_delta_v(width: int, aspect: int) -> V3 {
    spec_divide(
        V3 { x: 0, y: -2 * SCALE as int, z: 0 },
        spec_image_height(width, aspect) * SCALE,
    )
}

/// World-space center of the top-left pixel: the upper-left viewport
/// corner moved half a step inward along both axes.
pub open spec fn spec_pixel00(width: int, aspect: int) -> V3 {
    let vu = V3 { x: spec_viewport_width(aspect), y: 0, z: 0 };
    let vv = V3 { x: 0, y: -2 * SCALE as int, z: 0 };
    let upper_left = spec_sub(
        spec_sub(
            spec_sub(V3 { x: 0, y: 0, z: 0 }, V3 { x: 0, y: 0, z: SCALE as int }),
            spec_divide(vu, 2 * SCALE as int),
        ),
        spec_divide(vv, 2 * SCALE as int),
    );
    spec_add(
        upper_left,
        spec_scale(spec_add(spec_delta_u(width, aspect), spec_delta_v(width, aspect)), HALF as int),
    )
}

/// The ray through the center of pixel (column `i`, row `j`), written
/// over the configuration alone.
pub open spec fn spec_scene_ray(width: int, aspect: int, i: int, j: int) -> RayModel {
    let pc = spec_add(
        spec_add(
            spec_pixel00(width, aspect),
            spec_scale(spec_delta_u(width, aspect), i * SCALE),
        ),
        spec_scale(spec_delta_v(width, aspect), j * SCALE),
    );
    RayModel {
        origin: V3 { x: 0, y: 0, z: 0 },
        dir: spec_sub(pc, V3 { x: 0, y: 0, z: 0 }),
    }
}

/// Number of pixel rows for the given width and aspect ratio.
pub fn image_height(image_width: u32, aspect_ratio: i128) -> (h: u32)
    requires
        valid_config(image_width as int, aspect_ratio as int),
    ensures
        h as int == spec_image_height(image_width as int, aspect_ratio as int),
        1 <= h <= 100_000,
{
    let ws: u128 = (image_width as u128) * 1_000_000;
    let q: u128 = ws / (aspect_ratio as u128);
    proof {
        lemma_div_pos_is_pos(ws as int, aspect_ratio as int);
        lemma_div_is_ordered_by_denominator(ws as int, ASPECT_MIN as int, aspect_ratio as int);
        lemma_div_is_ordered(ws as int, 10_000_000_000int, ASPECT_MIN as int);
        lemma_div_is_ordered_by_denominator(ws as int, aspect_ratio as int, ws as int);
        lemma_div_by_self(ws as int);
    }
    q as u32
}

/// The camera frame: image size, camera center, per-pixel steps, and
/// the center of pixel (0, 0), all fixed for the whole render.
pub struct Camera {
    pub image_width: u32,
    pub image_height: u32,
    pub center: Vec3,
    pub pixel00: Vec3,
    pub delta_u: Vec3,
    pub delta_v: Vec3,
}

impl Camera {
    /// The shape every constructed camera has: sizes in range, steps
    /// aligned with the image axes, and all magnitudes small enough
    /// that any pixel ray stays within the intersection test's bounds.
    pub open spec fn wf(self) -> bool {
        &&& 1 <= self.image_width <= WIDTH_LIM
        &&& 1 <= self.image_height <= 100_000
        &&& self@.center == (V3 { x: 0, y: 0, z: 0 })
        &&& self@.delta_u.y == 0 && self@.delta_u.z == 0
        &&& self@.delta_v.x == 0 && self@.delta_v.z == 0
        &&& 0 <= self@.delta_u.x
        &&& self.image_width as int * self@.delta_u.x <= 200_000_000
        &&& self@.delta_v.y <= 0
        &&& self.image_height as int * (-self@.delta_v.y) <= 2_000_000
        &&& iabs(self@.pixel00.x) <= 500_000_000
        &&& iabs(self@.pixel00.y) <= 500_000_000
        &&& self@.pixel00.z == -(SCALE as int)
    }

    /// One-time setup from the image width and the aspect ratio.
    pub fn new(image_width: u32, aspect_ratio: i128) -> (cam: Camera)
        requires
            valid_config(image_width as int, aspect_ratio as int),
        ensures
            cam.wf(),
            cam.image_width == image_width,
            cam.image_height as int == spec_image_height(image_width as int, aspect_ratio as int),
            cam@.delta_u == spec_delta_u(image_width as int, aspect_ratio as int),
            cam@.delta_v == spec_delta_v(image_width as int, aspect_ratio as int),
            cam@.pixel00 == spec_pixel00(image_width as int, aspect_ratio as int),
    {
        let h = image_height(image_width, aspect_ratio);
        let center = Vec3::new(0, 0, 0);
        let viewport_width = crate::fixed::fx_mul(aspect_ratio, 2 * SCALE);
        proof {
            lemma_tdiv_multiple(2 * aspect_ratio as int);
            assert((aspect_ratio as int) * (2 * SCALE as int)
                == (2 * aspect_ratio as int) * (SCALE as int)) by (nonlinear_arith);
        }
        let viewport_u = Vec3::new(viewport_width, 0, 0);
        let viewport_v = Vec3::new(0, -2 * SCALE, 0);
        let w_fx: i128 = (image_width as i128) * SCALE;
        let h_fx: i128 = (h as i128) * SCALE;
        proof {
            lemma_scaled_div_bound(viewport_width as int, image_width as int);
            lemma_scaled_div_bound(2 * SCALE as int, h as int);
            lemma_tdiv_zero(w_fx as int);
            lemma_tdiv_zero(h_fx as int);
            assert(-(2 * SCALE as int) * (SCALE as int) == -((2 * SCALE as int) * SCALE));
        }
        let delta_u = viewport_u.divide(w_fx);
        let delta_v = viewport_v.divide(h_fx);
        proof {
            lemma_s_div_bound_unit(viewport_width as int, 2 * SCALE as int, 200_000_000int);
            lemma_s_div_bound_unit(-2 * SCALE as int, 2 * SCALE as int, 2 * SCALE as int);
            lemma_tdiv_zero(2 * SCALE as int);
        }
        let upper_left = center.subtract(Vec3::new(0, 0, SCALE)).subtract(
            viewport_u.divide(2 * SCALE),
        ).subtract(viewport_v.divide(2 * SCALE));
        proof {
            lemma_s_mul_bound(
                delta_u@.x + delta_v@.x,
                HALF as int,
                202_000_000int,
                HALF as int,
            );
            lemma_s_mul_bound(
                delta_u@.y + delta_v@.y,
                HALF as int,
                202_000_000int,
                HALF as int,
            );
        }
        let pixel00 = upper_left.add(delta_u.add(delta_v).scale(HALF));
        Camera {
            image_width,
            image_height: h,
            center,
            pixel00,
            delta_u,
            delta_v,
        }
    }

    /// The ray from the camera center through the center of pixel
    /// (column `i`, row `j`).  Its direction reaches the viewport
    /// plane one unit ahead, so its squared length is at least one.
    pub fn pixel_ray(&self, i: u32, j: u32) -> (r: Ray)
        requires
            self.wf(),
            i < self.image_width,
            j < self.image_height,
        ensures
            r@ == spec_pixel_ray_of(*self, i as int, j as int),
            in_range(r@.origin, GEO_LIM as int),
            in_range(r@.dir, GEO_LIM as int),
            spec_dot(r@.dir, r@.dir) >= SCALE as int,
    {
        let i_fx: i128 = (i as i128) * SCALE;
        let j_fx: i128 = (j as i128) * SCALE;
        proof {
            lemma_tdiv_multiple(self@.delta_u.x * i as int);
            lemma_tdiv_multiple(self@.delta_u.y * i as int);
            lemma_tdiv_multiple(self@.delta_u.z * i as int);
            lemma_tdiv_multiple(self@.delta_v.x * j as int);
            lemma_tdiv_multiple(self@.delta_v.y * j as int);
            lemma_tdiv_multiple(self@.delta_v.z * j as int);
            assert(self@.delta_u.x * (i as int * SCALE) == (self@.delta_u.x * i as int) * SCALE)
                by (nonlinear_arith);
            assert(self@.delta_u.y * (i as int * SCALE) == (self@.delta_u.y * i as int) * SCALE)
                by (nonlinear_arith);
            assert(self@.delta_u.z * (i as int * SCALE) == (self@.delta_u.z * i as int) * SCALE)
                by (nonlinear_arith);
            assert(self@.delta_v.x * (j as int * SCALE) == (self@.delta_v.x * j as int) * SCALE)
                by (nonlinear_arith);
            assert(self@.delta_v.y * (j as int * SCALE) == (self@.delta_v.y * j as int) * SCALE)
                by (nonlinear_arith);
            assert(self@.delta_v.z * (j as int * SCALE) == (self@.delta_v.z * j as int) * SCALE)
                by (nonlinear_arith);
            assert(0 <= self@.delta_u.x * i as int <= self.image_width as int * self@.delta_u.x)
                by (nonlinear_arith)
                requires
                    0 <= self@.delta_u.x,
                    0 <= i as int <= self.image_width as int,
            ;
            assert(0 <= (-self@.delta_v.y) * j as int
                <= self.image_height as int * (-self@.delta_v.y)) by (nonlinear_arith)
                requires
                    0 <= -self@.delta_v.y,
                    0 <= j as int <= self.image_height as int,
            ;
            assert(self@.delta_v.y * j as int == -((-self@.delta_v.y) * j as int))
                by (nonlinear_arith);
            assert(self@.delta_u.x <= self.image_width as int * self@.delta_u.x)
                by (nonlinear_arith)
                requires
                    0 <= self@.delta_u.x,
                    1 <= self.image_width as int,
            ;
            assert((-self@.delta_v.y) <= self.image_height as int * (-self@.delta_v.y))
                by (nonlinear_arith)
                requires
                    0 <= -self@.delta_v.y,
                    1 <= self.image_height as int,
            ;
        }
        let pc = self.pixel00.add(self.delta_u.scale(i_fx)).add(self.delta_v.scale(j_fx));
        let dir = pc.subtract(self.center);
        proof {
            lemma_s_mul_square_nonneg(dir@.x);
            lemma_s_mul_square_nonneg(dir@.y);
            lemma_tdiv_multiple(SCALE as int);
            assert((-(SCALE as int)) * (-(SCALE as int)) == (SCALE as int) * SCALE);
        }
        Ray::new(self.center, dir)
    }
}

/// Mathematical model of a camera: the views of its vector fields.
pub ghost struct CameraModel {
    pub center: V3,
    pub pixel00: V3,
    pub delta_u: V3,
    pub delta_v: V3,
}

impl View for Camera {
    type V = CameraModel;

    open spec fn view(&self) -> CameraModel {
        CameraModel {
            center: self.center@,
            pixel00: self.pixel00@,
            delta_u: self.delta_u@,
            delta_v: self.delta_v@,
        }
    }
}

/// The ray through pixel (`i`, `j`) of this camera's grid.
pub open spec fn spec_pixel_ray_of(cam: Camera, i: int, j: int) -> RayModel {
    let pc = spec_add(
        spec_add(cam@.pixel00, spec_scale(cam@.delta_u, i * SCALE)),
        spec_scale(cam@.delta_v, j * SCALE),
    );
    RayModel { origin: cam@.center, dir: spec_sub(pc, cam@.center) }
}

} // verus!

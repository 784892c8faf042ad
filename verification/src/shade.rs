//! Ray-sphere intersection and shading.
//!
//! The scene is one sphere of radius one half centered one unit in
//! front of the camera; everything the sphere does not cover is a
//! vertical sky gradient from white to light blue.

use vstd::prelude::*;
use crate::fixed::{
    SCALE, HALF, iabs, s_mul, s_div, s_sqrt, fx_mul, fx_div, fx_sqrt, lemma_isqrt_bounds,
    lemma_isqrt_lt, lemma_s_mul_bound, lemma_s_div_bound_unit,
};
use crate::vec3::{
    Vec3, V3, in_range, spec_add, spec_sub, spec_scale, spec_dot, spec_length_squared,
    spec_normalized, lemma_dot_bound, lemma_length_squared_nonneg,
};
use crate::ray::{Ray, RayModel, spec_at};

verus! {

/// Largest component magnitude a ray or sphere handed to the
/// intersection test may have: one thousand length units.
pub const GEO_LIM: i128 = 1_000_000_000;

/// Every intersection parameter returned under the bounds below stays
/// within this magnitude.
pub const T_LIM: i128 = 40_000_000_000_000;

/// The scaled blue channel of the sky's zenith color.
pub const SKY_BLUE_Y: i128 = 700_000;

/// Center of the scene's one sphere: one unit straight ahead.
pub open spec fn spec_sphere_center() -> V3 {
    V3 { x: 0, y: 0, z: -(SCALE as int) }
}

/// Discriminant of the quadratic equation for the ray's intersection
/// with the sphere.
pub open spec fn spec_disc(center: V3, radius: int, ray: RayModel) -> int {
    let oc = spec_sub(ray.origin, center);
    let a = spec_dot(ray.dir, ray.dir);
    let b = 2 * spec_dot(oc, ray.dir);
    let c = spec_dot(oc, oc) - s_mul(radius, radius);
    s_mul(b, b) - 4 * s_mul(a, c)
}

/// The nearer intersection parameter, or minus one when the
/// discriminant is negative (no intersection).  The farther root is
/// never computed.
pub open spec fn spec_hit_sphere(center: V3, radius: int, ray: RayModel) -> int {
    let oc = spec_sub(ray.origin, center);
    let a = spec_dot(ray.dir, ray.dir);
    let b = 2 * spec_dot(oc, ray.dir);
    let disc = spec_disc(center, radius, ray);
    if disc < 0 {
        -(SCALE as int)
    } else {
        s_div(-b - s_sqrt(disc), 2 * a)
    }
}

/// The color of a ray: the visualized surface normal where the sphere
/// is hit in front of the camera, the sky gradient otherwise.  A hit
/// point whose offset from the center rounds to squared length zero
/// (possible only far outside the scene's scale) shades mid-gray.
pub open spec fn spec_ray_color(ray: RayModel) -> V3 {
    let t = spec_hit_sphere(spec_sphere_center(), HALF as int, ray);
    if t > 0 {
        let d = spec_sub(spec_at(ray, t), spec_sphere_center());
        if spec_length_squared(d) >= 1 {
            let n = spec_normalized(d);
            spec_scale(
                V3 { x: n.x + SCALE, y: n.y + SCALE, z: n.z + SCALE },
                HALF as int,
            )
        } else {
            V3 { x: HALF as int, y: HALF as int, z: HALF as int }
        }
    } else {
        let unit = spec_normalized(ray.dir);
        let a = s_mul(unit.y + SCALE, HALF as int);
        spec_add(
            spec_scale(V3 { x: SCALE as int, y: SCALE as int, z: SCALE as int }, SCALE - a),
            spec_scale(V3 { x: HALF as int, y: SKY_BLUE_Y as int, z: SCALE as int }, a),
        )
    }
}

/// Bound chain for the intersection parameter: with geometry within
/// `GEO_LIM` and a direction of squared length at least one half, the
/// returned parameter keeps magnitude below `T_LIM`.
pub proof fn lemma_hit_sphere_bound(center: V3, radius: int, ray: RayModel)
    requires
        in_range(center, GEO_LIM as int),
        iabs(radius) <= GEO_LIM as int,
        in_range(ray.origin, GEO_LIM as int),
        in_range(ray.dir, GEO_LIM as int),
        spec_dot(ray.dir, ray.dir) >= HALF as int,
    ensures
        iabs(spec_hit_sphere(center, radius, ray)) <= T_LIM as int,
{
    let oc = spec_sub(ray.origin, center);
    let a = spec_dot(ray.dir, ray.dir);
    let b = 2 * spec_dot(oc, ray.dir);
    let c = spec_dot(oc, oc) - s_mul(radius, radius);
    let disc = spec_disc(center, radius, ray);
    lemma_dot_bound(ray.dir, ray.dir, GEO_LIM as int, GEO_LIM as int);
    lemma_dot_bound(oc, ray.dir, 2 * GEO_LIM as int, GEO_LIM as int);
    lemma_dot_bound(oc, oc, 2 * GEO_LIM as int, 2 * GEO_LIM as int);
    lemma_s_mul_bound(radius, radius, GEO_LIM as int, GEO_LIM as int);
    lemma_s_mul_bound(b, b, 13_000_000_000_000int, 13_000_000_000_000int);
    lemma_s_mul_bound(a, c, 3_000_000_000_000int, 13_000_000_000_000int);
    if disc < 0 {
    } else {
        lemma_isqrt_bounds(disc * SCALE);
        lemma_isqrt_lt(disc * SCALE, 20_000_000_000_000int);
        assert(disc * SCALE < 20_000_000_000_000int * 20_000_000_000_000int) by (nonlinear_arith)
            requires
                0 <= disc <= 330_000_000_000_000_000_000int,
        ;
        lemma_s_div_bound_unit(-b - s_sqrt(disc), 2 * a, 33_000_000_000_000int);
    }
}

/// Intersection test against a sphere.  Returns the nearer root of the
/// quadratic, and exactly minus one when the discriminant is negative;
/// the caller treats any non-positive value as a miss.
pub fn hit_sphere(center: Vec3, radius: i128, r: &Ray) -> (t: i128)
    requires
        in_range(center@, GEO_LIM as int),
        -GEO_LIM <= radius <= GEO_LIM,
        in_range(r@.origin, GEO_LIM as int),
        in_range(r@.dir, GEO_LIM as int),
        spec_dot(r@.dir, r@.dir) >= 1,
    ensures
        t as int == spec_hit_sphere(center@, radius as int, r@),
        spec_disc(center@, radius as int, r@) < 0 ==> t == -SCALE,
{
    let oc = r.origin.subtract(center);
    proof {
        lemma_dot_bound(r@.dir, r@.dir, GEO_LIM as int, GEO_LIM as int);
        lemma_dot_bound(oc@, r@.dir, 2 * GEO_LIM as int, GEO_LIM as int);
        lemma_dot_bound(oc@, oc@, 2 * GEO_LIM as int, 2 * GEO_LIM as int);
        lemma_s_mul_bound(radius as int, radius as int, GEO_LIM as int, GEO_LIM as int);
    }
    let a = r.dir.dot(r.dir);
    let b = 2 * oc.dot(r.dir);
    let c = oc.dot(oc) - fx_mul(radius, radius);
    proof {
        lemma_s_mul_bound(b as int, b as int, 13_000_000_000_000int, 13_000_000_000_000int);
        lemma_s_mul_bound(a as int, c as int, 3_000_000_000_000int, 13_000_000_000_000int);
    }
    let disc = fx_mul(b, b) - 4 * fx_mul(a, c);
    if disc < 0 {
        -SCALE
    } else {
        let sq = fx_sqrt(disc);
        proof {
            lemma_isqrt_lt(disc as int * SCALE as int, 20_000_000_000_000int);
            assert((disc as int) * (SCALE as int) < 20_000_000_000_000int * 20_000_000_000_000int)
                by (nonlinear_arith)
                requires
                    0 <= disc as int <= 330_000_000_000_000_000_000int,
            ;
        }
        fx_div(-b - sq, 2 * a)
    }
}

/// Shading: normal visualization on a hit, sky gradient on a miss.
pub fn ray_color(r: &Ray) -> (color: Vec3)
    requires
        in_range(r@.origin, GEO_LIM as int),
        in_range(r@.dir, GEO_LIM as int),
        spec_dot(r@.dir, r@.dir) >= HALF as int,
    ensures
        color@ == spec_ray_color(r@),
        in_range(color@, 10 * SCALE as int),
{
    let center = Vec3::new(0, 0, -SCALE);
    let t = hit_sphere(center, HALF, r);
    proof {
        lemma_hit_sphere_bound(center@, HALF as int, r@);
    }
    if t > 0 {
        let p = r.at(t);
        proof {
            lemma_s_mul_bound(r@.dir.x, t as int, GEO_LIM as int, T_LIM as int);
            lemma_s_mul_bound(r@.dir.y, t as int, GEO_LIM as int, T_LIM as int);
            lemma_s_mul_bound(r@.dir.z, t as int, GEO_LIM as int, T_LIM as int);
        }
        let d = p.subtract(center);
        let ls = d.length_squared();
        if ls >= 1 {
            let n = d.normalized();
            let shifted = Vec3::new(n.x + SCALE, n.y + SCALE, n.z + SCALE);
            proof {
                lemma_s_mul_bound(shifted@.x, HALF as int, 4 * SCALE as int, HALF as int);
                lemma_s_mul_bound(shifted@.y, HALF as int, 4 * SCALE as int, HALF as int);
                lemma_s_mul_bound(shifted@.z, HALF as int, 4 * SCALE as int, HALF as int);
            }
            shifted.scale(HALF)
        } else {
            Vec3::new(HALF, HALF, HALF)
        }
    } else {
        let unit = r.dir.normalized();
        let a = fx_mul(unit.y + SCALE, HALF);
        proof {
            lemma_s_mul_bound(unit@.y + SCALE as int, HALF as int, 4 * SCALE as int, HALF as int);
        }
        let white = Vec3::new(SCALE, SCALE, SCALE);
        let blue = Vec3::new(HALF, SKY_BLUE_Y, SCALE);
        proof {
            lemma_s_mul_bound(SCALE as int, SCALE as int - a as int, SCALE as int, 3 * SCALE as int);
            lemma_s_mul_bound(SCALE as int, a as int, SCALE as int, 2 * SCALE as int);
            lemma_s_mul_bound(HALF as int, a as int, SCALE as int, 2 * SCALE as int);
            lemma_s_mul_bound(SKY_BLUE_Y as int, a as int, SCALE as int, 2 * SCALE as int);
        }
        white.scale(SCALE - a).add(blue.scale(a))
    }
}

} // verus!

//! Rays: a parametric line given by an origin and a direction.

use vstd::prelude::*;
use crate::fixed::{SCALE, MUL_LIM, DIV_LIM, s_mul, tdiv, lemma_s_mul_bound};
use crate::vec3::{Vec3, V3, in_range, spec_add, spec_scale};

verus! {

/// Mathematical model of a ray.
pub ghost struct RayModel {
    pub origin: V3,
    pub dir: V3,
}

/// A ray: origin plus any multiple of the direction.  The direction
/// need not be normalized.
#[derive(Clone, Copy, PartialEq, Eq, Structural, Debug)]
pub struct Ray {
    pub origin: Vec3,
    pub dir: Vec3,
}

impl View for Ray {
    type V = RayModel;

    open spec fn view(&self) -> RayModel {
        RayModel { origin: self.origin@, dir: self.dir@ }
    }
}

/// The point reached after walking `t` times the direction from the
/// origin.
pub open spec fn spec_at(r: RayModel, t: int) -> V3 {
    spec_add(r.origin, spec_scale(r.dir, t))
}

/// At parameter zero a ray evaluates to its own origin.
pub proof fn lemma_at_zero(r: RayModel)
    ensures
        spec_at(r, 0) == r.origin,
{
    assert(r.dir.x * 0 == 0) by (nonlinear_arith);
    assert(r.dir.y * 0 == 0) by (nonlinear_arith);
    assert(r.dir.z * 0 == 0) by (nonlinear_arith);
    assert(tdiv(0, SCALE as int) == 0);
}

impl Ray {
    /// Builds the ray with the given origin and direction, unchecked,
    /// as a plain pair of vectors.
    pub fn new(origin: Vec3, dir: Vec3) -> (r: Ray)
        ensures
            r@.origin == origin@,
            r@.dir == dir@,
    {
        Ray { origin, dir }
    }

    /// Exact affine evaluation: origin plus `t` times the direction.
    pub fn at(&self, t: i128) -> (r: Vec3)
        requires
            in_range(self@.origin, DIV_LIM as int),
            in_range(self@.dir, MUL_LIM as int),
            -MUL_LIM <= t <= MUL_LIM,
        ensures
            r@ == spec_at(self@, t as int),
    {
        proof {
            lemma_s_mul_bound(self@.dir.x, t as int, MUL_LIM as int, MUL_LIM as int);
            lemma_s_mul_bound(self@.dir.y, t as int, MUL_LIM as int, MUL_LIM as int);
            lemma_s_mul_bound(self@.dir.z, t as int, MUL_LIM as int, MUL_LIM as int);
        }
        self.origin.add(self.dir.scale(t))
    }
}

} // verus!

//! The planar quad: a parallelogram spanned by two edges from a corner.

use vstd::prelude::*;
use crate::bounding::{BoundingBox, hull_of, merged, padded};
use crate::hittable::HitRecord;
use crate::scalar::{Scalar, ONE_KEY, less, less_eq, negated};
use crate::vec3::{Point3, Vec3};

verus! {

/// The key of the double 1e-8: a ray whose direction has a smaller part along
/// the plane's normal counts as parallel to the plane.
pub const PARALLEL_KEY: i64 = 0x3E45_798E_E230_8C3A;

/// What the arithmetic on a quad's corner and edges gives: the three other
/// corners and the constants of its plane.
#[derive(Clone, Copy, Debug, PartialEq, Eq, Structural)]
pub struct QuadFrame {
    /// The corner at the end of the first edge.
    pub end_u: Point3,
    /// The corner at the end of the second edge.
    pub end_v: Point3,
    /// The corner opposite the quad's own.
    pub far: Point3,
    /// The unit normal of the plane.
    pub normal: Vec3,
    /// The plane's constant: the normal's dot product with the corner.
    pub d: Scalar,
    /// The edges' cross product over its own squared length.
    pub w: Vec3,
}

/// Where a ray meets a quad's plane, as the arithmetic gives it.
#[derive(Clone, Copy, Debug, PartialEq, Eq, Structural)]
pub struct PlaneCrossing {
    /// The dot product of the plane's normal and the ray's direction.
    pub denom: Scalar,
    /// The ray's parameter at the plane.
    pub t: Scalar,
    /// The point of the ray at that parameter.
    pub point: Point3,
    /// The point's coordinate along the first edge, in edge lengths.
    pub alpha: Scalar,
    /// The point's coordinate along the second edge, in edge lengths.
    pub beta: Scalar,
}

/// A parallelogram with a material.
#[derive(Clone, Copy, Debug, PartialEq, Eq, Structural)]
pub struct Quad {
    pub q: Point3,
    pub u: Vec3,
    pub v: Vec3,
    /// The handle of the material.
    pub mat: usize,
    pub bounds: BoundingBox,
    pub normal: Vec3,
    pub d: Scalar,
    pub w: Vec3,
}

/// The coordinate lies in the half-open unit interval: at or above 0 and
/// strictly below 1.
pub open spec fn in_unit(x: Scalar) -> bool {
    less_eq(Scalar { key: 0 }, x) && less(x, Scalar { key: ONE_KEY })
}

/// The absolute value of a scalar.
pub open spec fn magnitude(x: Scalar) -> Scalar {
    if x.key < 0 {
        negated(x)
    } else {
        x
    }
}

/// What a quad answers to a ray that meets its plane as `at` says. There is no
/// hit where the ray is parallel to the plane, where the parameter lies
/// outside `t_min..=t_max`, or where the point's planar coordinates are not
/// both in the half-open unit interval. Otherwise the hit is at the point,
/// with the planar coordinates as surface coordinates and the plane's normal
/// turned against the ray.
pub open spec fn quad_answer(quad: Quad, at: PlaneCrossing, t_min: Scalar, t_max: Scalar) -> Option<HitRecord> {
    if less(magnitude(at.denom), Scalar { key: PARALLEL_KEY }) {
        None
    } else if less(at.t, t_min) || less(t_max, at.t) {
        None
    } else if !in_unit(at.alpha) || !in_unit(at.beta) {
        None
    } else {
        let front = less(at.denom, Scalar { key: 0 });
        Some(
            HitRecord {
                p: at.point,
                normal: if front {
                    quad.normal
                } else {
                    quad.normal.reversed()
                },
                t: at.t,
                front_face: front,
                material: quad.mat,
                u: at.alpha,
                v: at.beta,
            },
        )
    }
}

/// `out` is the quad with corner `q`, edges `u` and `v` and the constants of
/// `frame`; its bounding box spans the padded boxes of its two diagonals.
pub open spec fn framed<F: Fn(&BoundingBox, usize) -> Scalar, W: Fn(Scalar, Scalar) -> (Scalar, Scalar)>(
    q: Point3,
    u: Vec3,
    v: Vec3,
    mat: usize,
    frame: QuadFrame,
    length: F,
    widen: W,
    out: Quad,
) -> bool {
    &&& out.q == q
    &&& out.u == u
    &&& out.v == v
    &&& out.mat == mat
    &&& out.normal == frame.normal
    &&& out.d == frame.d
    &&& out.w == frame.w
    &&& exists|first: BoundingBox, second: BoundingBox|
        #![trigger merged(first, second)]
        padded(hull_of(q, frame.far), length, widen, first) && padded(
            hull_of(frame.end_u, frame.end_v),
            length,
            widen,
            second,
        ) && out.bounds == merged(first, second)
}

impl Quad {
    /// The quad with corner `q` and edges `u` and `v`. Its bounding box spans
    /// the padded boxes of its two diagonals; `length` and `widen` serve the
    /// padding.
    pub fn new<F: Fn(&BoundingBox, usize) -> Scalar, W: Fn(Scalar, Scalar) -> (Scalar, Scalar)>(
        q: Point3,
        u: Vec3,
        v: Vec3,
        mat: usize,
        frame: QuadFrame,
        length: &F,
        widen: &W,
    ) -> (out: Quad)
        requires
            forall|b: &BoundingBox, a: usize| a < 3 ==> call_requires(length, (b, a)),
            forall|lo: Scalar, hi: Scalar| call_requires(widen, (lo, hi)),
        ensures
            framed(q, u, v, mat, frame, *length, *widen, out),
    {
        let bound1 = BoundingBox::new(q, frame.far, length, widen);
        let bound2 = BoundingBox::new(frame.end_u, frame.end_v, length, widen);
        let full_bounds = BoundingBox::box_between(&bound1, &bound2);
        proof {
            assert(full_bounds == merged(bound1, bound2));
        }
        Quad { q, u, v, mat, bounds: full_bounds, normal: frame.normal, d: frame.d, w: frame.w }
    }

    /// The planar coordinates, where both lie in the half-open unit interval:
    /// the quad's own corner is inside, the opposite corner is not.
    pub fn is_interior(&self, a: &Scalar, b: &Scalar) -> (out: Option<(Scalar, Scalar)>)
        ensures
            out == (if in_unit(*a) && in_unit(*b) {
                Some((*a, *b))
            } else {
                None
            }),
    {
        let inside_a = Scalar::zero().le(*a) && a.lt(Scalar::one());
        let inside_b = Scalar::zero().le(*b) && b.lt(Scalar::one());
        if !inside_a || !inside_b {
            None
        } else {
            Some((*a, *b))
        }
    }

    /// The hit of a ray that meets the quad's plane as `at` says, within
    /// `ray_tmin..=ray_tmax`.
    pub fn hit(&self, at: &PlaneCrossing, ray_tmin: Scalar, ray_tmax: Scalar) -> (out: Option<HitRecord>)
        ensures
            out == quad_answer(*self, *at, ray_tmin, ray_tmax),
    {
        if at.denom.abs().lt(Scalar { key: PARALLEL_KEY }) {
            return None;
        }
        if at.t.lt(ray_tmin) || ray_tmax.lt(at.t) {
            return None;
        }
        match self.is_interior(&at.alpha, &at.beta) {
            Some((u, v)) => {
                let mut record = HitRecord::new(at.point, self.normal, at.t, self.mat, u, v);
                record.set_face_normal(at.denom, self.normal);
                Some(record)
            },
            None => None,
        }
    }

    pub fn bounding_box(&self) -> (out: &BoundingBox)
        ensures
            *out == self.bounds,
    {
        &self.bounds
    }
}

} // verus!

//! The sphere, at rest or moving along a line during the exposure.

use vstd::prelude::*;
use crate::bounding::{BoundingBox, hull_of, merged, padded};
use crate::hittable::HitRecord;
use crate::ray::Ray;
use crate::scalar::{Scalar, less, less_eq};
use crate::vec3::{Point3, Vec3};

verus! {

/// The corners of the cubes around a sphere at the start and at the end of
/// its movement: the centre moved by the radius down and up on every axis.
#[derive(Clone, Copy, Debug, PartialEq, Eq, Structural)]
pub struct SphereReach {
    pub low_start: Point3,
    pub high_start: Point3,
    pub low_end: Point3,
    pub high_end: Point3,
}

/// What the quadratic of a ray against a sphere gives.
#[derive(Clone, Copy, Debug, PartialEq, Eq, Structural)]
pub struct Roots {
    pub discriminant: Scalar,
    /// The smaller root.
    pub near: Scalar,
    /// The larger root.
    pub far: Scalar,
}

/// The surface of a sphere at one point of a ray.
#[derive(Clone, Copy, Debug, PartialEq, Eq, Structural)]
pub struct SurfacePoint {
    pub p: Point3,
    /// The unit normal that points away from the centre.
    pub outward: Vec3,
    /// The dot product of the ray's direction and the outward normal.
    pub facing: Scalar,
    pub u: Scalar,
    pub v: Scalar,
}

/// A sphere with a material.
#[derive(Clone, Copy, Debug, PartialEq, Eq, Structural)]
pub struct Sphere {
    /// The movement of the centre: from the ray's origin at the start, by the
    /// ray's direction until the end. A sphere at rest has a direction of
    /// zero.
    pub center: Ray,
    pub radius: Scalar,
    /// The handle of the material.
    pub mat: usize,
    pub bounds: BoundingBox,
}

/// The root lies outside the open range `t_min..t_max`.
pub open spec fn outside(root: Scalar, t_min: Scalar, t_max: Scalar) -> bool {
    less_eq(root, t_min) || less_eq(t_max, root)
}

/// The root at which a ray enters the range: none where the discriminant is
/// negative; else the smaller root unless it lies outside the open range
/// `t_min..t_max`; else the larger root unless that lies outside too.
pub open spec fn chosen_root(roots: Roots, t_min: Scalar, t_max: Scalar) -> Option<Scalar> {
    if less(roots.discriminant, Scalar { key: 0 }) {
        None
    } else if !outside(roots.near, t_min, t_max) {
        Some(roots.near)
    } else if !outside(roots.far, t_min, t_max) {
        Some(roots.far)
    } else {
        None
    }
}

/// The record of a hit at parameter `t` on the surface point `at`: the normal
/// is the outward one where the ray comes from outside, and the outward one
/// reversed otherwise.
pub open spec fn surface_hit(t: Scalar, at: SurfacePoint, mat: usize) -> HitRecord {
    let front = less(at.facing, Scalar { key: 0 });
    HitRecord {
        p: at.p,
        normal: if front {
            at.outward
        } else {
            at.outward.reversed()
        },
        t,
        front_face: front,
        material: mat,
        u: at.u,
        v: at.v,
    }
}

impl Sphere {
    /// The sphere whose centre moves as `center` says. Its bounding box spans
    /// the padded boxes around it at the start and at the end; `length` and
    /// `widen` serve the padding.
    pub fn new<F: Fn(&BoundingBox, usize) -> Scalar, W: Fn(Scalar, Scalar) -> (Scalar, Scalar)>(
        center: Ray,
        radius: Scalar,
        mat: usize,
        reach: SphereReach,
        length: &F,
        widen: &W,
    ) -> (out: Sphere)
        requires
            forall|b: &BoundingBox, a: usize| a < 3 ==> call_requires(length, (b, a)),
            forall|lo: Scalar, hi: Scalar| call_requires(widen, (lo, hi)),
        ensures
            out.center == center,
            out.radius == radius,
            out.mat == mat,
            exists|start: BoundingBox, end: BoundingBox|
                #![trigger merged(start, end)]
                padded(hull_of(reach.low_start, reach.high_start), *length, *widen, start) && padded(
                    hull_of(reach.low_end, reach.high_end),
                    *length,
                    *widen,
                    end,
                ) && out.bounds == merged(start, end),
    {
        let start = BoundingBox::new(reach.low_start, reach.high_start, length, widen);
        let end = BoundingBox::new(reach.low_end, reach.high_end, length, widen);
        let bounds = BoundingBox::box_between(&start, &end);
        proof {
            assert(bounds == merged(start, end));
        }
        Sphere { center, radius, mat, bounds }
    }

    /// The root at which the ray meets the sphere within the open range
    /// `t_min..t_max`, the smaller root before the larger.
    pub fn root(roots: &Roots, t_min: Scalar, t_max: Scalar) -> (out: Option<Scalar>)
        ensures
            out == chosen_root(*roots, t_min, t_max),
    {
        if roots.discriminant.lt(Scalar::zero()) {
            return None;
        }
        let mut root = roots.near;
        if root.le(t_min) || t_max.le(root) {
            root = roots.far;
            if root.le(t_min) || t_max.le(root) {
                return None;
            }
        }
        Some(root)
    }

    /// The hit of a ray on the sphere within the open range
    /// `ray_tmin..ray_tmax`. `roots` holds the ray's quadratic against the
    /// sphere; `surface` gives the sphere's surface at a parameter of the ray.
    pub fn hit<S: Fn(Scalar) -> SurfacePoint>(&self, roots: &Roots, surface: &S, ray_tmin: Scalar, ray_tmax: Scalar) -> (out:
        Option<HitRecord>)
        requires
            forall|t: Scalar| call_requires(surface, (t,)),
        ensures
            match chosen_root(*roots, ray_tmin, ray_tmax) {
                None => out is None,
                Some(t) => exists|at: SurfacePoint| #[trigger]
                    call_ensures(*surface, (t,), at) && out == Some(surface_hit(t, at, self.mat)),
            },
    {
        match Sphere::root(roots, ray_tmin, ray_tmax) {
            None => None,
            Some(t) => {
                let at = surface(t);
                let mut hit_record = HitRecord::new(at.p, at.outward, t, self.mat, at.u, at.v);
                hit_record.set_face_normal(at.facing, at.outward);
                Some(hit_record)
            },
        }
    }

    pub fn bounding_box(&self) -> (out: &BoundingBox)
        ensures
            *out == self.bounds,
    {
        &self.bounds
    }
}

} // verus!

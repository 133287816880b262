//! Wrappers that move or turn a shape. The wrapped shape is asked in its own
//! space; the wrapper carries its answer back into the world.

use vstd::prelude::*;
use crate::bounding::{BoundingBox, turned};
use crate::hittable::HitRecord;
use crate::scalar::Scalar;
use crate::vec3::{Point3, Vec3};

verus! {

/// A shape moved by an offset.
#[derive(Clone, Copy, Debug, PartialEq, Eq, Structural)]
pub struct Translate {
    pub offset: Vec3,
    pub bounds: BoundingBox,
}

/// A shape turned about the vertical axis.
#[derive(Clone, Copy, Debug, PartialEq, Eq, Structural)]
pub struct RotateY {
    pub sin_theta: Scalar,
    pub cos_theta: Scalar,
    pub bounds: BoundingBox,
}

/// `out` is the wrapped shape's answer carried back by a translation: no hit
/// stays no hit, and a hit keeps everything but its point, which is what
/// `shift` gave for the point in the shape's own space.
pub open spec fn carried_back<M: Fn(Point3) -> Point3>(inner: Option<HitRecord>, shift: M, out: Option<HitRecord>) -> bool {
    match inner {
        None => out is None,
        Some(hit) => out is Some && call_ensures(shift, (hit.p,), out->Some_0.p) && out->Some_0 == (HitRecord {
            p: out->Some_0.p,
            ..hit
        }),
    }
}

/// `out` is the wrapped shape's answer carried back by a rotation: no hit
/// stays no hit, and a hit keeps everything but its point and its normal,
/// which are what `turn` gave for them.
pub open spec fn turned_back<T: Fn(Vec3) -> Vec3>(inner: Option<HitRecord>, turn: T, out: Option<HitRecord>) -> bool {
    match inner {
        None => out is None,
        Some(hit) => out is Some && call_ensures(turn, (hit.p.data,), out->Some_0.p.data) && call_ensures(
            turn,
            (hit.normal,),
            out->Some_0.normal,
        ) && out->Some_0 == (HitRecord { p: out->Some_0.p, normal: out->Some_0.normal, ..hit }),
    }
}

impl Translate {
    /// The wrapper around a shape with the given bounding box; its own box is
    /// that box with both corners moved by `shift`.
    pub fn new<M: Fn(Point3) -> Point3>(offset: Vec3, inner: &BoundingBox, shift: &M) -> (out: Translate)
        requires
            forall|p: Point3| call_requires(shift, (p,)),
        ensures
            out.offset == offset,
            call_ensures(*shift, (inner.lower,), out.bounds.lower),
            call_ensures(*shift, (inner.upper,), out.bounds.upper),
    {
        let lower = shift(inner.lower);
        let upper = shift(inner.upper);
        Translate { offset, bounds: BoundingBox { lower, upper } }
    }

    /// Carries the wrapped shape's answer back into the world: the point is
    /// moved by `shift`, the normal and the rest stay.
    pub fn hit<M: Fn(Point3) -> Point3>(&self, inner: Option<HitRecord>, shift: &M) -> (out: Option<HitRecord>)
        requires
            forall|p: Point3| call_requires(shift, (p,)),
        ensures
            carried_back(inner, *shift, out),
    {
        match inner {
            None => None,
            Some(hit) => {
                let mut record = hit;
                let p = shift(hit.p);
                record.update_record(p, hit.normal, hit.t);
                Some(record)
            },
        }
    }

    pub fn bounding_box(&self) -> (out: &BoundingBox)
        ensures
            *out == self.bounds,
    {
        &self.bounds
    }
}

impl RotateY {
    /// The wrapper around a shape with the given bounding box; its own box
    /// bounds that box's eight corners, each rotated by `turn`.
    pub fn new<T: Fn(Point3) -> Point3>(sin_theta: Scalar, cos_theta: Scalar, inner: &BoundingBox, turn: &T) -> (out:
        RotateY)
        requires
            forall|p: Point3| call_requires(turn, (p,)),
        ensures
            out.sin_theta == sin_theta,
            out.cos_theta == cos_theta,
            turned(*inner, *turn, out.bounds),
    {
        let bounds = inner.rotate_y(turn);
        RotateY { sin_theta, cos_theta, bounds }
    }

    /// Carries the wrapped shape's answer back into the world: point and
    /// normal are rotated by `turn`, the rest stays.
    pub fn hit<T: Fn(Vec3) -> Vec3>(&self, inner: Option<HitRecord>, turn: &T) -> (out: Option<HitRecord>)
        requires
            forall|v: Vec3| call_requires(turn, (v,)),
        ensures
            turned_back(inner, *turn, out),
    {
        match inner {
            None => None,
            Some(hit) => {
                let mut record = hit;
                let p = turn(hit.p.data);
                let normal = turn(hit.normal);
                record.update_record(Point3 { data: p }, normal, hit.t);
                Some(record)
            },
        }
    }

    pub fn bounding_box(&self) -> (out: &BoundingBox)
        ensures
            *out == self.bounds,
    {
        &self.bounds
    }
}

} // verus!

//! Triples of scalars: a displacement and a position, kept apart by type.

use vstd::prelude::*;
use crate::scalar::{Scalar, lesser, greater, negated};

verus! {

/// A displacement or direction.
#[derive(Clone, Copy, Debug, PartialEq, Eq, Structural)]
pub struct Vec3 {
    pub x: Scalar,
    pub y: Scalar,
    pub z: Scalar,
}

/// A position.
#[derive(Clone, Copy, Debug, PartialEq, Eq, Structural)]
pub struct Point3 {
    pub data: Vec3,
}

impl Vec3 {
    /// The component on an axis; an axis past the third reads as the third.
    pub open spec fn axis(self, axis: int) -> Scalar {
        if axis == 0 {
            self.x
        } else if axis == 1 {
            self.y
        } else {
            self.z
        }
    }

    pub fn new(x: Scalar, y: Scalar, z: Scalar) -> (v: Vec3)
        ensures
            v == (Vec3 { x, y, z }),
    {
        Vec3 { x, y, z }
    }

    pub fn x(&self) -> (s: Scalar)
        ensures
            s == self.x,
    {
        self.x
    }

    pub fn y(&self) -> (s: Scalar)
        ensures
            s == self.y,
    {
        self.y
    }

    pub fn z(&self) -> (s: Scalar)
        ensures
            s == self.z,
    {
        self.z
    }

    /// The component on the given axis.
    pub fn offset(&self, axis: usize) -> (s: Scalar)
        requires
            axis < 3,
        ensures
            s == self.axis(axis as int),
    {
        if axis == 0 {
            self.x
        } else if axis == 1 {
            self.y
        } else {
            self.z
        }
    }

    /// The vector with every component negated.
    pub open spec fn reversed(self) -> Vec3 {
        Vec3 { x: negated(self.x), y: negated(self.y), z: negated(self.z) }
    }

    /// The vector that points the opposite way.
    pub fn neg(self) -> (v: Vec3)
        ensures
            v == self.reversed(),
    {
        Vec3 { x: self.x.neg(), y: self.y.neg(), z: self.z.neg() }
    }

    /// The smaller component on every axis.
    pub fn most_minimum(self, other: Vec3) -> (v: Vec3)
        ensures
            forall|axis: int| 0 <= axis < 3 ==> #[trigger] v.axis(axis) == lesser(self.axis(axis), other.axis(axis)),
    {
        Vec3 { x: self.x.min(other.x), y: self.y.min(other.y), z: self.z.min(other.z) }
    }

    /// The larger component on every axis.
    pub fn most_maximum(self, other: Vec3) -> (v: Vec3)
        ensures
            forall|axis: int| 0 <= axis < 3 ==> #[trigger] v.axis(axis) == greater(self.axis(axis), other.axis(axis)),
    {
        Vec3 { x: self.x.max(other.x), y: self.y.max(other.y), z: self.z.max(other.z) }
    }
}

impl Point3 {
    /// The coordinate on an axis.
    pub open spec fn axis(self, axis: int) -> Scalar {
        self.data.axis(axis)
    }

    pub fn new(x: Scalar, y: Scalar, z: Scalar) -> (p: Point3)
        ensures
            p == (Point3 { data: Vec3 { x, y, z } }),
    {
        Point3 { data: Vec3 { x, y, z } }
    }

    /// The coordinate on the given axis.
    pub fn offset(&self, axis: usize) -> (s: Scalar)
        requires
            axis < 3,
        ensures
            s == self.axis(axis as int),
    {
        self.data.offset(axis)
    }

    /// The smaller coordinate on every axis.
    pub fn most_minimum(self, other: Point3) -> (p: Point3)
        ensures
            forall|axis: int| 0 <= axis < 3 ==> #[trigger] p.axis(axis) == lesser(self.axis(axis), other.axis(axis)),
    {
        let data = self.data.most_minimum(other.data);
        proof {
            assert forall|axis: int| 0 <= axis < 3 implies #[trigger] data.axis(axis) == lesser(
                self.axis(axis),
                other.axis(axis),
            ) by {}
        }
        Point3 { data }
    }

    /// The larger coordinate on every axis.
    pub fn most_maximum(self, other: Point3) -> (p: Point3)
        ensures
            forall|axis: int| 0 <= axis < 3 ==> #[trigger] p.axis(axis) == greater(self.axis(axis), other.axis(axis)),
    {
        let data = self.data.most_maximum(other.data);
        Point3 { data }
    }
}

} // verus!

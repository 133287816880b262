//! The ray: a line through space, travelled at one moment of the exposure.

use vstd::prelude::*;
use crate::scalar::Scalar;
use crate::vec3::{Point3, Vec3};

verus! {

/// An origin, a direction, and the time at which the ray travels, from 0 at
/// the start of the exposure to 1 at its end. A ray also describes a
/// movement: from its origin, by its direction, while the time runs.
#[derive(Clone, Copy, Debug, PartialEq, Eq, Structural)]
pub struct Ray {
    pub origin: Point3,
    pub direction: Vec3,
    pub time: Scalar,
}

impl Ray {
    pub fn new(origin: Point3, direction: Vec3, time: Scalar) -> (out: Ray)
        ensures
            out == (Ray { origin, direction, time }),
    {
        Ray { origin, direction, time }
    }

    pub fn direction(&self) -> (out: Vec3)
        ensures
            out == self.direction,
    {
        self.direction
    }

    pub fn origin(&self) -> (out: Point3)
        ensures
            out == self.origin,
    {
        self.origin
    }

    pub fn time(&self) -> (out: Scalar)
        ensures
            out == self.time,
    {
        self.time
    }
}

} // verus!

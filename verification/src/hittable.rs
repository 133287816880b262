//! Hit records, the choice between two hits, and the flat list of shapes.
//!
//! A shape is known here by its place in its container and by its bounding
//! box. What a ray meets on a shape is the shape's own geometry: a container
//! asks for it through `strike`, a closure from a shape's place and a
//! parameter range to the hit in that range, if there is one.

use vstd::prelude::*;
use crate::bounding::{BoundingBox, merged, top_corner, bottom_corner};
use crate::scalar::{Scalar, less};
use crate::vec3::{Point3, Vec3};

verus! {

/// Where a ray met a surface, and what the surface is like there.
#[derive(Clone, Copy, Debug, PartialEq, Eq, Structural)]
pub struct HitRecord {
    pub p: Point3,
    pub normal: Vec3,
    pub t: Scalar,
    pub front_face: bool,
    /// The handle of the surface's material.
    pub material: usize,
    pub u: Scalar,
    pub v: Scalar,
}

/// The nearer of two answers: the left one only where its parameter is
/// strictly the smaller, so that equal parameters give the right one.
pub open spec fn nearer(left: Option<HitRecord>, right: Option<HitRecord>) -> Option<HitRecord> {
    match (left, right) {
        (Some(a), Some(b)) => if less(a.t, b.t) {
            Some(a)
        } else {
            Some(b)
        },
        (Some(a), None) => Some(a),
        (None, Some(b)) => Some(b),
        (None, None) => None,
    }
}

/// The linear scan from shape `next` on, as a relation between the state that
/// enters and the answer. Each shape is asked for a hit between `t_min` and
/// the parameter of the best hit so far, `closest`; a hit becomes the best and
/// its parameter the new bound. Past the last shape the answer is the best.
pub open spec fn scan_outcome<G: Fn(usize, Scalar, Scalar) -> Option<HitRecord>>(
    strike: G,
    next: int,
    count: int,
    t_min: Scalar,
    closest: Scalar,
    best: Option<HitRecord>,
    out: Option<HitRecord>,
) -> bool
    decreases count - next,
{
    if next < 0 || next >= count {
        out == best
    } else {
        exists|answer: Option<HitRecord>|
            #[trigger] call_ensures(strike, (next as usize, t_min, closest), answer) && (match answer {
                Some(hit) => scan_outcome(strike, next + 1, count, t_min, hit.t, Some(hit), out),
                None => scan_outcome(strike, next + 1, count, t_min, closest, best, out),
            })
    }
}

impl HitRecord {
    /// A record that does not face the ray yet.
    pub fn new(p: Point3, normal: Vec3, t: Scalar, material: usize, u: Scalar, v: Scalar) -> (out: HitRecord)
        ensures
            out == (HitRecord { p, normal, t, front_face: false, material, u, v }),
    {
        HitRecord { p, normal, t, front_face: false, material, u, v }
    }

    /// The handle of the material of the surface that was hit.
    pub fn material_ref(&self) -> (m: usize)
        ensures
            m == self.material,
    {
        self.material
    }

    pub fn front_face(&self) -> (b: bool)
        ensures
            b == self.front_face,
    {
        self.front_face
    }

    /// Moves the record to another point of the ray; the rest stays.
    pub fn update_record(&mut self, p: Point3, normal: Vec3, t: Scalar)
        ensures
            *final(self) == (HitRecord { p, normal, t, ..*old(self) }),
    {
        self.p = p;
        self.normal = normal;
        self.t = t;
    }

    /// Turns the normal against the ray. `facing` is the dot product of the
    /// ray's direction and the outward normal: where it is negative the ray
    /// comes from outside and the normal is the outward one; otherwise the
    /// normal is the outward one reversed.
    pub fn set_face_normal(&mut self, facing: Scalar, out_normal: Vec3)
        ensures
            final(self).front_face == less(facing, Scalar { key: 0 }),
            final(self).normal == (if less(facing, Scalar { key: 0 }) {
                out_normal
            } else {
                out_normal.reversed()
            }),
            *final(self) == (HitRecord { front_face: final(self).front_face, normal: final(self).normal, ..*old(self) }),
    {
        self.front_face = facing.lt(Scalar::zero());
        self.normal = if self.front_face {
            out_normal
        } else {
            out_normal.neg()
        };
    }

    pub fn normal(&self) -> (n: Vec3)
        ensures
            n == self.normal,
    {
        self.normal
    }

    pub fn hit_pos(&self) -> (p: Point3)
        ensures
            p == self.p,
    {
        self.p
    }

    /// The nearer of two answers; the right one where the parameters are equal.
    pub fn closer(left: Option<HitRecord>, right: Option<HitRecord>) -> (out: Option<HitRecord>)
        ensures
            out == nearer(left, right),
    {
        match (left, right) {
            (Some(a), Some(b)) => {
                if a.t.lt(b.t) {
                    Some(a)
                } else {
                    Some(b)
                }
            },
            (Some(a), None) => Some(a),
            (None, Some(b)) => Some(b),
            (None, None) => None,
        }
    }
}

/// A list of shapes without acceleration: every query asks every shape.
pub struct HittableList {
    /// The bounding box of each shape, in the order in which they were added.
    pub hittables: Vec<BoundingBox>,
    /// The box that spans them all.
    pub bounds: BoundingBox,
}

impl HittableList {
    /// The list without shapes; its bounding box holds nothing.
    pub fn new() -> (out: HittableList)
        ensures
            out.hittables@ == Seq::<BoundingBox>::empty(),
            out.bounds == (BoundingBox { lower: top_corner(), upper: bottom_corner() }),
    {
        HittableList { hittables: Vec::new(), bounds: BoundingBox::empty() }
    }

    /// Adds a shape, given by its bounding box, at the end of the list; the
    /// list's box grows to span it.
    pub fn add(&mut self, object: BoundingBox)
        ensures
            final(self).hittables@ == old(self).hittables@.push(object),
            final(self).bounds == merged(old(self).bounds, object),
    {
        let bounds = BoundingBox::box_between(&self.bounds, &object);
        self.bounds = bounds;
        self.hittables.push(object);
    }

    /// The nearest hit among the shapes, found by asking each in turn for a
    /// hit nearer than the best so far.
    pub fn hit<G: Fn(usize, Scalar, Scalar) -> Option<HitRecord>>(&self, strike: &G, t_min: Scalar, t_max: Scalar) -> (out:
        Option<HitRecord>)
        requires
            forall|i: usize, lo: Scalar, hi: Scalar| i < self.hittables@.len() ==> call_requires(strike, (i, lo, hi)),
        ensures
            scan_outcome(*strike, 0, self.hittables@.len() as int, t_min, t_max, None, out),
    {
        let mut record: Option<HitRecord> = None;
        let mut closest_so_far = t_max;
        let count: usize = self.hittables.len();
        let mut i: usize = 0;
        while i < count
            invariant
                i <= count,
                count == self.hittables@.len(),
                forall|i: usize, lo: Scalar, hi: Scalar| i < count ==> call_requires(strike, (i, lo, hi)),
                forall|out: Option<HitRecord>| #[trigger]
                    scan_outcome(*strike, i as int, count as int, t_min, closest_so_far, record, out)
                        ==> scan_outcome(*strike, 0, count as int, t_min, t_max, None, out),
            decreases count - i,
        {
            let ghost before = closest_so_far;
            let ghost best = record;
            let answer = strike(i, t_min, closest_so_far);
            if let Some(last_record) = answer {
                closest_so_far = last_record.t;
                record = Some(last_record);
            }
            proof {
                assert forall|out: Option<HitRecord>| #[trigger]
                    scan_outcome(*strike, i + 1, count as int, t_min, closest_so_far, record, out) implies scan_outcome(
                    *strike,
                    0,
                    count as int,
                    t_min,
                    t_max,
                    None,
                    out,
                ) by {
                    assert(call_ensures(*strike, (i, t_min, before), answer));
                    assert(scan_outcome(*strike, i as int, count as int, t_min, before, best, out));
                }
            }
            i = i + 1;
        }
        proof {
            assert(scan_outcome(*strike, count as int, count as int, t_min, closest_so_far, record, record));
        }
        record
    }

    /// The box that spans every shape of the list.
    pub fn bounding_box(&self) -> (out: &BoundingBox)
        ensures
            *out == self.bounds,
    {
        &self.bounds
    }
}

/// A hit that the scan answers with is the answer of one of the shapes it
/// asked, or the best hit that entered: the list invents no hit.
pub proof fn lemma_scan_sound<G: Fn(usize, Scalar, Scalar) -> Option<HitRecord>>(
    strike: G,
    next: int,
    count: int,
    t_min: Scalar,
    closest: Scalar,
    best: Option<HitRecord>,
    out: Option<HitRecord>,
) -> (found: (int, Scalar))
    requires
        scan_outcome(strike, next, count, t_min, closest, best, out),
        0 <= next,
        out is Some,
        out != best,
    ensures
        next <= found.0 < count,
        call_ensures(strike, (found.0 as usize, t_min, found.1), out),
    decreases count - next,
{
    let answer = choose|answer: Option<HitRecord>|
        #[trigger] call_ensures(strike, (next as usize, t_min, closest), answer) && (match answer {
            Some(hit) => scan_outcome(strike, next + 1, count, t_min, hit.t, Some(hit), out),
            None => scan_outcome(strike, next + 1, count, t_min, closest, best, out),
        });
    match answer {
        Some(hit) => {
            if out == answer {
                (next, closest)
            } else {
                lemma_scan_sound(strike, next + 1, count, t_min, hit.t, Some(hit), out)
            }
        },
        None => lemma_scan_sound(strike, next + 1, count, t_min, closest, best, out),
    }
}

/// Where no shape answers with a hit, the list has none: a scan that starts
/// without a best hit and ends with one has been given it by a shape.
pub proof fn lemma_scan_misses<G: Fn(usize, Scalar, Scalar) -> Option<HitRecord>>(
    strike: G,
    count: int,
    t_min: Scalar,
    t_max: Scalar,
    out: Option<HitRecord>,
)
    requires
        scan_outcome(strike, 0, count, t_min, t_max, None, out),
        forall|i: usize, lo: Scalar, hi: Scalar, answer: Option<HitRecord>| #[trigger]
            call_ensures(strike, (i, lo, hi), answer) ==> answer is None,
    ensures
        out is None,
{
    if out is Some {
        let found = lemma_scan_sound(strike, 0, count, t_min, t_max, None, out);
    }
}

} // verus!

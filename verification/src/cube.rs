//! The box of six quads between two corners.

use vstd::prelude::*;
use crate::bounding::{BoundingBox, hull_of, merged, top_corner, bottom_corner};
use crate::hittable::HitRecord;
use crate::quad::{Quad, QuadFrame, PlaneCrossing, framed, quad_answer};
use crate::scalar::Scalar;
use crate::vec3::{Point3, Vec3};

verus! {

/// The edges of a box along the three axes, each as long as the box is on
/// that axis.
#[derive(Clone, Copy, Debug, PartialEq, Eq, Structural)]
pub struct CubeEdges {
    pub dx: Vec3,
    pub dy: Vec3,
    pub dz: Vec3,
}

/// A closed box of six quads.
pub struct Cube {
    /// Front, right, back, left, top and bottom.
    pub sides: Vec<Quad>,
    /// The box that spans the six sides.
    pub bounds: BoundingBox,
}

/// The corner from which side `k` of the box between `lo` and `hi` is spanned.
pub open spec fn side_corner(lo: Point3, hi: Point3, k: int) -> Point3 {
    let x = if k == 1 || k == 2 { hi.data.x } else { lo.data.x };
    let y = if k == 4 { hi.data.y } else { lo.data.y };
    let z = if k == 0 || k == 1 || k == 4 { hi.data.z } else { lo.data.z };
    Point3 { data: Vec3 { x, y, z } }
}

/// The first edge of side `k`.
pub open spec fn side_u(edges: CubeEdges, k: int) -> Vec3 {
    if k == 1 {
        edges.dz.reversed()
    } else if k == 2 {
        edges.dx.reversed()
    } else if k == 3 {
        edges.dz
    } else {
        edges.dx
    }
}

/// The second edge of side `k`.
pub open spec fn side_v(edges: CubeEdges, k: int) -> Vec3 {
    if k == 4 {
        edges.dz.reversed()
    } else if k == 5 {
        edges.dz
    } else {
        edges.dy
    }
}

/// The box that spans the first `count` sides.
pub open spec fn sides_hull(sides: Seq<Quad>, count: int) -> BoundingBox
    decreases count,
{
    if count <= 0 {
        BoundingBox { lower: top_corner(), upper: bottom_corner() }
    } else {
        merged(sides_hull(sides, count - 1), sides[count - 1].bounds)
    }
}

/// `side` is side `k` of the box between `lo` and `hi`: the quad from that
/// side's corner along its two edges, with the constants that `frame` gave
/// for them.
pub open spec fn is_side<
    Fr: Fn(Point3, Vec3, Vec3) -> QuadFrame,
    F: Fn(&BoundingBox, usize) -> Scalar,
    W: Fn(Scalar, Scalar) -> (Scalar, Scalar),
>(
    lo: Point3,
    hi: Point3,
    edges: CubeEdges,
    mat: usize,
    k: int,
    frame: Fr,
    length: F,
    widen: W,
    side: Quad,
) -> bool {
    exists|constants: QuadFrame| #[trigger]
        call_ensures(frame, (side_corner(lo, hi, k), side_u(edges, k), side_v(edges, k)), constants) && framed(
            side_corner(lo, hi, k),
            side_u(edges, k),
            side_v(edges, k),
            mat,
            constants,
            length,
            widen,
            side,
        )
}

/// The scan of the sides from `next` on, as a relation between the state that
/// enters and the answer. Each side answers to the ray as it meets the side's
/// plane, within `t_min` and the parameter of the best hit so far; a hit
/// becomes the best and its parameter the new bound.
pub open spec fn sides_outcome<M: Fn(&Quad) -> PlaneCrossing>(
    sides: Seq<Quad>,
    meet: M,
    next: int,
    t_min: Scalar,
    closest: Scalar,
    best: Option<HitRecord>,
    out: Option<HitRecord>,
) -> bool
    decreases sides.len() - next,
{
    if next < 0 || next >= sides.len() {
        out == best
    } else {
        exists|at: PlaneCrossing| #[trigger]
            call_ensures(meet, (&sides[next],), at) && (match quad_answer(sides[next], at, t_min, closest) {
                Some(hit) => sides_outcome(sides, meet, next + 1, t_min, hit.t, Some(hit), out),
                None => sides_outcome(sides, meet, next + 1, t_min, closest, best, out),
            })
    }
}

impl Cube {
    /// The corner and the two edges of side `k`.
    pub fn side(lo: Point3, hi: Point3, edges: &CubeEdges, k: usize) -> (out: (Point3, Vec3, Vec3))
        requires
            k < 6,
        ensures
            out.0 == side_corner(lo, hi, k as int),
            out.1 == side_u(*edges, k as int),
            out.2 == side_v(*edges, k as int),
    {
        let x = if k == 1 || k == 2 {
            hi.data.x
        } else {
            lo.data.x
        };
        let y = if k == 4 {
            hi.data.y
        } else {
            lo.data.y
        };
        let z = if k == 0 || k == 1 || k == 4 {
            hi.data.z
        } else {
            lo.data.z
        };
        let u = if k == 1 {
            edges.dz.neg()
        } else if k == 2 {
            edges.dx.neg()
        } else if k == 3 {
            edges.dz
        } else {
            edges.dx
        };
        let v = if k == 4 {
            edges.dz.neg()
        } else if k == 5 {
            edges.dz
        } else {
            edges.dy
        };
        (Point3::new(x, y, z), u, v)
    }

    /// The closed box between two opposite corners, given in any order.
    /// `measure` gives the box's edges along the axes from its least and its
    /// greatest corner, `frame` gives the constants of a quad's plane, and
    /// `length` and `widen` serve the padding of a quad's bounding box.
    pub fn new<
        E: Fn(Point3, Point3) -> CubeEdges,
        Fr: Fn(Point3, Vec3, Vec3) -> QuadFrame,
        F: Fn(&BoundingBox, usize) -> Scalar,
        W: Fn(Scalar, Scalar) -> (Scalar, Scalar),
    >(a: Point3, b: Point3, mat: usize, measure: &E, frame: &Fr, length: &F, widen: &W) -> (out: Cube)
        requires
            forall|lo: Point3, hi: Point3| call_requires(measure, (lo, hi)),
            forall|q: Point3, u: Vec3, v: Vec3| call_requires(frame, (q, u, v)),
            forall|b: &BoundingBox, a: usize| a < 3 ==> call_requires(length, (b, a)),
            forall|lo: Scalar, hi: Scalar| call_requires(widen, (lo, hi)),
        ensures
            out.sides@.len() == 6,
            exists|edges: CubeEdges| #[trigger]
                call_ensures(*measure, (hull_of(a, b).lower, hull_of(a, b).upper), edges) && forall|k: int|
                    0 <= k < 6 ==> is_side(
                        hull_of(a, b).lower,
                        hull_of(a, b).upper,
                        edges,
                        mat,
                        k,
                        *frame,
                        *length,
                        *widen,
                        #[trigger] out.sides@[k],
                    ),
            out.bounds == sides_hull(out.sides@, 6),
    {
        let corners = BoundingBox::span(a, b);
        let edges = measure(corners.lower, corners.upper);
        let mut sides: Vec<Quad> = Vec::new();
        let mut bounds = BoundingBox::empty();
        let mut k: usize = 0;
        while k < 6
            invariant
                k <= 6,
                corners == hull_of(a, b),
                sides@.len() == k,
                forall|q: Point3, u: Vec3, v: Vec3| call_requires(frame, (q, u, v)),
                forall|b: &BoundingBox, a: usize| a < 3 ==> call_requires(length, (b, a)),
                forall|lo: Scalar, hi: Scalar| call_requires(widen, (lo, hi)),
                forall|i: int|
                    0 <= i < k ==> is_side(
                        corners.lower,
                        corners.upper,
                        edges,
                        mat,
                        i,
                        *frame,
                        *length,
                        *widen,
                        #[trigger] sides@[i],
                    ),
                bounds == sides_hull(sides@, k as int),
            decreases 6 - k,
        {
            let (q, u, v) = Cube::side(corners.lower, corners.upper, &edges, k);
            let constants = frame(q, u, v);
            let quad = Quad::new(q, u, v, mat, constants, length, widen);
            let ghost before = sides@;
            bounds = BoundingBox::box_between(&bounds, &quad.bounds);
            sides.push(quad);
            proof {
                lemma_sides_hull_prefix(before, sides@, k as int);
                assert(is_side(corners.lower, corners.upper, edges, mat, k as int, *frame, *length, *widen, quad));
            }
            k = k + 1;
        }
        Cube { sides, bounds }
    }

    /// The nearest hit among the sides within `t_min..t_max`. `meet` gives
    /// the ray's crossing of a side's plane.
    pub fn hit<M: Fn(&Quad) -> PlaneCrossing>(&self, meet: &M, t_min: Scalar, t_max: Scalar) -> (out: Option<HitRecord>)
        requires
            forall|side: &Quad| call_requires(meet, (side,)),
        ensures
            sides_outcome(self.sides@, *meet, 0, t_min, t_max, None, out),
    {
        let mut record: Option<HitRecord> = None;
        let mut closest_so_far = t_max;
        let count: usize = self.sides.len();
        let mut i: usize = 0;
        while i < count
            invariant
                i <= count,
                count == self.sides@.len(),
                forall|side: &Quad| call_requires(meet, (side,)),
                forall|out: Option<HitRecord>| #[trigger]
                    sides_outcome(self.sides@, *meet, i as int, t_min, closest_so_far, record, out) ==> sides_outcome(
                        self.sides@,
                        *meet,
                        0,
                        t_min,
                        t_max,
                        None,
                        out,
                    ),
            decreases count - i,
        {
            let ghost before = closest_so_far;
            let ghost best = record;
            let at = meet(&self.sides[i]);
            let answer = self.sides[i].hit(&at, t_min, closest_so_far);
            if let Some(last_record) = answer {
                closest_so_far = last_record.t;
                record = Some(last_record);
            }
            proof {
                assert forall|out: Option<HitRecord>| #[trigger]
                    sides_outcome(self.sides@, *meet, i + 1, t_min, closest_so_far, record, out) implies sides_outcome(
                    self.sides@,
                    *meet,
                    0,
                    t_min,
                    t_max,
                    None,
                    out,
                ) by {
                    assert(call_ensures(*meet, (&self.sides@[i as int],), at));
                    assert(sides_outcome(self.sides@, *meet, i as int, t_min, before, best, out));
                }
            }
            i = i + 1;
        }
        proof {
            assert(sides_outcome(self.sides@, *meet, count as int, t_min, closest_so_far, record, record));
        }
        record
    }

    /// The box that spans the six sides.
    pub fn bounding_box(&self) -> (out: &BoundingBox)
        ensures
            *out == self.bounds,
    {
        &self.bounds
    }
}

/// The box that spans the first sides of a sequence does not depend on the
/// sides that follow them.
pub proof fn lemma_sides_hull_prefix(sides: Seq<Quad>, longer: Seq<Quad>, count: int)
    requires
        0 <= count <= sides.len() <= longer.len(),
        forall|k: int| 0 <= k < count ==> sides[k] == longer[k],
    ensures
        sides_hull(sides, count) == sides_hull(longer, count),
    decreases count,
{
    if count > 0 {
        lemma_sides_hull_prefix(sides, longer, count - 1);
    }
}

} // verus!

//! Axis-aligned bounding boxes and the slab test's interval logic.

use vstd::prelude::*;
use crate::scalar::{Scalar, INFINITY_KEY, NEG_INFINITY_KEY, less, less_eq, lesser, greater};
use crate::vec3::{Point3, Vec3};

verus! {

/// The key of the double 0.0001: an axis on which a box is shorter than this
/// is padded.
pub const PADDING_KEY: i64 = 0x3F1A_36E2_EB1C_432D;

/// A box between a lower and an upper corner.
#[derive(Clone, Copy, Debug, PartialEq, Eq, Structural)]
pub struct BoundingBox {
    pub lower: Point3,
    pub upper: Point3,
}

/// The part of a ray's parameter range that lies inside a box.
#[derive(Clone, Copy, Debug, PartialEq, Eq, Structural)]
pub struct IntersectionRecord {
    pub tmin: Scalar,
    pub tmax: Scalar,
}

/// The corner with every coordinate at positive infinity.
pub open spec fn top_corner() -> Point3 {
    let inf = Scalar { key: INFINITY_KEY };
    Point3 { data: Vec3 { x: inf, y: inf, z: inf } }
}

/// The corner with every coordinate at negative infinity.
pub open spec fn bottom_corner() -> Point3 {
    let inf = Scalar { key: NEG_INFINITY_KEY };
    Point3 { data: Vec3 { x: inf, y: inf, z: inf } }
}

/// The box that spans two boxes: the smaller lower and the larger upper
/// coordinate on every axis.
pub open spec fn merged(a: BoundingBox, b: BoundingBox) -> BoundingBox {
    BoundingBox {
        lower: Point3 {
            data: Vec3 {
                x: lesser(a.lower.data.x, b.lower.data.x),
                y: lesser(a.lower.data.y, b.lower.data.y),
                z: lesser(a.lower.data.z, b.lower.data.z),
            },
        },
        upper: Point3 {
            data: Vec3 {
                x: greater(a.upper.data.x, b.upper.data.x),
                y: greater(a.upper.data.y, b.upper.data.y),
                z: greater(a.upper.data.z, b.upper.data.z),
            },
        },
    }
}

/// The hull of two points: on every axis the smaller coordinate is the lower
/// and the larger the upper.
pub open spec fn hull_of(a: Point3, b: Point3) -> BoundingBox {
    BoundingBox {
        lower: Point3 {
            data: Vec3 { x: lesser(a.data.x, b.data.x), y: lesser(a.data.y, b.data.y), z: lesser(a.data.z, b.data.z) },
        },
        upper: Point3 {
            data: Vec3 {
                x: greater(a.data.x, b.data.x),
                y: greater(a.data.y, b.data.y),
                z: greater(a.data.z, b.data.z),
            },
        },
    }
}

/// The lower and upper coordinate of one axis after padding. An axis that
/// `length` measures at less than the padding is thin: its coordinates are
/// what `widen` gave for them. The coordinates of any other axis stay.
pub open spec fn padded_axis<F: Fn(&BoundingBox, usize) -> Scalar, W: Fn(Scalar, Scalar) -> (Scalar, Scalar)>(
    raw: BoundingBox,
    length: F,
    widen: W,
    axis: int,
    lo: Scalar,
    hi: Scalar,
) -> bool {
    exists|extent: Scalar| #[trigger]
        call_ensures(length, (&raw, axis as usize), extent) && (if less(extent, Scalar { key: PADDING_KEY }) {
            call_ensures(widen, (raw.lower.axis(axis), raw.upper.axis(axis)), (lo, hi))
        } else {
            lo == raw.lower.axis(axis) && hi == raw.upper.axis(axis)
        })
}

/// `out` is the box `raw` with every thin axis padded.
pub open spec fn padded<F: Fn(&BoundingBox, usize) -> Scalar, W: Fn(Scalar, Scalar) -> (Scalar, Scalar)>(
    raw: BoundingBox,
    length: F,
    widen: W,
    out: BoundingBox,
) -> bool {
    forall|axis: int|
        0 <= axis < 3 ==> padded_axis(raw, length, widen, axis, #[trigger] out.lower.axis(axis), out.upper.axis(axis))
}

/// The smallest box that holds the first `count` of the points, grown point
/// by point from the box that holds nothing.
pub open spec fn enclosing(points: Seq<Point3>, count: int) -> BoundingBox
    decreases count,
{
    if count <= 0 {
        BoundingBox { lower: top_corner(), upper: bottom_corner() }
    } else {
        merged(enclosing(points, count - 1), BoundingBox { lower: points[count - 1], upper: points[count - 1] })
    }
}

/// `out` is the box turned about an axis: the smallest box that holds the
/// eight corners, each moved by `turn`.
pub open spec fn turned<T: Fn(Point3) -> Point3>(bounds: BoundingBox, turn: T, out: BoundingBox) -> bool {
    exists|moved: Seq<Point3>| #[trigger]
        moved.len() == 8 && (forall|which: int|
            0 <= which < 8 ==> call_ensures(turn, (bounds.corner(which),), #[trigger] moved[which])) && out
            == enclosing(moved, 8)
}

/// The first axis whose length no other axis exceeds.
pub open spec fn longest_of(lx: Scalar, ly: Scalar, lz: Scalar) -> int {
    if !less(lx, ly) && !less(lx, lz) {
        0
    } else if !less(ly, lz) && !less(ly, lx) {
        1
    } else if !less(lz, lx) && !less(lz, ly) {
        2
    } else {
        0
    }
}

/// `axis` is the longest axis of the box where `length` measures the axes: the
/// first whose length, as `length` gave it, no other exceeds.
pub open spec fn longest_by<F: Fn(&BoundingBox, usize) -> Scalar>(bounds: BoundingBox, length: F, axis: usize) -> bool {
    exists|lx: Scalar, ly: Scalar, lz: Scalar|
        call_ensures(length, (&bounds, 0usize), lx) && call_ensures(length, (&bounds, 1usize), ly) && call_ensures(
            length,
            (&bounds, 2usize),
            lz,
        ) && axis == longest_of(lx, ly, lz)
}

/// One axis of the slab test: the interval `lo..hi` cut down to where it
/// overlaps the span between the crossings `t0` and `t1`, whichever of the two
/// comes first.
pub open spec fn narrowed(lo: Scalar, hi: Scalar, t0: Scalar, t1: Scalar) -> (Scalar, Scalar) {
    if less(t0, t1) {
        (if less(lo, t0) { t0 } else { lo }, if less(t1, hi) { t1 } else { hi })
    } else {
        (if less(lo, t1) { t1 } else { lo }, if less(t0, hi) { t0 } else { hi })
    }
}

/// The slab test from the given axis on, as a relation between the interval
/// that enters and the answer: each axis takes its two crossings from
/// `crossing`, narrows the interval by them, and ends the test with no
/// intersection as soon as the interval is empty; past the last axis the
/// answer is the interval that is left.
pub open spec fn slab_outcome<F: Fn(&BoundingBox, usize) -> (Scalar, Scalar)>(
    bounds: BoundingBox,
    crossing: F,
    axis: int,
    lo: Scalar,
    hi: Scalar,
    out: Option<IntersectionRecord>,
) -> bool
    decreases 3 - axis,
{
    if axis < 0 || axis >= 3 {
        out == Some(IntersectionRecord { tmin: lo, tmax: hi })
    } else {
        exists|t: (Scalar, Scalar)|
            #[trigger] call_ensures(crossing, (&bounds, axis as usize), t) && ({
                let next = narrowed(lo, hi, t.0, t.1);
                if less_eq(next.1, next.0) {
                    out is None
                } else {
                    slab_outcome(bounds, crossing, axis + 1, next.0, next.1, out)
                }
            })
    }
}

impl BoundingBox {
    /// The point lies in the box on every axis.
    pub open spec fn contains(self, p: Point3) -> bool {
        forall|axis: int|
            0 <= axis < 3 ==> less_eq(#[trigger] self.lower.axis(axis), p.axis(axis)) && less_eq(
                p.axis(axis),
                self.upper.axis(axis),
            )
    }

    /// One of the eight corners: bit `axis` of `which` picks the upper
    /// coordinate on that axis.
    pub open spec fn corner(self, which: int) -> Point3 {
        Point3 {
            data: Vec3 {
                x: if which % 2 == 1 { self.upper.data.x } else { self.lower.data.x },
                y: if (which / 2) % 2 == 1 { self.upper.data.y } else { self.lower.data.y },
                z: if (which / 4) % 2 == 1 { self.upper.data.z } else { self.lower.data.z },
            },
        }
    }

    /// Every coordinate is a number and no lower coordinate exceeds its upper.
    pub open spec fn ordered(self) -> bool {
        forall|axis: int| 0 <= axis < 3 ==> less_eq(#[trigger] self.lower.axis(axis), self.upper.axis(axis))
    }

    /// Every coordinate is a number, the infinities included.
    pub open spec fn numeric(self) -> bool {
        forall|axis: int|
            0 <= axis < 3 ==> (#[trigger] self.lower.axis(axis)).is_number() && self.upper.axis(
                axis,
            ).is_number()
    }

    /// The hull of two points: on every axis the smaller coordinate is the
    /// lower and the larger the upper.
    pub fn span(a: Point3, b: Point3) -> (out: BoundingBox)
        ensures
            out == hull_of(a, b),
    {
        let lower = a.most_minimum(b);
        let upper = a.most_maximum(b);
        proof {
            assert(lower.axis(0) == lesser(a.axis(0), b.axis(0)));
            assert(lower.axis(1) == lesser(a.axis(1), b.axis(1)));
            assert(lower.axis(2) == lesser(a.axis(2), b.axis(2)));
            assert(upper.axis(0) == greater(a.axis(0), b.axis(0)));
            assert(upper.axis(1) == greater(a.axis(1), b.axis(1)));
            assert(upper.axis(2) == greater(a.axis(2), b.axis(2)));
        }
        BoundingBox { lower, upper }
    }

    /// The coordinates of one axis, moved apart by `widen` where `length`
    /// measures the axis at less than the padding.
    fn pad_minimum<F: Fn(&BoundingBox, usize) -> Scalar, W: Fn(Scalar, Scalar) -> (Scalar, Scalar)>(
        &self,
        axis: usize,
        length: &F,
        widen: &W,
    ) -> (out: (Scalar, Scalar))
        requires
            axis < 3,
            forall|b: &BoundingBox, a: usize| a < 3 ==> call_requires(length, (b, a)),
            forall|lo: Scalar, hi: Scalar| call_requires(widen, (lo, hi)),
        ensures
            padded_axis(*self, *length, *widen, axis as int, out.0, out.1),
    {
        let extent = length(self, axis);
        if extent.lt(Scalar { key: PADDING_KEY }) {
            widen(self.lower.offset(axis), self.upper.offset(axis))
        } else {
            (self.lower.offset(axis), self.upper.offset(axis))
        }
    }

    /// The box between two points: their hull, with every axis padded that
    /// is shorter than the padding, so that no box is flat. `length` measures
    /// a box along an axis; `widen` takes the lower and the upper coordinate
    /// of a thin axis and gives them back moved apart.
    pub fn new<F: Fn(&BoundingBox, usize) -> Scalar, W: Fn(Scalar, Scalar) -> (Scalar, Scalar)>(
        a: Point3,
        b: Point3,
        length: &F,
        widen: &W,
    ) -> (out: BoundingBox)
        requires
            forall|b: &BoundingBox, a: usize| a < 3 ==> call_requires(length, (b, a)),
            forall|lo: Scalar, hi: Scalar| call_requires(widen, (lo, hi)),
        ensures
            padded(hull_of(a, b), *length, *widen, out),
    {
        let raw = BoundingBox::span(a, b);
        let x = raw.pad_minimum(0, length, widen);
        let y = raw.pad_minimum(1, length, widen);
        let z = raw.pad_minimum(2, length, widen);
        let out = BoundingBox { lower: Point3::new(x.0, y.0, z.0), upper: Point3::new(x.1, y.1, z.1) };
        proof {
            assert(padded_axis(raw, *length, *widen, 0, out.lower.axis(0), out.upper.axis(0)));
            assert(padded_axis(raw, *length, *widen, 1, out.lower.axis(1), out.upper.axis(1)));
            assert(padded_axis(raw, *length, *widen, 2, out.lower.axis(2), out.upper.axis(2)));
        }
        out
    }

    /// One of the eight corners of the box.
    pub fn corner_at(&self, which: usize) -> (p: Point3)
        requires
            which < 8,
        ensures
            p == self.corner(which as int),
    {
        let x = if which % 2 == 1 {
            self.upper.data.x
        } else {
            self.lower.data.x
        };
        let y = if (which / 2) % 2 == 1 {
            self.upper.data.y
        } else {
            self.lower.data.y
        };
        let z = if (which / 4) % 2 == 1 {
            self.upper.data.z
        } else {
            self.lower.data.z
        };
        Point3::new(x, y, z)
    }

    /// The box that bounds this box after a rotation: `turn` rotates a point,
    /// and the answer is the smallest box that holds the eight rotated
    /// corners. A rotated box is not aligned with the axes any more, so the
    /// answer bounds it without being tight.
    pub fn rotate_y<T: Fn(Point3) -> Point3>(&self, turn: &T) -> (out: BoundingBox)
        requires
            forall|p: Point3| call_requires(turn, (p,)),
        ensures
            turned(*self, *turn, out),
    {
        let mut out = BoundingBox::empty();
        let ghost mut moved: Seq<Point3> = Seq::empty();
        let mut which: usize = 0;
        while which < 8
            invariant
                which <= 8,
                moved.len() == which,
                forall|p: Point3| call_requires(turn, (p,)),
                forall|k: int| 0 <= k < which ==> call_ensures(*turn, (self.corner(k),), #[trigger] moved[k]),
                out == enclosing(moved, which as int),
            decreases 8 - which,
        {
            let corner = self.corner_at(which);
            let p = turn(corner);
            let ghost before = moved;
            proof {
                moved = moved.push(p);
                lemma_enclosing_prefix(before, moved, which as int);
            }
            out = BoundingBox::box_between(&out, &BoundingBox { lower: p, upper: p });
            which = which + 1;
        }
        out
    }

    /// The box that holds nothing: merging it with a box gives that box.
    pub fn empty() -> (out: BoundingBox)
        ensures
            out.lower == top_corner(),
            out.upper == bottom_corner(),
    {
        BoundingBox {
            lower: Point3::new(Scalar::infinity(), Scalar::infinity(), Scalar::infinity()),
            upper: Point3::new(Scalar::neg_infinity(), Scalar::neg_infinity(), Scalar::neg_infinity()),
        }
    }

    /// The box that spans both boxes.
    pub fn box_between(a: &BoundingBox, b: &BoundingBox) -> (out: BoundingBox)
        ensures
            out == merged(*a, *b),
    {
        let lower = a.lower.most_minimum(b.lower);
        let upper = a.upper.most_maximum(b.upper);
        proof {
            assert(lower.axis(0) == lesser(a.lower.axis(0), b.lower.axis(0)));
            assert(lower.axis(1) == lesser(a.lower.axis(1), b.lower.axis(1)));
            assert(lower.axis(2) == lesser(a.lower.axis(2), b.lower.axis(2)));
            assert(upper.axis(0) == greater(a.upper.axis(0), b.upper.axis(0)));
            assert(upper.axis(1) == greater(a.upper.axis(1), b.upper.axis(1)));
            assert(upper.axis(2) == greater(a.upper.axis(2), b.upper.axis(2)));
        }
        BoundingBox { lower, upper }
    }

    /// The first axis whose length no other axis exceeds, among three lengths
    /// given in axis order.
    pub fn longest_among(lx: Scalar, ly: Scalar, lz: Scalar) -> (axis: usize)
        ensures
            axis == longest_of(lx, ly, lz),
            axis < 3,
    {
        if !lx.lt(ly) && !lx.lt(lz) {
            0
        } else if !ly.lt(lz) && !ly.lt(lx) {
            1
        } else if !lz.lt(lx) && !lz.lt(ly) {
            2
        } else {
            0
        }
    }

    /// The longest axis of the box, each axis measured by `length`.
    pub fn longest_axis<F: Fn(&BoundingBox, usize) -> Scalar>(&self, length: &F) -> (axis: usize)
        requires
            forall|b: &BoundingBox, a: usize| a < 3 ==> call_requires(length, (b, a)),
        ensures
            axis < 3,
            longest_by(*self, *length, axis),
    {
        let lx = length(self, 0);
        let ly = length(self, 1);
        let lz = length(self, 2);
        let axis = BoundingBox::longest_among(lx, ly, lz);
        proof {
            assert(call_ensures(*length, (self, 0usize), lx) && call_ensures(*length, (self, 1usize), ly)
                && call_ensures(*length, (self, 2usize), lz) && axis == longest_of(lx, ly, lz));
        }
        axis
    }

    /// One axis of the slab test: the interval narrowed by the two crossings,
    /// or nothing where that leaves it empty.
    pub fn narrow(lo: Scalar, hi: Scalar, t0: Scalar, t1: Scalar) -> (out: Option<IntersectionRecord>)
        ensures
            out == (if less_eq(narrowed(lo, hi, t0, t1).1, narrowed(lo, hi, t0, t1).0) {
                None
            } else {
                Some(IntersectionRecord { tmin: narrowed(lo, hi, t0, t1).0, tmax: narrowed(lo, hi, t0, t1).1 })
            }),
    {
        let mut tmin = lo;
        let mut tmax = hi;
        if t0.lt(t1) {
            if lo.lt(t0) {
                tmin = t0;
            }
            if t1.lt(hi) {
                tmax = t1;
            }
        } else {
            if lo.lt(t1) {
                tmin = t1;
            }
            if t0.lt(hi) {
                tmax = t0;
            }
        }
        if tmax.le(tmin) {
            None
        } else {
            Some(IntersectionRecord { tmin, tmax })
        }
    }

    fn intersects_from<F: Fn(&BoundingBox, usize) -> (Scalar, Scalar)>(
        &self,
        crossing: &F,
        axis: usize,
        lo: Scalar,
        hi: Scalar,
    ) -> (out: Option<IntersectionRecord>)
        requires
            axis <= 3,
            forall|b: &BoundingBox, a: usize| a < 3 ==> call_requires(crossing, (b, a)),
        ensures
            slab_outcome(*self, *crossing, axis as int, lo, hi, out),
        decreases 3 - axis,
    {
        if axis >= 3 {
            return Some(IntersectionRecord { tmin: lo, tmax: hi });
        }
        let t = crossing(self, axis);
        match BoundingBox::narrow(lo, hi, t.0, t.1) {
            None => None,
            Some(next) => self.intersects_from(crossing, axis + 1, next.tmin, next.tmax),
        }
    }

    /// The slab test: the part of `t_min..t_max` in which the ray is inside
    /// the box, or nothing where there is none. `crossing` gives, for an axis,
    /// the ray's parameters at the box's two planes across that axis.
    pub fn intersects<F: Fn(&BoundingBox, usize) -> (Scalar, Scalar)>(
        &self,
        crossing: &F,
        t_min: Scalar,
        t_max: Scalar,
    ) -> (out: Option<IntersectionRecord>)
        requires
            forall|b: &BoundingBox, a: usize| a < 3 ==> call_requires(crossing, (b, a)),
        ensures
            slab_outcome(*self, *crossing, 0, t_min, t_max, out),
            out is Some ==> within(t_min, t_max, out->Some_0),
    {
        let out = self.intersects_from(crossing, 0, t_min, t_max);
        proof {
            lemma_slab_within(*self, *crossing, 0, t_min, t_max, out);
        }
        out
    }
}

/// An interval that a slab test may answer with for the range `t_min..t_max`:
/// it lies in that range, and it is not empty where the range's ends are
/// numbers.
pub open spec fn within(t_min: Scalar, t_max: Scalar, r: IntersectionRecord) -> bool {
    &&& t_min.key <= r.tmin.key
    &&& r.tmax.key <= t_max.key
    &&& !less_eq(r.tmax, r.tmin)
    &&& t_min.is_number() && t_max.is_number() ==> less(r.tmin, r.tmax)
}

/// A slab test that finds an intersection answers with an interval inside the
/// range it was given, with its lower end below its upper end.
pub proof fn lemma_slab_within<F: Fn(&BoundingBox, usize) -> (Scalar, Scalar)>(
    bounds: BoundingBox,
    crossing: F,
    axis: int,
    lo: Scalar,
    hi: Scalar,
    out: Option<IntersectionRecord>,
)
    requires
        slab_outcome(bounds, crossing, axis, lo, hi, out),
        0 <= axis < 3,
    ensures
        out is Some ==> within(lo, hi, out->Some_0),
    decreases 3 - axis,
{
    let t = choose|t: (Scalar, Scalar)|
        #[trigger] call_ensures(crossing, (&bounds, axis as usize), t) && ({
            let next = narrowed(lo, hi, t.0, t.1);
            if less_eq(next.1, next.0) {
                out is None
            } else {
                slab_outcome(bounds, crossing, axis + 1, next.0, next.1, out)
            }
        });
    let next = narrowed(lo, hi, t.0, t.1);
    if !less_eq(next.1, next.0) && axis + 1 < 3 {
        lemma_slab_within(bounds, crossing, axis + 1, next.0, next.1, out);
    }
}

/// A ray that has left the box's slab on one axis before the range begins
/// meets no part of the box: where both crossings on some axis are numbers at
/// or below `t_min`, the slab test finds no intersection.
pub proof fn lemma_slab_misses_behind<F: Fn(&BoundingBox, usize) -> (Scalar, Scalar)>(
    bounds: BoundingBox,
    crossing: F,
    behind: int,
    t_min: Scalar,
    t_max: Scalar,
    out: Option<IntersectionRecord>,
)
    requires
        slab_outcome(bounds, crossing, 0, t_min, t_max, out),
        t_min.is_number(),
        t_max.is_number(),
        0 <= behind < 3,
        forall|t: (Scalar, Scalar)| #[trigger]
            call_ensures(crossing, (&bounds, behind as usize), t) ==> less_eq(t.0, t_min) && less_eq(t.1, t_min),
    ensures
        out is None,
{
    lemma_slab_misses_from(bounds, crossing, behind, 0, t_min, t_min, t_max, out);
}

proof fn lemma_slab_misses_from<F: Fn(&BoundingBox, usize) -> (Scalar, Scalar)>(
    bounds: BoundingBox,
    crossing: F,
    behind: int,
    axis: int,
    floor: Scalar,
    lo: Scalar,
    hi: Scalar,
    out: Option<IntersectionRecord>,
)
    requires
        slab_outcome(bounds, crossing, axis, lo, hi, out),
        floor.is_number(),
        lo.is_number(),
        hi.is_number(),
        floor.key <= lo.key,
        0 <= axis <= behind < 3,
        forall|t: (Scalar, Scalar)| #[trigger]
            call_ensures(crossing, (&bounds, behind as usize), t) ==> less_eq(t.0, floor) && less_eq(t.1, floor),
    ensures
        out is None,
    decreases 3 - axis,
{
    let t = choose|t: (Scalar, Scalar)|
        #[trigger] call_ensures(crossing, (&bounds, axis as usize), t) && ({
            let next = narrowed(lo, hi, t.0, t.1);
            if less_eq(next.1, next.0) {
                out is None
            } else {
                slab_outcome(bounds, crossing, axis + 1, next.0, next.1, out)
            }
        });
    let next = narrowed(lo, hi, t.0, t.1);
    if axis < behind && !less_eq(next.1, next.0) {
        lemma_slab_misses_from(bounds, crossing, behind, axis + 1, floor, next.0, next.1, out);
    }
}

/// The box around the first points of a sequence does not depend on the
/// points that follow them.
pub proof fn lemma_enclosing_prefix(points: Seq<Point3>, longer: Seq<Point3>, count: int)
    requires
        0 <= count <= points.len() <= longer.len(),
        forall|k: int| 0 <= k < count ==> points[k] == longer[k],
    ensures
        enclosing(points, count) == enclosing(longer, count),
    decreases count,
{
    if count > 0 {
        lemma_enclosing_prefix(points, longer, count - 1);
    }
}

/// The box around points whose coordinates are numbers holds each of them:
/// the box that bounds a rotated box holds every rotated corner.
pub proof fn lemma_enclosing_contains(points: Seq<Point3>, count: int, which: int)
    requires
        0 <= which < count <= points.len(),
        forall|k: int|
            0 <= k < count ==> (#[trigger] points[k]).data.x.is_number() && points[k].data.y.is_number()
                && points[k].data.z.is_number(),
    ensures
        enclosing(points, count).contains(points[which]),
        enclosing(points, count).numeric(),
    decreases count,
{
    let last = points[count - 1];
    let rest = enclosing(points, count - 1);
    let all = enclosing(points, count);
    assert(last.data.x.is_number() && last.data.y.is_number() && last.data.z.is_number());
    if count > 1 {
        let other = if which == count - 1 { 0 } else { which };
        lemma_enclosing_contains(points, count - 1, other);
        assert(rest.numeric());
        assert(rest.lower.axis(0).is_number() && rest.upper.axis(0).is_number());
        assert(rest.lower.axis(1).is_number() && rest.upper.axis(1).is_number());
        assert(rest.lower.axis(2).is_number() && rest.upper.axis(2).is_number());
    } else {
        assert(rest == BoundingBox { lower: top_corner(), upper: bottom_corner() });
    }
    assert forall|axis: int| 0 <= axis < 3 implies (#[trigger] all.lower.axis(axis)).is_number() && all.upper.axis(
        axis,
    ).is_number() by {}
    if which == count - 1 {
        assert forall|axis: int| 0 <= axis < 3 implies less_eq(#[trigger] all.lower.axis(axis), last.axis(axis))
            && less_eq(last.axis(axis), all.upper.axis(axis)) by {}
    } else {
        let inner = points[which];
        assert(rest.contains(inner));
        assert forall|axis: int| 0 <= axis < 3 implies less_eq(#[trigger] all.lower.axis(axis), inner.axis(axis))
            && less_eq(inner.axis(axis), all.upper.axis(axis)) by {
            assert(less_eq(rest.lower.axis(axis), inner.axis(axis)));
            assert(less_eq(inner.axis(axis), rest.upper.axis(axis)));
        }
    }
}

/// The hull of two points whose coordinates are numbers has no lower
/// coordinate above its upper, and holds both points.
pub proof fn lemma_hull_ordered(a: Point3, b: Point3)
    requires
        forall|axis: int| 0 <= axis < 3 ==> (#[trigger] a.axis(axis)).is_number() && b.axis(axis).is_number(),
    ensures
        hull_of(a, b).ordered(),
        hull_of(a, b).contains(a),
        hull_of(a, b).contains(b),
{
    let h = hull_of(a, b);
    assert(a.axis(0).is_number() && b.axis(0).is_number());
    assert(a.axis(1).is_number() && b.axis(1).is_number());
    assert(a.axis(2).is_number() && b.axis(2).is_number());
    assert forall|axis: int| 0 <= axis < 3 implies less_eq(#[trigger] h.lower.axis(axis), h.upper.axis(axis)) by {}
    assert forall|axis: int| 0 <= axis < 3 implies less_eq(#[trigger] h.lower.axis(axis), a.axis(axis)) && less_eq(
        a.axis(axis),
        h.upper.axis(axis),
    ) by {}
    assert forall|axis: int| 0 <= axis < 3 implies less_eq(#[trigger] h.lower.axis(axis), b.axis(axis)) && less_eq(
        b.axis(axis),
        h.upper.axis(axis),
    ) by {}
}

/// The box between two points has no lower coordinate above its upper, and
/// holds both points, where the points' coordinates are numbers and the
/// padding moves no lower coordinate up and no upper coordinate down.
pub proof fn lemma_new_ordered<F: Fn(&BoundingBox, usize) -> Scalar, W: Fn(Scalar, Scalar) -> (Scalar, Scalar)>(
    a: Point3,
    b: Point3,
    length: F,
    widen: W,
    out: BoundingBox,
)
    requires
        padded(hull_of(a, b), length, widen, out),
        forall|axis: int| 0 <= axis < 3 ==> (#[trigger] a.axis(axis)).is_number() && b.axis(axis).is_number(),
        forall|lo: Scalar, hi: Scalar, wide: (Scalar, Scalar)| #[trigger]
            call_ensures(widen, (lo, hi), wide) && less_eq(lo, hi) ==> less_eq(wide.0, lo) && less_eq(hi, wide.1),
    ensures
        out.ordered(),
        out.contains(a),
        out.contains(b),
{
    let h = hull_of(a, b);
    lemma_hull_ordered(a, b);
    assert forall|axis: int| 0 <= axis < 3 implies less_eq(#[trigger] out.lower.axis(axis), h.lower.axis(axis))
        && less_eq(h.upper.axis(axis), out.upper.axis(axis)) by {
        assert(less_eq(h.lower.axis(axis), h.upper.axis(axis)));
        assert(padded_axis(h, length, widen, axis, out.lower.axis(axis), out.upper.axis(axis)));
    }
    assert forall|axis: int| 0 <= axis < 3 implies less_eq(#[trigger] out.lower.axis(axis), out.upper.axis(axis)) by {
        assert(less_eq(out.lower.axis(axis), h.lower.axis(axis)));
        assert(less_eq(h.lower.axis(axis), h.upper.axis(axis)));
    }
    assert forall|axis: int| 0 <= axis < 3 implies less_eq(#[trigger] out.lower.axis(axis), a.axis(axis)) && less_eq(
        a.axis(axis),
        out.upper.axis(axis),
    ) by {
        assert(less_eq(out.lower.axis(axis), h.lower.axis(axis)));
        assert(less_eq(h.lower.axis(axis), a.axis(axis)));
    }
    assert forall|axis: int| 0 <= axis < 3 implies less_eq(#[trigger] out.lower.axis(axis), b.axis(axis)) && less_eq(
        b.axis(axis),
        out.upper.axis(axis),
    ) by {
        assert(less_eq(out.lower.axis(axis), h.lower.axis(axis)));
        assert(less_eq(h.lower.axis(axis), b.axis(axis)));
    }
}

/// Merging two boxes gives a box that contains every corner of both, where the
/// coordinates of both are numbers and neither has a lower coordinate above
/// its upper.
pub proof fn lemma_merge_contains_corners(a: BoundingBox, b: BoundingBox, which: int)
    requires
        a.ordered(),
        b.ordered(),
        0 <= which < 8,
    ensures
        merged(a, b).contains(a.corner(which)),
        merged(a, b).contains(b.corner(which)),
{
    let m = merged(a, b);
    assert(less_eq(a.lower.axis(0), a.upper.axis(0)) && less_eq(b.lower.axis(0), b.upper.axis(0)));
    assert(less_eq(a.lower.axis(1), a.upper.axis(1)) && less_eq(b.lower.axis(1), b.upper.axis(1)));
    assert(less_eq(a.lower.axis(2), a.upper.axis(2)) && less_eq(b.lower.axis(2), b.upper.axis(2)));
    assert forall|axis: int| 0 <= axis < 3 implies less_eq(
        #[trigger] m.lower.axis(axis),
        a.corner(which).axis(axis),
    ) && less_eq(a.corner(which).axis(axis), m.upper.axis(axis)) by {}
    assert forall|axis: int| 0 <= axis < 3 implies less_eq(
        #[trigger] m.lower.axis(axis),
        b.corner(which).axis(axis),
    ) && less_eq(b.corner(which).axis(axis), m.upper.axis(axis)) by {}
}

/// The box that holds nothing is the neutral element of merging, on either
/// side, for every box whose coordinates are numbers.
pub proof fn lemma_merge_empty(b: BoundingBox)
    requires
        b.numeric(),
    ensures
        merged(BoundingBox { lower: top_corner(), upper: bottom_corner() }, b) == b,
        merged(b, BoundingBox { lower: top_corner(), upper: bottom_corner() }) == b,
{
    assert(b.lower.axis(0).is_number() && b.upper.axis(0).is_number());
    assert(b.lower.axis(1).is_number() && b.upper.axis(1).is_number());
    assert(b.lower.axis(2).is_number() && b.upper.axis(2).is_number());
}

} // verus!

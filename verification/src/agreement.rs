//! When the tree and the flat list agree.
//!
//! The tree asks a shape with a narrower range than the list does, so the two
//! can only agree for shapes whose answers do not depend on the range beyond
//! what a range must do, and for boxes that never cut a hit off. This module
//! states both conditions and proves that under them tree and list find a hit
//! for the same rays, at the same parameter.

use vstd::prelude::*;
use crate::bounding::{BoundingBox, IntersectionRecord, slab_outcome, lemma_slab_within};
use crate::bvh::{BvhSlab, Shape, hull, laid_out, traversal};
use crate::hittable::{HitRecord, nearer, scan_outcome};
use crate::scalar::{Scalar, less, less_eq};

verus! {

/// The parameter of an answer.
pub open spec fn time_of(hit: Option<HitRecord>) -> Option<Scalar> {
    match hit {
        Some(h) => Some(h.t),
        None => None,
    }
}

/// The smaller of two parameters, either of which may be missing.
pub open spec fn earlier(a: Option<Scalar>, b: Option<Scalar>) -> Option<Scalar> {
    match (a, b) {
        (Some(x), Some(y)) => if y.key < x.key {
            Some(y)
        } else {
            Some(x)
        },
        (Some(x), None) => Some(x),
        (None, y) => y,
    }
}

/// The least parameter among the first hits of `count` shapes from place
/// `first` on.
pub open spec fn least(firsts: Seq<Option<HitRecord>>, first: int, count: int) -> Option<Scalar>
    decreases count,
{
    if count <= 0 {
        None
    } else {
        earlier(time_of(firsts[first]), least(firsts, first + 1, count - 1))
    }
}

/// What a shape with the given first hit answers to the range `lo..hi`: the
/// first hit where the range holds it, and nothing where the range ends at
/// or before it, or where there is no first hit.
pub open spec fn answers_as(first: Option<HitRecord>, lo: Scalar, hi: Scalar, out: Option<HitRecord>) -> bool {
    match first {
        None => out is None,
        Some(h) => (less(lo, h.t) && less(h.t, hi) ==> out == Some(h)) && (less_eq(hi, h.t) ==> out is None),
    }
}

/// The shape with handle `id` answers every range within `t_min..t_max` by
/// its first hit in `t_min..t_max`, which lies strictly inside that range.
pub open spec fn faithful<G: Fn(usize, Scalar, Scalar) -> Option<HitRecord>>(
    strike: G,
    id: usize,
    t_min: Scalar,
    t_max: Scalar,
    first: Option<HitRecord>,
) -> bool {
    &&& first is Some ==> less(t_min, first->Some_0.t) && less(first->Some_0.t, t_max)
    &&& forall|lo: Scalar, hi: Scalar, out: Option<HitRecord>| #[trigger]
        call_ensures(strike, (id, lo, hi), out) && lo.is_number() && hi.is_number() && t_min.key <= lo.key && hi.key
            <= t_max.key ==> answers_as(first, lo, hi, out)
}

/// The box cuts off no hit at parameter `t`: the slab test of every range
/// within `t_min..t_max` that holds `t` strictly finds an interval that holds
/// `t` strictly.
pub open spec fn conservative<F: Fn(&BoundingBox, usize) -> (Scalar, Scalar)>(
    crossing: F,
    bounds: BoundingBox,
    t: Scalar,
    t_min: Scalar,
    t_max: Scalar,
) -> bool {
    forall|lo: Scalar, hi: Scalar, clip: Option<IntersectionRecord>| #[trigger]
        slab_outcome(bounds, crossing, 0, lo, hi, clip) && lo.is_number() && hi.is_number() && t_min.key <= lo.key
            && hi.key <= t_max.key && less(lo, t) && less(t, hi) ==> clip is Some && less(clip->Some_0.tmin, t)
            && less(t, clip->Some_0.tmax)
}

/// Every box of the tree over the `count` shapes from place `first` on cuts
/// off none of the first hits of the shapes beneath it.
pub open spec fn guarded<F: Fn(&BoundingBox, usize) -> (Scalar, Scalar)>(
    objects: Seq<Shape>,
    first: int,
    count: int,
    firsts: Seq<Option<HitRecord>>,
    crossing: F,
    t_min: Scalar,
    t_max: Scalar,
) -> bool
    decreases count,
{
    if count <= 1 {
        true
    } else {
        let half = count / 2;
        &&& forall|k: int|
            first <= k < first + count && (#[trigger] firsts[k]) is Some ==> conservative(
                crossing,
                hull(objects, first, count),
                firsts[k]->Some_0.t,
                t_min,
                t_max,
            )
        &&& guarded(objects, first, half, firsts, crossing, t_min, t_max)
        &&& guarded(objects, first + half, count - half, firsts, crossing, t_min, t_max)
    }
}

/// The answer, where there is one, is the first hit of one of the `count`
/// shapes from place `first` on.
pub open spec fn among(firsts: Seq<Option<HitRecord>>, first: int, count: int, out: Option<HitRecord>) -> bool {
    out is Some ==> exists|k: int| first <= k < first + count && #[trigger] firsts[k] == out
}

/// No two shapes have their first hit at the same parameter.
pub open spec fn distinct(firsts: Seq<Option<HitRecord>>) -> bool {
    forall|j: int, k: int|
        0 <= j < firsts.len() && 0 <= k < firsts.len() && j != k && (#[trigger] firsts[j]) is Some && (
        #[trigger] firsts[k]) is Some ==> firsts[j]->Some_0.t != firsts[k]->Some_0.t
}

/// Taking the smaller of parameters does not depend on how they are grouped.
pub proof fn lemma_earlier_associative(a: Option<Scalar>, b: Option<Scalar>, c: Option<Scalar>)
    ensures
        earlier(earlier(a, b), c) == earlier(a, earlier(b, c)),
{
}

/// The least parameter of a run of shapes is the smaller of the least
/// parameters of its two parts.
pub proof fn lemma_least_split(firsts: Seq<Option<HitRecord>>, first: int, count: int, part: int)
    requires
        0 <= part <= count,
        0 <= first,
        first + count <= firsts.len(),
    ensures
        least(firsts, first, count) == earlier(least(firsts, first, part), least(firsts, first + part, count - part)),
    decreases part,
{
    if part > 0 {
        lemma_least_split(firsts, first + 1, count - 1, part - 1);
        lemma_earlier_associative(
            time_of(firsts[first]),
            least(firsts, first + 1, part - 1),
            least(firsts, first + part, count - part),
        );
    }
}

/// A run of shapes without a first hit has no least parameter.
pub proof fn lemma_least_of_none(firsts: Seq<Option<HitRecord>>, first: int, count: int)
    requires
        0 <= first,
        first + count <= firsts.len(),
        forall|k: int| first <= k < first + count ==> (#[trigger] firsts[k]) is None,
    ensures
        least(firsts, first, count) is None,
    decreases count,
{
    if count > 0 {
        assert(firsts[first] is None);
        lemma_least_of_none(firsts, first + 1, count - 1);
    }
}

/// The flat list finds the least of the shapes' first hits: where every shape
/// is faithful, the parameter of the list's answer is the least parameter
/// among the first hits, and there is no answer where there is no first hit.
pub proof fn lemma_list_finds_least<G: Fn(usize, Scalar, Scalar) -> Option<HitRecord>>(
    strike: G,
    count: int,
    t_min: Scalar,
    t_max: Scalar,
    firsts: Seq<Option<HitRecord>>,
    out: Option<HitRecord>,
)
    requires
        scan_outcome(strike, 0, count, t_min, t_max, None, out),
        0 <= count <= usize::MAX,
        firsts.len() == count,
        t_min.is_number(),
        t_max.is_number(),
        forall|i: int| 0 <= i < count ==> faithful(strike, i as usize, t_min, t_max, #[trigger] firsts[i]),
    ensures
        time_of(out) == least(firsts, 0, count),
        among(firsts, 0, count, out),
{
    lemma_scan_finds_least(strike, 0, count, t_min, t_max, t_max, None, firsts, out);
}

proof fn lemma_scan_finds_least<G: Fn(usize, Scalar, Scalar) -> Option<HitRecord>>(
    strike: G,
    next: int,
    count: int,
    t_min: Scalar,
    t_max: Scalar,
    closest: Scalar,
    best: Option<HitRecord>,
    firsts: Seq<Option<HitRecord>>,
    out: Option<HitRecord>,
)
    requires
        scan_outcome(strike, next, count, t_min, closest, best, out),
        0 <= next <= count <= usize::MAX,
        firsts.len() == count,
        t_min.is_number(),
        t_max.is_number(),
        best is None ==> closest == t_max,
        best is Some ==> closest == best->Some_0.t && less(t_min, closest) && less(closest, t_max),
        forall|i: int| next <= i < count ==> faithful(strike, i as usize, t_min, t_max, #[trigger] firsts[i]),
    ensures
        time_of(out) == earlier(time_of(best), least(firsts, next, count - next)),
        out == best || among(firsts, next, count - next, out),
    decreases count - next,
{
    if next < count {
        let answer = choose|answer: Option<HitRecord>|
            #[trigger] call_ensures(strike, (next as usize, t_min, closest), answer) && (match answer {
                Some(hit) => scan_outcome(strike, next + 1, count, t_min, hit.t, Some(hit), out),
                None => scan_outcome(strike, next + 1, count, t_min, closest, best, out),
            });
        assert(faithful(strike, next as usize, t_min, t_max, firsts[next]));
        assert(answers_as(firsts[next], t_min, closest, answer));
        match answer {
            Some(hit) => {
                lemma_scan_finds_least(strike, next + 1, count, t_min, t_max, hit.t, Some(hit), firsts, out);
                assert(firsts[next] == answer);
            },
            None => {
                lemma_scan_finds_least(strike, next + 1, count, t_min, t_max, closest, best, firsts, out);
            },
        }
        lemma_earlier_associative(time_of(best), time_of(firsts[next]), least(firsts, next + 1, count - next - 1));
    }
}

/// The tree finds the least of the shapes' first hits: where every shape is
/// faithful and every box of the tree is conservative for the first hits
/// beneath it, the parameter of the tree's answer is the least parameter
/// among the first hits, and there is no answer where there is no first hit.
pub proof fn lemma_tree_finds_least<F: Fn(&BoundingBox, usize) -> (Scalar, Scalar), G: Fn(usize, Scalar, Scalar) -> Option<
    HitRecord,
>>(
    nodes: Seq<BvhSlab>,
    objects: Seq<Shape>,
    t_min: Scalar,
    t_max: Scalar,
    crossing: F,
    strike: G,
    firsts: Seq<Option<HitRecord>>,
    out: Option<HitRecord>,
)
    requires
        laid_out(nodes, 0, objects, 0, objects.len() as int),
        traversal(nodes, 0, t_min, t_max, objects, crossing, strike, out),
        objects.len() <= usize::MAX,
        nodes.len() <= usize::MAX,
        t_min.is_number(),
        t_max.is_number(),
        firsts.len() == objects.len(),
        forall|k: int| 0 <= k < objects.len() ==> faithful(strike, objects[k].id, t_min, t_max, #[trigger] firsts[k]),
        guarded(objects, 0, objects.len() as int, firsts, crossing, t_min, t_max),
    ensures
        time_of(out) == least(firsts, 0, objects.len() as int),
        among(firsts, 0, objects.len() as int, out),
{
    lemma_subtree_finds_least(
        nodes,
        0,
        objects,
        0,
        objects.len() as int,
        t_min,
        t_max,
        t_min,
        t_max,
        crossing,
        strike,
        firsts,
        out,
    );
}

proof fn lemma_subtree_finds_least<F: Fn(&BoundingBox, usize) -> (Scalar, Scalar), G: Fn(usize, Scalar, Scalar) -> Option<
    HitRecord,
>>(
    nodes: Seq<BvhSlab>,
    at: int,
    objects: Seq<Shape>,
    first: int,
    count: int,
    t_min: Scalar,
    t_max: Scalar,
    lo: Scalar,
    hi: Scalar,
    crossing: F,
    strike: G,
    firsts: Seq<Option<HitRecord>>,
    out: Option<HitRecord>,
)
    requires
        laid_out(nodes, at, objects, first, count),
        traversal(nodes, at, lo, hi, objects, crossing, strike, out),
        0 <= first,
        first + count <= objects.len() <= usize::MAX,
        nodes.len() <= usize::MAX,
        t_min.is_number(),
        t_max.is_number(),
        lo.is_number(),
        hi.is_number(),
        t_min.key <= lo.key,
        hi.key <= t_max.key,
        firsts.len() == objects.len(),
        forall|k: int|
            first <= k < first + count ==> faithful(strike, objects[k].id, t_min, t_max, #[trigger] firsts[k]),
        forall|k: int|
            first <= k < first + count && (#[trigger] firsts[k]) is Some ==> less(lo, firsts[k]->Some_0.t) && less(
                firsts[k]->Some_0.t,
                hi,
            ),
        guarded(objects, first, count, firsts, crossing, t_min, t_max),
    ensures
        time_of(out) == least(firsts, first, count),
        out is Some ==> out->Some_0.t.is_number(),
        among(firsts, first, count, out),
    decreases count,
{
    if count == 1 {
        assert(faithful(strike, objects[first].id, t_min, t_max, firsts[first]));
        assert(call_ensures(strike, (objects[first].id, lo, hi), out));
        assert(answers_as(firsts[first], lo, hi, out));
        assert(least(firsts, first + 1, 0) is None);
    } else {
        let half = count / 2;
        let bounds = hull(objects, first, count);
        let left_index = (at + 1) as usize;
        let right_index = (at + 2 * half) as usize;
        assert(nodes[at] == (BvhSlab::Node { parent_index: at as usize, bounds, left_index, right_index }));
        let clip = choose|clip: Option<IntersectionRecord>| #[trigger]
            slab_outcome(bounds, crossing, 0, lo, hi, clip) && (match clip {
                None => out is None,
                Some(range) => exists|left: Option<HitRecord>, right: Option<HitRecord>|
                    #![trigger nearer(left, right)]
                    at < left_index < nodes.len() && at < right_index < nodes.len() && traversal(
                        nodes,
                        left_index as int,
                        range.tmin,
                        range.tmax,
                        objects,
                        crossing,
                        strike,
                        left,
                    ) && traversal(nodes, right_index as int, range.tmin, range.tmax, objects, crossing, strike, right)
                        && out == nearer(left, right),
            });
        match clip {
            None => {
                assert forall|k: int| first <= k < first + count implies (#[trigger] firsts[k]) is None by {
                    if firsts[k] is Some {
                        assert(conservative(crossing, bounds, firsts[k]->Some_0.t, t_min, t_max));
                    }
                }
                lemma_least_of_none(firsts, first, count);
            },
            Some(range) => {
                lemma_slab_within(bounds, crossing, 0, lo, hi, clip);
                let (left, right) = choose|left: Option<HitRecord>, right: Option<HitRecord>|
                    #![trigger nearer(left, right)]
                    at < left_index < nodes.len() && at < right_index < nodes.len() && traversal(
                        nodes,
                        left_index as int,
                        range.tmin,
                        range.tmax,
                        objects,
                        crossing,
                        strike,
                        left,
                    ) && traversal(nodes, right_index as int, range.tmin, range.tmax, objects, crossing, strike, right)
                        && out == nearer(left, right);
                assert forall|k: int| first <= k < first + count && (#[trigger] firsts[k]) is Some implies less(
                    range.tmin,
                    firsts[k]->Some_0.t,
                ) && less(firsts[k]->Some_0.t, range.tmax) by {
                    assert(conservative(crossing, bounds, firsts[k]->Some_0.t, t_min, t_max));
                }
                lemma_subtree_finds_least(
                    nodes,
                    at + 1,
                    objects,
                    first,
                    half,
                    t_min,
                    t_max,
                    range.tmin,
                    range.tmax,
                    crossing,
                    strike,
                    firsts,
                    left,
                );
                lemma_subtree_finds_least(
                    nodes,
                    at + 2 * half,
                    objects,
                    first + half,
                    count - half,
                    t_min,
                    t_max,
                    range.tmin,
                    range.tmax,
                    crossing,
                    strike,
                    firsts,
                    right,
                );
                lemma_least_split(firsts, first, count, half);
            },
        }
    }
}

/// The tree and the flat list over the same shapes agree: under the
/// conditions above both find a hit or neither does, and the hits they find
/// have the same parameter; where no two shapes have their first hit at the
/// same parameter, they are the same hit. The list asks the shape at place
/// `k` where the tree asks the shape with the handle found at place `k`.
pub proof fn lemma_tree_matches_list<
    F: Fn(&BoundingBox, usize) -> (Scalar, Scalar),
    G: Fn(usize, Scalar, Scalar) -> Option<HitRecord>,
    H: Fn(usize, Scalar, Scalar) -> Option<HitRecord>,
>(
    nodes: Seq<BvhSlab>,
    objects: Seq<Shape>,
    t_min: Scalar,
    t_max: Scalar,
    crossing: F,
    by_handle: G,
    by_place: H,
    firsts: Seq<Option<HitRecord>>,
    from_tree: Option<HitRecord>,
    from_list: Option<HitRecord>,
)
    requires
        laid_out(nodes, 0, objects, 0, objects.len() as int),
        traversal(nodes, 0, t_min, t_max, objects, crossing, by_handle, from_tree),
        scan_outcome(by_place, 0, objects.len() as int, t_min, t_max, None, from_list),
        objects.len() <= usize::MAX,
        nodes.len() <= usize::MAX,
        t_min.is_number(),
        t_max.is_number(),
        firsts.len() == objects.len(),
        forall|k: int|
            0 <= k < objects.len() ==> faithful(by_handle, objects[k].id, t_min, t_max, #[trigger] firsts[k]),
        forall|k: int| 0 <= k < objects.len() ==> faithful(by_place, k as usize, t_min, t_max, #[trigger] firsts[k]),
        guarded(objects, 0, objects.len() as int, firsts, crossing, t_min, t_max),
    ensures
        time_of(from_tree) == time_of(from_list),
        distinct(firsts) ==> from_tree == from_list,
{
    lemma_tree_finds_least(nodes, objects, t_min, t_max, crossing, by_handle, firsts, from_tree);
    lemma_list_finds_least(by_place, objects.len() as int, t_min, t_max, firsts, from_list);
    if distinct(firsts) && from_tree is Some {
        let j = choose|j: int| 0 <= j < objects.len() && #[trigger] firsts[j] == from_tree;
        let k = choose|k: int| 0 <= k < objects.len() && #[trigger] firsts[k] == from_list;
        assert(firsts[j]->Some_0.t == firsts[k]->Some_0.t);
    }
}

} // verus!

//! The spatial tree: a binary tree over the shapes, stored in one array.
//!
//! A subtree over `k` shapes fills `2k - 1` consecutive slots: its root, then
//! the subtree over the first half of its shapes, then the subtree over the
//! rest. A node's children are found by these offsets alone.

use vstd::prelude::*;
use crate::bounding::{BoundingBox, IntersectionRecord, merged, slab_outcome, top_corner, bottom_corner, longest_by};
use crate::hittable::{HitRecord, nearer};
use crate::order::{is_stable_order, stable_order};
use crate::scalar::{Scalar, less_eq};
use crate::bounding::lemma_slab_within;

verus! {

/// A shape as the tree knows it: the handle under which its owner keeps it,
/// and its bounding box.
#[derive(Clone, Copy, Debug, PartialEq, Eq, Structural)]
pub struct Shape {
    pub id: usize,
    pub bounds: BoundingBox,
}

/// One slot of the tree's array.
#[derive(Clone, Copy, Debug, PartialEq, Eq, Structural)]
pub enum BvhSlab {
    /// A single shape, by its place in the tree's list of shapes.
    Leaf { parent_index: usize, shape_index: usize },
    /// Two subtrees and the box that spans their shapes.
    Node { parent_index: usize, bounds: BoundingBox, left_index: usize, right_index: usize },
}

/// Why a tree could not be built.
#[derive(Clone, Copy, Debug, PartialEq, Eq, Structural)]
pub enum BuildError {
    /// There is no shape to build over.
    Empty,
    /// A shape's length along the split axis is not a number, so the shapes
    /// cannot be put in order.
    Unordered,
}

/// Every child index of a node points further into the array, and every leaf
/// names a shape of the list.
pub open spec fn linked(nodes: Seq<BvhSlab>, shapes: int) -> bool {
    forall|i: int|
        0 <= i < nodes.len() ==> match #[trigger] nodes[i] {
            BvhSlab::Leaf { shape_index, .. } => shape_index < shapes,
            BvhSlab::Node { left_index, right_index, .. } => i < left_index < nodes.len() && i < right_index
                < nodes.len(),
        }
}

/// The query of the subtree at `at`, as a relation between the range that
/// enters and the answer. A leaf answers with what its shape answers. A node
/// puts the range to the slab test of its box: where the ray misses the box
/// the answer is no hit; otherwise both children are asked, with the range
/// that the slab test narrowed, and the nearer of their answers is the node's.
pub open spec fn traversal<F: Fn(&BoundingBox, usize) -> (Scalar, Scalar), G: Fn(usize, Scalar, Scalar) -> Option<
    HitRecord,
>>(
    nodes: Seq<BvhSlab>,
    at: int,
    t_min: Scalar,
    t_max: Scalar,
    objects: Seq<Shape>,
    crossing: F,
    strike: G,
    out: Option<HitRecord>,
) -> bool
    decreases nodes.len() - at,
{
    if at < 0 || at >= nodes.len() {
        false
    } else {
        match nodes[at] {
            BvhSlab::Leaf { shape_index, .. } => shape_index < objects.len() && call_ensures(
                strike,
                (objects[shape_index as int].id, t_min, t_max),
                out,
            ),
            BvhSlab::Node { bounds, left_index, right_index, .. } => exists|clip: Option<IntersectionRecord>| #[trigger]
                slab_outcome(bounds, crossing, 0, t_min, t_max, clip) && (match clip {
                    None => out is None,
                    Some(range) => exists|left: Option<HitRecord>, right: Option<HitRecord>|
                        #![trigger nearer(left, right)]
                        at < left_index < nodes.len() && at < right_index < nodes.len() && traversal(nodes, left_index as int, range.tmin, range.tmax, objects, crossing, strike, left)
                            && traversal(
                            nodes,
                            right_index as int,
                            range.tmin,
                            range.tmax,
                            objects,
                            crossing,
                            strike,
                            right,
                        ) && out == nearer(left, right),
                }),
        }
    }
}

/// The box that spans `count` shapes of the list from place `first` on,
/// merged one by one onto the box that holds nothing.
pub open spec fn hull(objects: Seq<Shape>, first: int, count: int) -> BoundingBox
    decreases count,
{
    if count <= 0 {
        BoundingBox { lower: top_corner(), upper: bottom_corner() }
    } else {
        merged(hull(objects, first, count - 1), objects[first + count - 1].bounds)
    }
}

/// The slots from `at` on hold the subtree over the `count` shapes from place
/// `first` on. One shape makes a leaf. More make a node with the box that
/// spans them, followed by the subtree over the first `count / 2` of them and
/// then by the subtree over the rest; a subtree over `k` shapes fills
/// `2k - 1` slots, which places the right child.
pub open spec fn laid_out(nodes: Seq<BvhSlab>, at: int, objects: Seq<Shape>, first: int, count: int) -> bool
    decreases count,
{
    if count <= 0 || at < 0 || at + 2 * count - 1 > nodes.len() {
        false
    } else if count == 1 {
        nodes[at] == (BvhSlab::Leaf { parent_index: at as usize, shape_index: first as usize })
    } else {
        let half = count / 2;
        &&& nodes[at] == (BvhSlab::Node {
            parent_index: at as usize,
            bounds: hull(objects, first, count),
            left_index: (at + 1) as usize,
            right_index: (at + 2 * half) as usize,
        })
        &&& laid_out(nodes, at + 1, objects, first, half)
        &&& laid_out(nodes, at + 2 * half, objects, first + half, count - half)
    }
}

/// Every key stands for a number.
pub open spec fn all_numbers(keys: Seq<Scalar>) -> bool {
    forall|i: int| 0 <= i < keys.len() ==> (#[trigger] keys[i]).is_number()
}

/// The list with the item from place `order[i]` at place `i`.
pub open spec fn reordered(list: Seq<Shape>, order: Seq<usize>) -> Seq<Shape> {
    Seq::new(order.len(), |i: int| list[order[i] as int])
}

/// What arranging a list of shapes by the given keys leaves behind. Where a
/// key is not a number the shapes cannot be ordered: the list stays and the
/// answer is the error. Otherwise the list is in stable ascending order of the
/// keys and the answer is the array of the tree over it.
pub open spec fn arranged(
    before: Seq<Shape>,
    keys: Seq<Scalar>,
    after: Seq<Shape>,
    out: Result<Seq<BvhSlab>, BuildError>,
) -> bool {
    if !all_numbers(keys) {
        out == Err::<Seq<BvhSlab>, BuildError>(BuildError::Unordered) && after == before
    } else {
        &&& out is Ok
        &&& exists|order: Seq<usize>| #[trigger] is_stable_order(keys, order) && after == reordered(before, order)
        &&& out->Ok_0.len() == 2 * before.len() - 1
        &&& laid_out(out->Ok_0, 0, after, 0, before.len() as int)
    }
}

/// `keys` holds, for each shape of the list, its length along `axis` as
/// `length` gave it.
pub open spec fn measured<F: Fn(&BoundingBox, usize) -> Scalar>(
    list: Seq<Shape>,
    length: F,
    axis: usize,
    keys: Seq<Scalar>,
) -> bool {
    &&& keys.len() == list.len()
    &&& forall|i: int| 0 <= i < list.len() ==> call_ensures(length, (&list[i].bounds, axis), #[trigger] keys[i])
}

/// What building a tree over a list of shapes leaves behind. No tree stands
/// over no shapes. Otherwise the split axis is the longest axis of the box
/// that spans the shapes, each shape's key is its own length along that axis,
/// and list and tree are arranged by these keys.
pub open spec fn built<F: Fn(&BoundingBox, usize) -> Scalar>(
    before: Seq<Shape>,
    length: F,
    after: Seq<Shape>,
    out: Result<Seq<BvhSlab>, BuildError>,
) -> bool {
    if before.len() == 0 {
        out == Err::<Seq<BvhSlab>, BuildError>(BuildError::Empty) && after == before
    } else {
        exists|axis: usize, keys: Seq<Scalar>|
            #![trigger measured(before, length, axis, keys)]
            axis < 3 && longest_by(hull(before, 0, before.len() as int), length, axis) && measured(
                before,
                length,
                axis,
                keys,
            ) && arranged(before, keys, after, out)
    }
}

/// The array of a result, as a sequence.
pub open spec fn slots(out: Result<Vec<BvhSlab>, BuildError>) -> Result<Seq<BvhSlab>, BuildError> {
    match out {
        Ok(nodes) => Ok(nodes@),
        Err(e) => Err(e),
    }
}

impl BvhSlab {
    /// The nearest hit in the subtree at `node_index`, within `t_min..t_max`.
    /// `crossing` gives the ray's parameters at a box's planes across an
    /// axis; `strike` gives the hit of the shape with a given handle.
    pub fn traverse<F: Fn(&BoundingBox, usize) -> (Scalar, Scalar), G: Fn(usize, Scalar, Scalar) -> Option<HitRecord>>(
        nodes: &Vec<BvhSlab>,
        node_index: usize,
        t_min: Scalar,
        t_max: Scalar,
        objects: &Vec<Shape>,
        crossing: &F,
        strike: &G,
    ) -> (out: Option<HitRecord>)
        requires
            linked(nodes@, objects@.len() as int),
            node_index < nodes@.len(),
            forall|b: &BoundingBox, a: usize| a < 3 ==> call_requires(crossing, (b, a)),
            forall|k: int, lo: Scalar, hi: Scalar|
                0 <= k < objects@.len() ==> #[trigger] call_requires(strike, (objects@[k].id, lo, hi)),
        ensures
            traversal(nodes@, node_index as int, t_min, t_max, objects@, *crossing, *strike, out),
        decreases nodes@.len() - node_index,
    {
        match nodes[node_index] {
            BvhSlab::Node { parent_index: _, bounds, left_index, right_index } => {
                let clip = bounds.intersects(crossing, t_min, t_max);
                match clip {
                    Some(intersection) => {
                        let left_hit = BvhSlab::traverse(
                            nodes,
                            left_index,
                            intersection.tmin,
                            intersection.tmax,
                            objects,
                            crossing,
                            strike,
                        );
                        let right_hit = BvhSlab::traverse(
                            nodes,
                            right_index,
                            intersection.tmin,
                            intersection.tmax,
                            objects,
                            crossing,
                            strike,
                        );
                        let out = HitRecord::closer(left_hit, right_hit);
                        proof {
                            assert(out == nearer(left_hit, right_hit));
                            assert(slab_outcome(bounds, *crossing, 0, t_min, t_max, clip));
                        }
                        out
                    },
                    None => {
                        proof {
                            assert(slab_outcome(bounds, *crossing, 0, t_min, t_max, clip));
                        }
                        None
                    },
                }
            },
            BvhSlab::Leaf { parent_index: _, shape_index } => {
                let shape = objects[shape_index];
                strike(shape.id, t_min, t_max)
            },
        }
    }

    /// The box that spans `count` shapes of the list from place `first` on.
    pub fn span(objects: &Vec<Shape>, first: usize, count: usize) -> (out: BoundingBox)
        requires
            first + count <= objects@.len(),
        ensures
            out == hull(objects@, first as int, count as int),
    {
        let total: usize = objects.len();
        let mut bbox = BoundingBox::empty();
        let mut k: usize = 0;
        while k < count
            invariant
                k <= count,
                first + count <= total,
                total == objects@.len(),
                bbox == hull(objects@, first as int, k as int),
            decreases count - k,
        {
            let shape = objects[first + k];
            bbox = BoundingBox::box_between(&bbox, &shape.bounds);
            k = k + 1;
        }
        bbox
    }

    /// Writes the subtree over the `count` shapes from place `first` on at the
    /// end of the array, which is slot `index`.
    pub fn recurse_nodes(objects: &Vec<Shape>, first: usize, count: usize, nodes: &mut Vec<BvhSlab>, index: usize)
        requires
            count >= 1,
            first + count <= objects@.len(),
            index == old(nodes)@.len(),
            index + 2 * count - 1 <= usize::MAX,
        ensures
            final(nodes)@.len() == index + 2 * count - 1,
            final(nodes)@.subrange(0, index as int) == old(nodes)@,
            laid_out(final(nodes)@, index as int, objects@, first as int, count as int),
        decreases count,
    {
        if count == 1 {
            nodes.push(BvhSlab::Leaf { parent_index: index, shape_index: first });
            proof {
                assert(final(nodes)@.subrange(0, index as int) =~= old(nodes)@);
            }
            return ;
        }
        let total: usize = objects.len();
        let mid: usize = count / 2;
        let bbox = BvhSlab::span(objects, first, count);
        let left_len: usize = mid * 2 - 1;
        nodes.push(
            BvhSlab::Node { parent_index: index, bounds: bbox, left_index: index + 1, right_index: index + 1 + left_len },
        );
        let ghost rooted = nodes@;
        BvhSlab::recurse_nodes(objects, first, mid, nodes, index + 1);
        let ghost half_way = nodes@;
        BvhSlab::recurse_nodes(objects, first + mid, count - mid, nodes, index + 1 + left_len);
        proof {
            assert(half_way.subrange(0, index + 1) == rooted);
            assert(nodes@.subrange(0, index + 2 * mid) == half_way);
            assert forall|k: int| 0 <= k < index + 2 * mid implies #[trigger] nodes@[k] == half_way[k] by {
                assert(nodes@.subrange(0, index + 2 * mid)[k] == nodes@[k]);
            }
            assert(half_way[index as int] == rooted[index as int]) by {
                assert(half_way.subrange(0, index + 1)[index as int] == half_way[index as int]);
            }
            lemma_laid_out_frame(half_way, nodes@, index + 1, objects@, first as int, mid as int);
            assert(final(nodes)@.subrange(0, index as int) =~= old(nodes)@) by {
                assert forall|k: int| 0 <= k < index implies #[trigger] nodes@[k] == old(nodes)@[k] by {
                    assert(half_way.subrange(0, index + 1)[k] == half_way[k]);
                    assert(rooted[k] == old(nodes)@[k]);
                }
            }
        }
    }

    /// Puts the list in stable ascending order of the keys, one key for each
    /// shape, and builds the tree over it.
    pub fn arrange(list: &mut Vec<Shape>, keys: &Vec<Scalar>) -> (out: Result<Vec<BvhSlab>, BuildError>)
        requires
            old(list)@.len() >= 1,
            keys@.len() == old(list)@.len(),
            2 * old(list)@.len() <= usize::MAX,
        ensures
            arranged(old(list)@, keys@, final(list)@, slots(out)),
    {
        let n: usize = list.len();
        let mut k: usize = 0;
        while k < n
            invariant
                k <= n,
                n == keys@.len(),
                forall|i: int| 0 <= i < k ==> (#[trigger] keys@[i]).is_number(),
            decreases n - k,
        {
            if !keys[k].numeric() {
                return Err(BuildError::Unordered);
            }
            k = k + 1;
        }
        let order = stable_order(keys);
        let mut sorted: Vec<Shape> = Vec::new();
        let mut i: usize = 0;
        while i < n
            invariant
                i <= n,
                n == list@.len(),
                n == order@.len(),
                forall|k: int| 0 <= k < n ==> #[trigger] order@[k] < n,
                sorted@.len() == i,
                forall|k: int| 0 <= k < i ==> #[trigger] sorted@[k] == list@[order@[k] as int],
            decreases n - i,
        {
            let shape = list[order[i]];
            sorted.push(shape);
            i = i + 1;
        }
        proof {
            assert(sorted@ =~= reordered(list@, order@));
        }
        *list = sorted;
        let mut nodes: Vec<BvhSlab> = Vec::new();
        BvhSlab::recurse_nodes(list, 0, n, &mut nodes, 0);
        Ok(nodes)
    }

    /// Builds the tree over the shapes: orders the list by each shape's
    /// length along the longest axis of the box that spans them all, and lays
    /// the tree out over the ordered list. `length` measures a box along an
    /// axis.
    pub fn build_nodes<F: Fn(&BoundingBox, usize) -> Scalar>(list: &mut Vec<Shape>, length: &F) -> (out: Result<
        Vec<BvhSlab>,
        BuildError,
    >)
        requires
            2 * old(list)@.len() <= usize::MAX,
            forall|b: &BoundingBox, a: usize| a < 3 ==> call_requires(length, (b, a)),
        ensures
            built(old(list)@, *length, final(list)@, slots(out)),
    {
        let n: usize = list.len();
        if n == 0 {
            return Err(BuildError::Empty);
        }
        let bbox = BvhSlab::span(list, 0, n);
        let axis = bbox.longest_axis(length);
        let mut keys: Vec<Scalar> = Vec::new();
        let mut i: usize = 0;
        while i < n
            invariant
                i <= n,
                n == list@.len(),
                axis < 3,
                keys@.len() == i,
                forall|b: &BoundingBox, a: usize| a < 3 ==> call_requires(length, (b, a)),
                forall|k: int| 0 <= k < i ==> call_ensures(*length, (&list@[k].bounds, axis), #[trigger] keys@[k]),
            decreases n - i,
        {
            let shape = list[i];
            let key = length(&shape.bounds, axis);
            keys.push(key);
            i = i + 1;
        }
        let ghost before = list@;
        let out = BvhSlab::arrange(list, &keys);
        proof {
            assert(measured(before, *length, axis, keys@));
            assert(arranged(before, keys@, list@, slots(out)));
        }
        out
    }
}

/// The list with one more shape at its end, under the next free handle: the
/// number of shapes before it.
pub open spec fn with_shape(list: Seq<Shape>, object: BoundingBox) -> Seq<Shape> {
    list.push(Shape { id: list.len() as usize, bounds: object })
}

/// The spatial tree over a set of shapes. It is at all times either without
/// shapes and without slots, or laid out over its shapes.
pub struct BvhTree {
    hittables: Vec<Shape>,
    nodes: Vec<BvhSlab>,
    bounds: BoundingBox,
}

impl BvhTree {
    #[verifier::type_invariant]
    spec fn well_formed(&self) -> bool {
        if self.hittables@.len() == 0 {
            self.nodes@.len() == 0
        } else {
            &&& self.nodes@.len() == 2 * self.hittables@.len() - 1
            &&& laid_out(self.nodes@, 0, self.hittables@, 0, self.hittables@.len() as int)
        }
    }

    /// The shapes, in the order in which the tree's leaves name them.
    pub closed spec fn shapes(&self) -> Seq<Shape> {
        self.hittables@
    }

    /// The tree's array; empty while there is no shape.
    pub closed spec fn slabs(&self) -> Seq<BvhSlab> {
        self.nodes@
    }

    /// The box that spans every shape.
    pub closed spec fn hull(&self) -> BoundingBox {
        self.bounds
    }

    /// The tree without shapes; its bounding box holds nothing.
    pub fn new() -> (out: BvhTree)
        ensures
            out.shapes().len() == 0,
            out.slabs().len() == 0,
            out.hull() == (BoundingBox { lower: top_corner(), upper: bottom_corner() }),
    {
        BvhTree { hittables: Vec::new(), nodes: Vec::new(), bounds: BoundingBox::empty() }
    }

    /// Adds a shape, given by its bounding box, and builds the tree anew over
    /// all shapes. The shape's handle is the number of shapes added before it.
    /// Where the shapes cannot be ordered the tree stays as it was.
    pub fn add<F: Fn(&BoundingBox, usize) -> Scalar>(&mut self, object: BoundingBox, length: &F) -> (out: Result<
        (),
        BuildError,
    >)
        requires
            2 * (old(self).shapes().len() + 1) <= usize::MAX,
            forall|b: &BoundingBox, a: usize| a < 3 ==> call_requires(length, (b, a)),
        ensures
            match out {
                Ok(_) => built(
                    with_shape(old(self).shapes(), object),
                    *length,
                    final(self).shapes(),
                    Ok(final(self).slabs()),
                ) && final(self).hull() == merged(old(self).hull(), object),
                Err(e) => built(
                    with_shape(old(self).shapes(), object),
                    *length,
                    with_shape(old(self).shapes(), object),
                    Err(e),
                ) && final(self).shapes() == old(self).shapes() && final(self).slabs() == old(self).slabs()
                    && final(self).hull() == old(self).hull(),
            },
    {
        let mut list: Vec<Shape> = Vec::new();
        let count: usize = self.hittables.len();
        let mut k: usize = 0;
        while k < count
            invariant
                k <= count,
                count == self.hittables@.len(),
                list@ == self.hittables@.subrange(0, k as int),
            decreases count - k,
        {
            list.push(self.hittables[k]);
            proof {
                assert(list@ =~= self.hittables@.subrange(0, k + 1));
            }
            k = k + 1;
        }
        proof {
            assert(list@ =~= self.hittables@);
        }
        list.push(Shape { id: count, bounds: object });
        match BvhSlab::build_nodes(&mut list, length) {
            Ok(nodes) => {
                let bounds = BoundingBox::box_between(&self.bounds, &object);
                *self = BvhTree { hittables: list, nodes, bounds };
                Ok(())
            },
            Err(e) => Err(e),
        }
    }

    /// The nearest hit among the tree's shapes within `ray_tmin..ray_tmax`;
    /// no hit where the tree has no shapes.
    pub fn hit<F: Fn(&BoundingBox, usize) -> (Scalar, Scalar), G: Fn(usize, Scalar, Scalar) -> Option<HitRecord>>(
        &self,
        crossing: &F,
        strike: &G,
        ray_tmin: Scalar,
        ray_tmax: Scalar,
    ) -> (out: Option<HitRecord>)
        requires
            forall|b: &BoundingBox, a: usize| a < 3 ==> call_requires(crossing, (b, a)),
            forall|k: int, lo: Scalar, hi: Scalar|
                0 <= k < self.shapes().len() ==> #[trigger] call_requires(strike, (self.shapes()[k].id, lo, hi)),
        ensures
            self.shapes().len() == 0 ==> out is None,
            self.shapes().len() > 0 ==> traversal(
                self.slabs(),
                0,
                ray_tmin,
                ray_tmax,
                self.shapes(),
                *crossing,
                *strike,
                out,
            ),
    {
        proof {
            use_type_invariant(self);
        }
        if self.nodes.len() == 0 {
            return None;
        }
        proof {
            let count = self.hittables@.len() as int;
            assert(self.hittables.len() == count);
            assert(self.shapes() == self.hittables@);
            lemma_laid_out_linked(self.nodes@, 0, self.hittables@, 0, count);
        }
        BvhSlab::traverse(&self.nodes, 0, ray_tmin, ray_tmax, &self.hittables, crossing, strike)
    }

    /// The box that spans every shape of the tree.
    pub fn bounding_box(&self) -> (out: &BoundingBox)
        ensures
            *out == self.hull(),
    {
        &self.bounds
    }

    /// The shapes, in the order in which the tree's leaves name them.
    pub fn hittables(&self) -> (out: &Vec<Shape>)
        ensures
            out@ == self.shapes(),
    {
        &self.hittables
    }

    /// The tree's array: empty while there is no shape, and else the layout
    /// of the tree over the shapes, in one slot less than twice their number.
    pub fn nodes(&self) -> (out: &Vec<BvhSlab>)
        ensures
            out@ == self.slabs(),
            self.shapes().len() == 0 ==> out@.len() == 0,
            self.shapes().len() > 0 ==> out@.len() == 2 * self.shapes().len() - 1 && laid_out(
                out@,
                0,
                self.shapes(),
                0,
                self.shapes().len() as int,
            ),
    {
        proof {
            use_type_invariant(self);
        }
        &self.nodes
    }
}

/// A subtree's layout speaks of its own slots only: it holds of every array
/// that agrees with the first on them.
pub proof fn lemma_laid_out_frame(
    nodes: Seq<BvhSlab>,
    other: Seq<BvhSlab>,
    at: int,
    objects: Seq<Shape>,
    first: int,
    count: int,
)
    requires
        laid_out(nodes, at, objects, first, count),
        at + 2 * count - 1 <= other.len(),
        forall|k: int| at <= k < at + 2 * count - 1 ==> #[trigger] other[k] == nodes[k],
    ensures
        laid_out(other, at, objects, first, count),
    decreases count,
{
    if count > 1 {
        let half = count / 2;
        lemma_laid_out_frame(nodes, other, at + 1, objects, first, half);
        lemma_laid_out_frame(nodes, other, at + 2 * half, objects, first + half, count - half);
    }
}

/// In a laid-out subtree every node's children lie further on within the
/// subtree's slots, and every leaf names one of the subtree's shapes.
pub proof fn lemma_laid_out_linked(nodes: Seq<BvhSlab>, at: int, objects: Seq<Shape>, first: int, count: int)
    requires
        laid_out(nodes, at, objects, first, count),
        0 <= first,
        at + 2 * count - 1 <= usize::MAX,
        first + count <= usize::MAX,
    ensures
        forall|i: int|
            at <= i < at + 2 * count - 1 ==> match #[trigger] nodes[i] {
                BvhSlab::Leaf { shape_index, .. } => first <= shape_index < first + count,
                BvhSlab::Node { left_index, right_index, .. } => i < left_index < at + 2 * count - 1 && i
                    < right_index < at + 2 * count - 1,
            },
    decreases count,
{
    if count > 1 {
        let half = count / 2;
        lemma_laid_out_linked(nodes, at + 1, objects, first, half);
        lemma_laid_out_linked(nodes, at + 2 * half, objects, first + half, count - half);
    }
}

/// A laid-out subtree has one leaf for each of its shapes.
pub proof fn lemma_laid_out_leaves(
    nodes: Seq<BvhSlab>,
    at: int,
    objects: Seq<Shape>,
    first: int,
    count: int,
    shape: int,
) -> (slot: int)
    requires
        laid_out(nodes, at, objects, first, count),
        first <= shape < first + count,
    ensures
        at <= slot < at + 2 * count - 1,
        nodes[slot] == (BvhSlab::Leaf { parent_index: slot as usize, shape_index: shape as usize }),
    decreases count,
{
    if count == 1 {
        at
    } else {
        let half = count / 2;
        if shape < first + half {
            lemma_laid_out_leaves(nodes, at + 1, objects, first, half, shape)
        } else {
            lemma_laid_out_leaves(nodes, at + 2 * half, objects, first + half, count - half, shape)
        }
    }
}

/// Every coordinate of the outer box is at or beyond that of the inner box.
pub open spec fn encloses(outer: BoundingBox, inner: BoundingBox) -> bool {
    forall|axis: int|
        0 <= axis < 3 ==> less_eq(#[trigger] outer.lower.axis(axis), inner.lower.axis(axis)) && less_eq(
            inner.upper.axis(axis),
            outer.upper.axis(axis),
        )
}

/// The box of a node encloses the box of every shape beneath it: the box that
/// spans a run of shapes encloses each of them, where every shape's box has
/// numbers for coordinates and no lower coordinate above its upper.
pub proof fn lemma_hull_encloses(objects: Seq<Shape>, first: int, count: int, shape: int)
    requires
        0 <= first,
        first + count <= objects.len(),
        first <= shape < first + count,
        forall|i: int| first <= i < first + count ==> (#[trigger] objects[i]).bounds.ordered(),
    ensures
        encloses(hull(objects, first, count), objects[shape].bounds),
        hull(objects, first, count).numeric(),
    decreases count,
{
    let last = objects[first + count - 1].bounds;
    let rest = hull(objects, first, count - 1);
    let all = hull(objects, first, count);
    assert(last.ordered());
    assert(less_eq(last.lower.axis(0), last.upper.axis(0)));
    assert(less_eq(last.lower.axis(1), last.upper.axis(1)));
    assert(less_eq(last.lower.axis(2), last.upper.axis(2)));
    if count > 1 {
        let other = if shape == first + count - 1 { first } else { shape };
        lemma_hull_encloses(objects, first, count - 1, other);
        assert(rest.lower.axis(0).is_number() && rest.upper.axis(0).is_number());
        assert(rest.lower.axis(1).is_number() && rest.upper.axis(1).is_number());
        assert(rest.lower.axis(2).is_number() && rest.upper.axis(2).is_number());
    }
    assert(rest.lower.axis(0).is_number() && rest.upper.axis(0).is_number());
    assert(rest.lower.axis(1).is_number() && rest.upper.axis(1).is_number());
    assert(rest.lower.axis(2).is_number() && rest.upper.axis(2).is_number());
    assert forall|axis: int| 0 <= axis < 3 implies (#[trigger] all.lower.axis(axis)).is_number() && all.upper.axis(
        axis,
    ).is_number() by {}
    if shape == first + count - 1 {
        assert forall|axis: int| 0 <= axis < 3 implies less_eq(#[trigger] all.lower.axis(axis), last.lower.axis(axis))
            && less_eq(last.upper.axis(axis), all.upper.axis(axis)) by {}
    } else {
        let inner = objects[shape].bounds;
        assert(encloses(rest, inner));
        assert forall|axis: int| 0 <= axis < 3 implies less_eq(#[trigger] all.lower.axis(axis), inner.lower.axis(axis))
            && less_eq(inner.upper.axis(axis), all.upper.axis(axis)) by {
            assert(less_eq(rest.lower.axis(axis), inner.lower.axis(axis)));
            assert(less_eq(inner.upper.axis(axis), rest.upper.axis(axis)));
        }
    }
}

/// A hit that the tree answers with is the answer of one of its shapes to a
/// range within the range of the query: the tree invents no hit and widens no
/// range.
pub proof fn lemma_traversal_sound<F: Fn(&BoundingBox, usize) -> (Scalar, Scalar), G: Fn(usize, Scalar, Scalar) -> Option<
    HitRecord,
>>(
    nodes: Seq<BvhSlab>,
    at: int,
    t_min: Scalar,
    t_max: Scalar,
    objects: Seq<Shape>,
    crossing: F,
    strike: G,
    out: Option<HitRecord>,
) -> (found: (int, Scalar, Scalar))
    requires
        traversal(nodes, at, t_min, t_max, objects, crossing, strike, out),
        out is Some,
    ensures
        0 <= found.0 < objects.len(),
        t_min.key <= found.1.key,
        found.2.key <= t_max.key,
        call_ensures(strike, (objects[found.0].id, found.1, found.2), out),
    decreases nodes.len() - at,
{
    match nodes[at] {
        BvhSlab::Leaf { shape_index, .. } => (shape_index as int, t_min, t_max),
        BvhSlab::Node { bounds, left_index, right_index, .. } => {
            let clip = choose|clip: Option<IntersectionRecord>| #[trigger]
                slab_outcome(bounds, crossing, 0, t_min, t_max, clip) && (match clip {
                    None => out is None,
                    Some(range) => exists|left: Option<HitRecord>, right: Option<HitRecord>|
                        #![trigger nearer(left, right)]
                        at < left_index < nodes.len() && at < right_index < nodes.len() && traversal(
                            nodes,
                            left_index as int,
                            range.tmin,
                            range.tmax,
                            objects,
                            crossing,
                            strike,
                            left,
                        ) && traversal(
                            nodes,
                            right_index as int,
                            range.tmin,
                            range.tmax,
                            objects,
                            crossing,
                            strike,
                            right,
                        ) && out == nearer(left, right),
                });
            let range = clip->Some_0;
            lemma_slab_within(bounds, crossing, 0, t_min, t_max, clip);
            let (left, right) = choose|left: Option<HitRecord>, right: Option<HitRecord>|
                #![trigger nearer(left, right)]
                at < left_index < nodes.len() && at < right_index < nodes.len() && traversal(
                    nodes,
                    left_index as int,
                    range.tmin,
                    range.tmax,
                    objects,
                    crossing,
                    strike,
                    left,
                ) && traversal(nodes, right_index as int, range.tmin, range.tmax, objects, crossing, strike, right)
                    && out == nearer(left, right);
            if out == left {
                lemma_traversal_sound(nodes, left_index as int, range.tmin, range.tmax, objects, crossing, strike, left)
            } else {
                lemma_traversal_sound(
                    nodes,
                    right_index as int,
                    range.tmin,
                    range.tmax,
                    objects,
                    crossing,
                    strike,
                    right,
                )
            }
        },
    }
}

} // verus!

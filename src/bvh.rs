//! Bounding volume hierarchy over the primitives of a scene.
//!
//! Primitives are named by their index in the scene's list; the hierarchy is
//! built from the list of their bounding boxes.

use std::cmp::Ordering;

use rand::rngs::SmallRng;
use rand::seq::IteratorRandom;

use vstd::arithmetic::power2::{lemma2_to64, lemma_pow2_unfold, pow2};
use vstd::prelude::*;

use crate::bounds::{BoundingBox, Coord};

verus! {

broadcast use vstd::seq_lib::group_to_multiset_ensures;

#[verifier::external_type_specification]
#[verifier::external_body]
pub struct ExSmallRng(SmallRng);

/// Relies on rand's `IteratorRandom::choose` over the range `0..3`: a range knows
/// its exact length, so one of its items is drawn and `None` never comes back.
#[verifier::external_body]
fn choose_axis(rng: &mut SmallRng) -> (r: usize)
    ensures
        r < 3,
{
    (0..3usize).choose(rng).unwrap()
}

/// The order that `box_cmp` gives: an unbounded object first, then the bounded
/// ones by their minimum on the axis.
pub open spec fn box_order(a: Option<BoundingBox>, b: Option<BoundingBox>, axis: int) -> Ordering {
    match (a, b) {
        (None, None) => Ordering::Equal,
        (None, Some(_)) => Ordering::Less,
        (Some(_), None) => Ordering::Greater,
        (Some(x), Some(y)) => if x.min.at(axis) < y.min.at(axis) {
            Ordering::Less
        } else if x.min.at(axis) == y.min.at(axis) {
            Ordering::Equal
        } else {
            Ordering::Greater
        },
    }
}

/// Compares two bounding boxes based on existence and then along the given axis.
///
/// Two unbounded objects cannot be ordered; the caller keeps them apart.
pub fn box_cmp(a: &Option<BoundingBox>, b: &Option<BoundingBox>, axis_idx: usize) -> (r: Ordering)
    requires
        axis_idx < 3,
        a.is_some() || b.is_some(),
    ensures
        r == box_order(*a, *b, axis_idx as int),
{
    match (a, b) {
        (None, _) => Ordering::Less,
        (Some(_), None) => Ordering::Greater,
        (Some(a_box), Some(b_box)) => {
            let ka = a_box.min.get(axis_idx);
            let kb = b_box.min.get(axis_idx);
            if ka < kb {
                Ordering::Less
            } else if ka == kb {
                Ordering::Equal
            } else {
                Ordering::Greater
            }
        },
    }
}

/// Whether `a` comes no later than `b` in the order of `box_cmp`.
fn not_after(a: &Option<BoundingBox>, b: &Option<BoundingBox>, axis: usize) -> (r: bool)
    requires
        axis < 3,
        a.is_some() || b.is_some(),
    ensures
        r == (box_order(*a, *b, axis as int) != Ordering::Greater),
{
    match box_cmp(a, b, axis) {
        Ordering::Greater => false,
        _ => true,
    }
}

/// Every primitive has a bounding box.
pub open spec fn all_bounded(boxes: Seq<Option<BoundingBox>>) -> bool {
    forall|i: int| 0 <= i < boxes.len() ==> (#[trigger] boxes[i]).is_some()
}

/// The minimum of primitive `p`'s box on `axis`.
pub open spec fn min_key(boxes: Seq<Option<BoundingBox>>, p: usize, axis: int) -> Coord {
    boxes[p as int].unwrap().min.at(axis)
}

/// Every index of `items` names a primitive of `boxes`.
pub open spec fn indices_in(items: Seq<usize>, boxes: Seq<Option<BoundingBox>>) -> bool {
    forall|i: int| 0 <= i < items.len() ==> (#[trigger] items[i]) < boxes.len()
}

/// `items` is ordered by the minimum of their boxes on `axis`.
pub open spec fn sorted_on(items: Seq<usize>, boxes: Seq<Option<BoundingBox>>, axis: int) -> bool {
    forall|i: int, j: int|
        0 <= i < j < items.len() ==> min_key(boxes, #[trigger] items[i], axis) <= min_key(
            boxes,
            #[trigger] items[j],
            axis,
        )
}

/// No primitive of `lo` has a larger box minimum on `axis` than one of `hi`.
pub open spec fn halves_ordered(
    lo: Seq<usize>,
    hi: Seq<usize>,
    boxes: Seq<Option<BoundingBox>>,
    axis: int,
) -> bool {
    forall|i: int, j: int|
        0 <= i < lo.len() && 0 <= j < hi.len() ==> min_key(boxes, #[trigger] lo[i], axis)
            <= min_key(boxes, #[trigger] hi[j], axis)
}

/// Sorts primitive indices by the minimum of their boxes on `axis`, keeping
/// the order of those that compare equal.
fn sort_by_box(items: Vec<usize>, boxes: &Vec<Option<BoundingBox>>, axis: usize) -> (r: Vec<usize>)
    requires
        axis < 3,
        all_bounded(boxes@),
        indices_in(items@, boxes@),
    ensures
        r@.len() == items@.len(),
        r@.to_multiset() == items@.to_multiset(),
        indices_in(r@, boxes@),
        sorted_on(r@, boxes@, axis as int),
{
    let mut out: Vec<usize> = Vec::new();
    let mut k: usize = 0;
    while k < items.len()
        invariant
            axis < 3,
            k <= items.len(),
            out@.len() == k,
            all_bounded(boxes@),
            indices_in(items@, boxes@),
            indices_in(out@, boxes@),
            sorted_on(out@, boxes@, axis as int),
            out@.to_multiset() == items@.subrange(0, k as int).to_multiset(),
        decreases items.len() - k,
    {
        let x = items[k];
        let mut pos: usize = 0;
        while pos < out.len() && not_after(&boxes[out[pos]], &boxes[x], axis)
            invariant
                axis < 3,
                pos <= out.len(),
                x < boxes.len(),
                all_bounded(boxes@),
                indices_in(out@, boxes@),
                forall|i: int|
                    0 <= i < pos ==> min_key(boxes@, #[trigger] out@[i], axis as int) <= min_key(
                        boxes@,
                        x,
                        axis as int,
                    ),
            decreases out.len() - pos,
        {
            pos = pos + 1;
        }
        proof {
            if pos < out.len() {
                assert(min_key(boxes@, x, axis as int) < min_key(boxes@, out@[pos as int], axis as int));
            }
        }
        let ghost prev = out@;
        out.insert(pos, x);
        proof {
            assert(items@.subrange(0, k + 1) =~= items@.subrange(0, k as int).push(x));
            assert forall|i: int, j: int| 0 <= i < j < out@.len() implies min_key(
                boxes@,
                #[trigger] out@[i],
                axis as int,
            ) <= min_key(boxes@, #[trigger] out@[j], axis as int) by {
                if j < pos {
                } else if j == pos {
                } else if i < pos {
                    assert(out@[j] == prev[j - 1]);
                    assert(min_key(boxes@, prev[pos as int], axis as int) <= min_key(boxes@, prev[j - 1], axis as int));
                } else if i == pos {
                    assert(out@[j] == prev[j - 1]);
                    assert(min_key(boxes@, prev[pos as int], axis as int) <= min_key(boxes@, prev[j - 1], axis as int));
                } else {
                    assert(out@[i] == prev[i - 1]);
                    assert(out@[j] == prev[j - 1]);
                }
            }
        }
        k = k + 1;
    }
    assert(items@.subrange(0, items.len() as int) =~= items@);
    out
}

/// Reordering keeps a sequence free of repeated items.
proof fn lemma_sorted_keeps_distinct(a: Seq<usize>, b: Seq<usize>)
    requires
        a.no_duplicates(),
        a.to_multiset() == b.to_multiset(),
    ensures
        b.no_duplicates(),
{
    a.lemma_multiset_has_no_duplicates();
    b.lemma_multiset_has_no_duplicates_conv();
}

/// A child of a hierarchy node: a primitive of the scene, named by its index,
/// or a further node.
#[derive(Debug)]
pub enum BvhChild {
    Primitive(usize),
    Node(Box<BvhNode>),
}

/// A node in the hierarchy: two children and the box that holds both.
#[derive(Debug)]
pub struct BvhNode {
    pub left: BvhChild,
    pub right: BvhChild,
    pub bbox: BoundingBox,
}

impl BvhChild {
    /// The box of the child: the primitive's own box, or the node's.
    pub open spec fn box_in(self, boxes: Seq<Option<BoundingBox>>) -> BoundingBox {
        match self {
            BvhChild::Primitive(i) => boxes[i as int].unwrap(),
            BvhChild::Node(n) => n.bbox,
        }
    }

    /// The box of the child.
    pub fn bounding_box(&self, boxes: &Vec<Option<BoundingBox>>) -> (r: BoundingBox)
        requires
            all_bounded(boxes@),
            match self {
                BvhChild::Primitive(i) => *i < boxes.len(),
                BvhChild::Node(_) => true,
            },
        ensures
            r == self.box_in(boxes@),
    {
        match self {
            BvhChild::Primitive(i) => boxes[*i].unwrap(),
            BvhChild::Node(n) => n.bbox,
        }
    }
}

impl BvhNode {
    /// The primitives beneath the node, left to right, each named once: a node
    /// over a single primitive holds it on both sides.
    pub open spec fn prims(self) -> Seq<usize>
        decreases self,
    {
        match (self.left, self.right) {
            (BvhChild::Primitive(a), BvhChild::Primitive(b)) => if a == b {
                seq![a]
            } else {
                seq![a, b]
            },
            (BvhChild::Primitive(a), BvhChild::Node(r)) => seq![a] + r.prims(),
            (BvhChild::Node(l), BvhChild::Primitive(b)) => l.prims().push(b),
            (BvhChild::Node(l), BvhChild::Node(r)) => l.prims() + r.prims(),
        }
    }

    /// The number of levels of nodes, this one included.
    pub open spec fn height(self) -> nat
        decreases self,
    {
        let hl: nat = match self.left {
            BvhChild::Primitive(_) => 0,
            BvhChild::Node(l) => l.height(),
        };
        let hr: nat = match self.right {
            BvhChild::Primitive(_) => 0,
            BvhChild::Node(r) => r.height(),
        };
        1 + if hl >= hr {
            hl
        } else {
            hr
        }
    }

    /// Every primitive named lies in `boxes`, and every node's box is the union
    /// of its children's boxes.
    pub open spec fn wf(self, boxes: Seq<Option<BoundingBox>>) -> bool
        decreases self,
    {
        &&& match self.left {
            BvhChild::Primitive(i) => i < boxes.len(),
            BvhChild::Node(l) => l.wf(boxes),
        }
        &&& match self.right {
            BvhChild::Primitive(i) => i < boxes.len(),
            BvhChild::Node(r) => r.wf(boxes),
        }
        &&& self.bbox == self.left.box_in(boxes).spec_union(self.right.box_in(boxes))
    }

    /// The shape that construction gives: a node holds one or two primitives
    /// directly, or two nodes, where the left one holds the lower half (rounded
    /// down) of three or more primitives beneath, and on some axis no primitive on the left
    /// has a larger box minimum than one on the right.
    pub open spec fn median_split(self, boxes: Seq<Option<BoundingBox>>) -> bool
        decreases self,
    {
        match (self.left, self.right) {
            (BvhChild::Primitive(_), BvhChild::Primitive(_)) => true,
            (BvhChild::Node(l), BvhChild::Node(r)) => {
                &&& l.prims().len() + r.prims().len() >= 3
                &&& l.prims().len() == (l.prims().len() + r.prims().len()) / 2
                &&& exists|axis: int|
                    0 <= axis < 3 && #[trigger] halves_ordered(l.prims(), r.prims(), boxes, axis)
                &&& l.median_split(boxes)
                &&& r.median_split(boxes)
            },
            _ => false,
        }
    }

    /// Builds the hierarchy over the primitives whose boxes are given, one per
    /// primitive, in the scene's order.
    ///
    /// An empty scene cannot be built, nor one with an unbounded primitive.
    pub fn new(boxes: &Vec<Option<BoundingBox>>, rng: &mut SmallRng) -> (r: BvhNode)
        requires
            boxes.len() > 0,
            all_bounded(boxes@),
        ensures
            r.wf(boxes@),
            r.median_split(boxes@),
            r.prims().to_multiset() == Seq::new(boxes.len() as nat, |i: int| i as usize).to_multiset(),
    {
        let mut items: Vec<usize> = Vec::new();
        let mut i: usize = 0;
        while i < boxes.len()
            invariant
                i <= boxes.len(),
                items@ == Seq::new(i as nat, |j: int| j as usize),
            decreases boxes.len() - i,
        {
            items.push(i);
            i = i + 1;
            assert(items@ =~= Seq::new(i as nat, |j: int| j as usize));
        }
        BvhNode::new_node(items, boxes, rng)
    }

    /// Builds the node over the primitives `items`.
    fn new_node(items: Vec<usize>, boxes: &Vec<Option<BoundingBox>>, rng: &mut SmallRng) -> (r: BvhNode)
        requires
            items.len() > 0,
            all_bounded(boxes@),
            indices_in(items@, boxes@),
            items@.no_duplicates(),
        ensures
            r.wf(boxes@),
            r.median_split(boxes@),
            r.prims().to_multiset() == items@.to_multiset(),
        decreases items.len(),
    {
        let span = items.len();
        let (left, right) = if span == 1 {
            (BvhChild::Primitive(items[0]), BvhChild::Primitive(items[0]))
        } else if span == 2 {
            (BvhChild::Primitive(items[0]), BvhChild::Primitive(items[1]))
        } else {
            let axis_idx = choose_axis(rng);
            let ghost old_items = items@;
            let mut half0 = sort_by_box(items, boxes, axis_idx);
            let ghost sorted = half0@;
            proof {
                lemma_sorted_keeps_distinct(old_items, sorted);
            }
            let half1 = half0.split_off(span / 2);
            proof {
                assert(sorted =~= half0@ + half1@);
                assert(half0@.no_duplicates());
                assert(half1@.no_duplicates());
            }
            let left = BvhNode::new_node(half0, boxes, rng);
            let right = BvhNode::new_node(half1, boxes, rng);
            proof {
                vstd::seq_lib::lemma_multiset_commutative(left.prims(), right.prims());
                vstd::seq_lib::lemma_multiset_commutative(half0@, half1@);
                assert forall|i: int, j: int|
                    0 <= i < left.prims().len() && 0 <= j < right.prims().len() implies min_key(
                    boxes@,
                    #[trigger] left.prims()[i],
                    axis_idx as int,
                ) <= min_key(boxes@, #[trigger] right.prims()[j], axis_idx as int) by {
                    let x = left.prims()[i];
                    let y = right.prims()[j];
                    assert(left.prims().contains(x));
                    assert(right.prims().contains(y));
                    assert(left.prims().to_multiset().count(x) > 0);
                    assert(right.prims().to_multiset().count(y) > 0);
                    assert(half0@.to_multiset().count(x) > 0);
                    assert(half1@.to_multiset().count(y) > 0);
                    assert(half0@.contains(x));
                    assert(half1@.contains(y));
                    let a = choose|a: int| 0 <= a < half0@.len() && half0@[a] == x;
                    let b = choose|b: int| 0 <= b < half1@.len() && half1@[b] == y;
                    assert(sorted[a] == x);
                    assert(sorted[half0@.len() + b] == y);
                }
                assert(halves_ordered(left.prims(), right.prims(), boxes@, axis_idx as int));
                assert(left.prims().len() == left.prims().to_multiset().len());
                assert(right.prims().len() == right.prims().to_multiset().len());
                assert(half0@.len() == half0@.to_multiset().len());
                assert(half1@.len() == half1@.to_multiset().len());
                assert(left.prims().len() == span / 2);
                assert(right.prims().len() == span - span / 2);
            }
            (BvhChild::Node(Box::new(left)), BvhChild::Node(Box::new(right)))
        };
        proof {
            if span == 1 {
                assert(items@ =~= seq![items@[0]]);
            } else if span == 2 {
                assert(items@ =~= seq![items@[0], items@[1]]);
            }
        }
        let lbox = left.bounding_box(boxes);
        let rbox = right.bounding_box(boxes);
        BvhNode { left, right, bbox: lbox.union(&rbox) }
    }
}

/// A node's box encloses the box of every primitive beneath it: a ray that
/// misses the node's box misses all of them, so a query may skip the node.
pub proof fn lemma_bbox_encloses_prims(node: BvhNode, boxes: Seq<Option<BoundingBox>>, p: usize)
    requires
        node.wf(boxes),
        node.prims().contains(p),
    ensures
        node.bbox.encloses(boxes[p as int].unwrap()),
    decreases node,
{
    let lb = node.left.box_in(boxes);
    let rb = node.right.box_in(boxes);
    crate::bounds::lemma_union_encloses(lb, rb);
    let target = boxes[p as int].unwrap();
    match (node.left, node.right) {
        (BvhChild::Primitive(a), BvhChild::Primitive(b)) => {
            if a == b {
                assert(seq![a][0] == a);
            } else {
                assert(seq![a, b][0] == a && seq![a, b][1] == b);
            }
        },
        (BvhChild::Primitive(a), BvhChild::Node(r)) => {
            let k = choose|k: int| 0 <= k < node.prims().len() && node.prims()[k] == p;
            if k == 0 {
            } else {
                assert(r.prims()[k - 1] == p);
                lemma_bbox_encloses_prims(*r, boxes, p);
                crate::bounds::lemma_encloses_trans(node.bbox, rb, target);
            }
        },
        (BvhChild::Node(l), BvhChild::Primitive(b)) => {
            let k = choose|k: int| 0 <= k < node.prims().len() && node.prims()[k] == p;
            if k == l.prims().len() {
            } else {
                assert(l.prims()[k] == p);
                lemma_bbox_encloses_prims(*l, boxes, p);
                crate::bounds::lemma_encloses_trans(node.bbox, lb, target);
            }
        },
        (BvhChild::Node(l), BvhChild::Node(r)) => {
            let k = choose|k: int| 0 <= k < node.prims().len() && node.prims()[k] == p;
            if k < l.prims().len() {
                assert(l.prims()[k] == p);
                lemma_bbox_encloses_prims(*l, boxes, p);
                crate::bounds::lemma_encloses_trans(node.bbox, lb, target);
            } else {
                assert(r.prims()[k - l.prims().len()] == p);
                lemma_bbox_encloses_prims(*r, boxes, p);
                crate::bounds::lemma_encloses_trans(node.bbox, rb, target);
            }
        },
    }
}

/// Median splits keep the hierarchy shallow: a node of height `h` over `n`
/// primitives has `2^(h-1) <= n`, and `2^(h-1) < n` once `n >= 2`; so the
/// height is at most the base-2 logarithm of `n`, rounded up.
pub proof fn lemma_height_logarithmic(node: BvhNode, boxes: Seq<Option<BoundingBox>>)
    requires
        node.median_split(boxes),
    ensures
        node.height() >= 1,
        pow2((node.height() - 1) as nat) <= node.prims().len(),
        node.prims().len() >= 2 ==> pow2((node.height() - 1) as nat) < node.prims().len(),
    decreases node,
{
    lemma2_to64();
    match (node.left, node.right) {
        (BvhChild::Primitive(a), BvhChild::Primitive(b)) => {
            assert(node.height() == 1);
        },
        (BvhChild::Node(l), BvhChild::Node(r)) => {
            lemma_height_logarithmic(*l, boxes);
            lemma_height_logarithmic(*r, boxes);
            let nl = l.prims().len();
            let nr = r.prims().len();
            let n = nl + nr;
            assert(node.prims().len() == n);
            let hmax: nat = if l.height() >= r.height() {
                l.height()
            } else {
                r.height()
            };
            assert(node.height() == 1 + hmax);
            lemma_pow2_unfold(hmax);
            let pc = pow2((hmax - 1) as nat);
            assert(pow2(hmax) == 2 * pc);
            // the child of greatest height has `c` primitives with 2^(hmax-1) <= c,
            // and c <= nr, the larger half
            if l.height() >= r.height() {
                assert(pc <= nl);
                if nl >= 2 {
                    assert(pc < nl);
                }
            } else {
                assert(pc <= nr);
                if nr >= 2 {
                    assert(pc < nr);
                }
            }
            assert(2 * pc < n);
        },
        (BvhChild::Primitive(_), BvhChild::Node(_)) => {},
        (BvhChild::Node(_), BvhChild::Primitive(_)) => {},
    }
}

/// A node's box is no larger than needed: on every axis its minimum is the box
/// minimum of some primitive beneath it, and its maximum the box maximum of some
/// primitive beneath it. With `lemma_bbox_encloses_prims`, the node's box is the
/// union of the boxes of the primitives beneath it.
pub proof fn lemma_bbox_is_tight(node: BvhNode, boxes: Seq<Option<BoundingBox>>, axis: int)
    requires
        node.wf(boxes),
        0 <= axis < 3,
    ensures
        exists|k: int|
            0 <= k < node.prims().len() && #[trigger] boxes[node.prims()[k] as int].unwrap().min.at(
                axis,
            ) == node.bbox.min.at(axis),
        exists|k: int|
            0 <= k < node.prims().len() && #[trigger] boxes[node.prims()[k] as int].unwrap().max.at(
                axis,
            ) == node.bbox.max.at(axis),
    decreases node,
{
    let lb = node.left.box_in(boxes);
    let rb = node.right.box_in(boxes);
    let ps = node.prims();
    // a witness for the side whose bound the union takes
    let take_left_min = lb.min.at(axis) <= rb.min.at(axis);
    let take_left_max = rb.max.at(axis) <= lb.max.at(axis);
    assert(node.bbox.min.at(axis) == if take_left_min { lb.min.at(axis) } else { rb.min.at(axis) });
    assert(node.bbox.max.at(axis) == if take_left_max { lb.max.at(axis) } else { rb.max.at(axis) });
    match (node.left, node.right) {
        (BvhChild::Primitive(a), BvhChild::Primitive(b)) => {
            if a == b {
                assert(ps[0] == a);
                assert(boxes[ps[0] as int].unwrap().min.at(axis) == node.bbox.min.at(axis));
                assert(boxes[ps[0] as int].unwrap().max.at(axis) == node.bbox.max.at(axis));
            } else {
                assert(ps[0] == a && ps[1] == b);
                if take_left_min {
                    assert(boxes[ps[0] as int].unwrap().min.at(axis) == node.bbox.min.at(axis));
                } else {
                    assert(boxes[ps[1] as int].unwrap().min.at(axis) == node.bbox.min.at(axis));
                }
                if take_left_max {
                    assert(boxes[ps[0] as int].unwrap().max.at(axis) == node.bbox.max.at(axis));
                } else {
                    assert(boxes[ps[1] as int].unwrap().max.at(axis) == node.bbox.max.at(axis));
                }
            }
        },
        (BvhChild::Primitive(a), BvhChild::Node(r)) => {
            lemma_bbox_is_tight(*r, boxes, axis);
            assert(ps[0] == a);
            if take_left_min {
                assert(boxes[ps[0] as int].unwrap().min.at(axis) == node.bbox.min.at(axis));
            } else {
                let k = choose|k: int|
                    0 <= k < r.prims().len() && #[trigger] boxes[r.prims()[k] as int].unwrap().min.at(
                        axis,
                    ) == r.bbox.min.at(axis);
                assert(ps[k + 1] == r.prims()[k]);
                assert(boxes[ps[k + 1] as int].unwrap().min.at(axis) == node.bbox.min.at(axis));
            }
            if take_left_max {
                assert(boxes[ps[0] as int].unwrap().max.at(axis) == node.bbox.max.at(axis));
            } else {
                let k = choose|k: int|
                    0 <= k < r.prims().len() && #[trigger] boxes[r.prims()[k] as int].unwrap().max.at(
                        axis,
                    ) == r.bbox.max.at(axis);
                assert(ps[k + 1] == r.prims()[k]);
                assert(boxes[ps[k + 1] as int].unwrap().max.at(axis) == node.bbox.max.at(axis));
            }
        },
        (BvhChild::Node(l), BvhChild::Primitive(b)) => {
            lemma_bbox_is_tight(*l, boxes, axis);
            let n = l.prims().len() as int;
            assert(ps[n] == b);
            if take_left_min {
                let k = choose|k: int|
                    0 <= k < l.prims().len() && #[trigger] boxes[l.prims()[k] as int].unwrap().min.at(
                        axis,
                    ) == l.bbox.min.at(axis);
                assert(ps[k] == l.prims()[k]);
                assert(boxes[ps[k] as int].unwrap().min.at(axis) == node.bbox.min.at(axis));
            } else {
                assert(boxes[ps[n] as int].unwrap().min.at(axis) == node.bbox.min.at(axis));
            }
            if take_left_max {
                let k = choose|k: int|
                    0 <= k < l.prims().len() && #[trigger] boxes[l.prims()[k] as int].unwrap().max.at(
                        axis,
                    ) == l.bbox.max.at(axis);
                assert(ps[k] == l.prims()[k]);
                assert(boxes[ps[k] as int].unwrap().max.at(axis) == node.bbox.max.at(axis));
            } else {
                assert(boxes[ps[n] as int].unwrap().max.at(axis) == node.bbox.max.at(axis));
            }
        },
        (BvhChild::Node(l), BvhChild::Node(r)) => {
            lemma_bbox_is_tight(*l, boxes, axis);
            lemma_bbox_is_tight(*r, boxes, axis);
            let n = l.prims().len() as int;
            if take_left_min {
                let k = choose|k: int|
                    0 <= k < l.prims().len() && #[trigger] boxes[l.prims()[k] as int].unwrap().min.at(
                        axis,
                    ) == l.bbox.min.at(axis);
                assert(ps[k] == l.prims()[k]);
                assert(boxes[ps[k] as int].unwrap().min.at(axis) == node.bbox.min.at(axis));
            } else {
                let k = choose|k: int|
                    0 <= k < r.prims().len() && #[trigger] boxes[r.prims()[k] as int].unwrap().min.at(
                        axis,
                    ) == r.bbox.min.at(axis);
                assert(ps[n + k] == r.prims()[k]);
                assert(boxes[ps[n + k] as int].unwrap().min.at(axis) == node.bbox.min.at(axis));
            }
            if take_left_max {
                let k = choose|k: int|
                    0 <= k < l.prims().len() && #[trigger] boxes[l.prims()[k] as int].unwrap().max.at(
                        axis,
                    ) == l.bbox.max.at(axis);
                assert(ps[k] == l.prims()[k]);
                assert(boxes[ps[k] as int].unwrap().max.at(axis) == node.bbox.max.at(axis));
            } else {
                let k = choose|k: int|
                    0 <= k < r.prims().len() && #[trigger] boxes[r.prims()[k] as int].unwrap().max.at(
                        axis,
                    ) == r.bbox.max.at(axis);
                assert(ps[n + k] == r.prims()[k]);
                assert(boxes[ps[n + k] as int].unwrap().max.at(axis) == node.bbox.max.at(axis));
            }
        },
    }
}

} // verus!

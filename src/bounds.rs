//! Axis-aligned bounding boxes.
//!
//! A coordinate is held as an order key: a `u32` whose order is the order of the
//! coordinates it stands for. Union and the comparisons used to build a hierarchy only
//! ever read that order, so they are exact on keys.

use vstd::prelude::*;

verus! {

/// A coordinate held by its position in the order of coordinates.
pub type Coord = u32;

/// The smaller of two keys.
pub open spec fn key_min(a: Coord, b: Coord) -> Coord {
    if a <= b { a } else { b }
}

/// The larger of two keys.
pub open spec fn key_max(a: Coord, b: Coord) -> Coord {
    if a <= b { b } else { a }
}

/// A point of three coordinate keys.
#[derive(Clone, Copy, Debug, PartialEq, Eq, Structural)]
pub struct Point3 {
    pub x: Coord,
    pub y: Coord,
    pub z: Coord,
}

impl Point3 {
    /// The coordinate on axis `i` (0, 1 or 2).
    pub open spec fn at(self, i: int) -> Coord {
        if i == 0 {
            self.x
        } else if i == 1 {
            self.y
        } else {
            self.z
        }
    }

    /// Creates a point from its three coordinate keys.
    pub fn new(x: Coord, y: Coord, z: Coord) -> (r: Point3)
        ensures
            r == (Point3 { x, y, z }),
    {
        Point3 { x, y, z }
    }

    /// The coordinate on the given axis.
    pub fn get(&self, axis: usize) -> (r: Coord)
        requires
            axis < 3,
        ensures
            r == self.at(axis as int),
    {
        if axis == 0 {
            self.x
        } else if axis == 1 {
            self.y
        } else {
            self.z
        }
    }

    /// Componentwise minimum.
    pub open spec fn spec_min(self, o: Point3) -> Point3 {
        Point3 { x: key_min(self.x, o.x), y: key_min(self.y, o.y), z: key_min(self.z, o.z) }
    }

    /// Componentwise maximum.
    pub open spec fn spec_max(self, o: Point3) -> Point3 {
        Point3 { x: key_max(self.x, o.x), y: key_max(self.y, o.y), z: key_max(self.z, o.z) }
    }

    /// Componentwise minimum.
    pub fn min(&self, o: &Point3) -> (r: Point3)
        ensures
            r == self.spec_min(*o),
    {
        Point3 {
            x: if self.x <= o.x { self.x } else { o.x },
            y: if self.y <= o.y { self.y } else { o.y },
            z: if self.z <= o.z { self.z } else { o.z },
        }
    }

    /// Componentwise maximum.
    pub fn max(&self, o: &Point3) -> (r: Point3)
        ensures
            r == self.spec_max(*o),
    {
        Point3 {
            x: if self.x <= o.x { o.x } else { self.x },
            y: if self.y <= o.y { o.y } else { self.y },
            z: if self.z <= o.z { o.z } else { self.z },
        }
    }
}

/// An axis aligned bounding box.
#[derive(Clone, Copy, Debug, PartialEq, Eq, Structural)]
pub struct BoundingBox {
    pub min: Point3,
    pub max: Point3,
}

impl BoundingBox {
    /// The box is not inverted: `min <= max` on every axis.
    pub open spec fn wf(self) -> bool {
        forall|i: int| 0 <= i < 3 ==> self.min.at(i) <= #[trigger] self.max.at(i)
    }

    /// `self` contains `other`: on every axis its interval holds the other's.
    pub open spec fn encloses(self, other: BoundingBox) -> bool {
        forall|i: int|
            #![trigger other.min.at(i)]
            #![trigger other.max.at(i)]
            0 <= i < 3 ==> self.min.at(i) <= other.min.at(i) && other.max.at(i) <= self.max.at(i)
    }

    /// The box with the smaller minimum and the larger maximum on every axis.
    pub open spec fn spec_union(self, other: BoundingBox) -> BoundingBox {
        BoundingBox { min: self.min.spec_min(other.min), max: self.max.spec_max(other.max) }
    }

    /// Creates a new axis aligned bounding box.
    pub fn new(min: Point3, max: Point3) -> (r: BoundingBox)
        ensures
            r == (BoundingBox { min, max }),
    {
        BoundingBox { min, max }
    }

    /// Returns a bounding box enclosing this and the other box: the minimums of
    /// the two minimums and the maximums of the two maximums.
    pub fn union(&self, other: &BoundingBox) -> (r: BoundingBox)
        ensures
            r == self.spec_union(*other),
    {
        BoundingBox { min: self.min.min(&other.min), max: self.max.max(&other.max) }
    }
}

impl Default for BoundingBox {
    /// The box reduced to the point of all-zero keys.
    fn default() -> (r: BoundingBox)
        ensures
            r == (BoundingBox { min: Point3 { x: 0, y: 0, z: 0 }, max: Point3 { x: 0, y: 0, z: 0 } }),
    {
        BoundingBox { min: Point3 { x: 0, y: 0, z: 0 }, max: Point3 { x: 0, y: 0, z: 0 } }
    }
}

/// The union of two boxes encloses both: on every axis its minimum is at most
/// either minimum and its maximum at least either maximum.
pub proof fn lemma_union_encloses(a: BoundingBox, b: BoundingBox)
    ensures
        a.spec_union(b).encloses(a),
        a.spec_union(b).encloses(b),
{
}

/// The union of two boxes is the least box that encloses both: any box that
/// encloses each of them encloses their union.
pub proof fn lemma_union_least(a: BoundingBox, b: BoundingBox, c: BoundingBox)
    requires
        c.encloses(a),
        c.encloses(b),
    ensures
        c.encloses(a.spec_union(b)),
{
    assert forall|i: int| 0 <= i < 3 implies c.min.at(i) <= #[trigger] a.spec_union(b).min.at(i)
        && a.spec_union(b).max.at(i) <= c.max.at(i) by {
        assert(c.min.at(i) <= a.min.at(i) && c.min.at(i) <= b.min.at(i));
        assert(a.max.at(i) <= c.max.at(i) && b.max.at(i) <= c.max.at(i));
    }
}

/// Union is symmetric, and keeps boxes that are not inverted so.
pub proof fn lemma_union_symmetric_wf(a: BoundingBox, b: BoundingBox)
    ensures
        a.spec_union(b) == b.spec_union(a),
        a.wf() && b.wf() ==> a.spec_union(b).wf(),
{
    if a.wf() && b.wf() {
        assert forall|i: int| 0 <= i < 3 implies a.spec_union(b).min.at(i)
            <= #[trigger] a.spec_union(b).max.at(i) by {
            assert(a.min.at(i) <= a.max.at(i));
            assert(b.min.at(i) <= b.max.at(i));
        }
    }
}

/// The box of a list of objects, folded left to right: objects without a box
/// are passed over, and a list with no box at all has none.
pub open spec fn union_of(s: Seq<Option<BoundingBox>>) -> Option<BoundingBox>
    decreases s.len(),
{
    if s.len() == 0 {
        None
    } else {
        match (union_of(s.drop_last()), s.last()) {
            (None, b) => b,
            (Some(a), None) => Some(a),
            (Some(a), Some(b)) => Some(a.spec_union(b)),
        }
    }
}

/// The bounding box of a list of objects, given the box of each: the union of
/// those that have one, or `None` where the list is empty or none has one.
pub fn list_bounding_box(boxes: &Vec<Option<BoundingBox>>) -> (r: Option<BoundingBox>)
    ensures
        r == union_of(boxes@),
{
    let mut acc: Option<BoundingBox> = None;
    let mut i: usize = 0;
    while i < boxes.len()
        invariant
            i <= boxes.len(),
            acc == union_of(boxes@.subrange(0, i as int)),
        decreases boxes.len() - i,
    {
        let next = boxes[i];
        proof {
            let s = boxes@.subrange(0, i + 1);
            assert(s.drop_last() =~= boxes@.subrange(0, i as int));
            assert(s.last() == next);
        }
        acc = match (acc, next) {
            (None, b) => b,
            (Some(a), None) => Some(a),
            (Some(a), Some(b)) => Some(a.union(&b)),
        };
        i = i + 1;
    }
    assert(boxes@.subrange(0, boxes.len() as int) =~= boxes@);
    acc
}

/// Enclosure is transitive.
pub proof fn lemma_encloses_trans(a: BoundingBox, b: BoundingBox, c: BoundingBox)
    requires
        a.encloses(b),
        b.encloses(c),
    ensures
        a.encloses(c),
{
    assert forall|i: int| 0 <= i < 3 implies a.min.at(i) <= #[trigger] c.min.at(i) && c.max.at(i)
        <= a.max.at(i) by {
        assert(a.min.at(i) <= b.min.at(i) && b.max.at(i) <= a.max.at(i));
        assert(b.min.at(i) <= c.min.at(i) && c.max.at(i) <= b.max.at(i));
    }
}

/// The box of a list encloses the box of each of its objects that has one.
pub proof fn lemma_union_of_encloses(s: Seq<Option<BoundingBox>>, k: int)
    requires
        0 <= k < s.len(),
        s[k].is_some(),
    ensures
        union_of(s).is_some(),
        union_of(s).unwrap().encloses(s[k].unwrap()),
    decreases s.len(),
{
    let init = s.drop_last();
    let bk = s[k].unwrap();
    if k < s.len() - 1 {
        assert(init[k] == s[k]);
        lemma_union_of_encloses(init, k);
        let a = union_of(init).unwrap();
        if let Some(b) = s.last() {
            lemma_union_encloses(a, b);
            lemma_encloses_trans(a.spec_union(b), a, bk);
        }
    } else {
        if let Some(a) = union_of(init) {
            lemma_union_encloses(a, bk);
        }
    }
}

} // verus!

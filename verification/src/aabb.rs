//! Axis-aligned bounding boxes. The coordinates are integers: positions on
//! a lattice whose spacing the caller chooses, so that unions, containment
//! and the ordering of boxes are exact.

use vstd::prelude::*;

verus! {

/// A point of the lattice.
#[derive(Clone, Copy, Debug, PartialEq, Eq, Structural)]
pub struct GridPoint {
    pub x: i64,
    pub y: i64,
    pub z: i64,
}

/// The smaller of two coordinates.
pub open spec fn lesser(a: i64, b: i64) -> i64 {
    if a <= b {
        a
    } else {
        b
    }
}

/// The larger of two coordinates.
pub open spec fn greater(a: i64, b: i64) -> i64 {
    if a >= b {
        a
    } else {
        b
    }
}

impl GridPoint {
    /// The coordinate along `axis`: 0 is x, 1 is y, and any other is z.
    pub open spec fn at(self, axis: int) -> i64 {
        if axis == 0 {
            self.x
        } else if axis == 1 {
            self.y
        } else {
            self.z
        }
    }

    /// Whether no coordinate of `self` is larger than that of `other`.
    pub open spec fn le(self, other: GridPoint) -> bool {
        self.x <= other.x && self.y <= other.y && self.z <= other.z
    }

    /// The point with the smaller coordinate of the two along each axis.
    pub open spec fn lower(self, other: GridPoint) -> GridPoint {
        GridPoint {
            x: lesser(self.x, other.x),
            y: lesser(self.y, other.y),
            z: lesser(self.z, other.z),
        }
    }

    /// The point with the larger coordinate of the two along each axis.
    pub open spec fn upper(self, other: GridPoint) -> GridPoint {
        GridPoint {
            x: greater(self.x, other.x),
            y: greater(self.y, other.y),
            z: greater(self.z, other.z),
        }
    }

    /// The point with the given coordinates.
    pub fn new(x: i64, y: i64, z: i64) -> (p: GridPoint)
        ensures
            p == (GridPoint { x, y, z }),
    {
        GridPoint { x, y, z }
    }

    /// The coordinate along `axis`.
    pub fn coord(&self, axis: usize) -> (c: i64)
        requires
            axis < 3,
        ensures
            c == self.at(axis as int),
    {
        if axis == 0 {
            self.x
        } else if axis == 1 {
            self.y
        } else {
            self.z
        }
    }
}

/// An axis-aligned box: the points between `min` and `max` along every
/// axis.
#[derive(Clone, Copy, Debug, PartialEq, Eq, Structural)]
pub struct AABB {
    pub min: GridPoint,
    pub max: GridPoint,
}

impl AABB {
    /// Whether `min` is not beyond `max` along any axis.
    pub open spec fn wf(self) -> bool {
        self.min.le(self.max)
    }

    /// The smallest box that holds both boxes.
    pub open spec fn surround(self, other: AABB) -> AABB {
        AABB { min: self.min.lower(other.min), max: self.max.upper(other.max) }
    }

    /// Whether `other` lies inside `self`.
    pub open spec fn encloses(self, other: AABB) -> bool {
        self.min.le(other.min) && other.max.le(self.max)
    }

    /// How far the box reaches along `axis`.
    pub open spec fn extent(self, axis: int) -> int {
        self.max.at(axis) - self.min.at(axis)
    }

    /// Twice the position of the middle of the box along `axis`.
    pub open spec fn centroid(self, axis: int) -> int {
        self.min.at(axis) + self.max.at(axis)
    }

    /// The box between `min` and `max`.
    pub fn new(min: GridPoint, max: GridPoint) -> (b: AABB)
        requires
            min.le(max),
        ensures
            b == (AABB { min, max }),
            b.wf(),
    {
        AABB { min, max }
    }

    /// The smallest box that holds `box0` and `box1`.
    pub fn from_surrounding(box0: AABB, box1: AABB) -> (b: AABB)
        ensures
            b == box0.surround(box1),
    {
        let small = GridPoint::new(
            smaller(box0.min.x, box1.min.x),
            smaller(box0.min.y, box1.min.y),
            smaller(box0.min.z, box1.min.z),
        );
        let big = GridPoint::new(
            larger(box0.max.x, box1.max.x),
            larger(box0.max.y, box1.max.y),
            larger(box0.max.z, box1.max.z),
        );
        AABB { min: small, max: big }
    }

    /// Twice the position of the middle of the box along `axis`.
    pub fn centroid_key(&self, axis: usize) -> (k: i128)
        requires
            axis < 3,
        ensures
            k == self.centroid(axis as int),
    {
        self.min.coord(axis) as i128 + self.max.coord(axis) as i128
    }
}

/// The smaller of `a` and `b`.
pub fn smaller(a: i64, b: i64) -> (m: i64)
    ensures
        m == lesser(a, b),
{
    if a <= b {
        a
    } else {
        b
    }
}

/// The larger of `a` and `b`.
pub fn larger(a: i64, b: i64) -> (m: i64)
    ensures
        m == greater(a, b),
{
    if a >= b {
        a
    } else {
        b
    }
}

/// The box around two boxes does not depend on their order.
pub proof fn lemma_surround_commutative(a: AABB, b: AABB)
    ensures
        a.surround(b) == b.surround(a),
{
}

/// The box around three boxes does not depend on how they are grouped.
pub proof fn lemma_surround_associative(a: AABB, b: AABB, c: AABB)
    ensures
        a.surround(b).surround(c) == a.surround(b.surround(c)),
{
}

/// The box around two boxes holds both, and is well formed where one of
/// them is.
pub proof fn lemma_surround_encloses(a: AABB, b: AABB)
    ensures
        a.surround(b).encloses(a),
        a.surround(b).encloses(b),
        a.wf() || b.wf() ==> a.surround(b).wf(),
{
}

/// A box holds itself, and what lies in a box lies in every box around it.
pub proof fn lemma_encloses_order(a: AABB, b: AABB, c: AABB)
    ensures
        a.encloses(a),
        a.encloses(b) && b.encloses(c) ==> a.encloses(c),
{
}

} // verus!

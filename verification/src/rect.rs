//! Axis-aligned rectangles, and the six of them that make a box. The
//! coordinates are of whatever type the caller measures in: they are moved
//! about here, never computed with.

use vstd::prelude::*;

verus! {

/// The two axes along which a rectangle reaches.
#[derive(Clone, Copy, Debug, PartialEq, Eq, Structural)]
pub enum Plane {
    /// Along x and y, at a fixed z.
    XY,
    /// Along x and z, at a fixed y.
    XZ,
    /// Along y and z, at a fixed x.
    YZ,
}

/// An axis-aligned rectangle: it reaches from `a0` to `a1` along the first
/// axis of its plane and from `b0` to `b1` along the second, at the
/// position `k` along the third axis.
#[derive(Debug)]
pub struct Side<T> {
    pub plane: Plane,
    pub a0: T,
    pub a1: T,
    pub b0: T,
    pub b1: T,
    pub k: T,
}

/// The six sides of the box between the corners `p0` and `p1`: for each
/// plane the side at the far corner, then the side at the near corner.
pub open spec fn sides_of<T>(p0: (T, T, T), p1: (T, T, T)) -> Seq<Side<T>> {
    seq![
        Side { plane: Plane::XY, a0: p0.0, a1: p1.0, b0: p0.1, b1: p1.1, k: p1.2 },
        Side { plane: Plane::XY, a0: p0.0, a1: p1.0, b0: p0.1, b1: p1.1, k: p0.2 },
        Side { plane: Plane::XZ, a0: p0.0, a1: p1.0, b0: p0.2, b1: p1.2, k: p1.1 },
        Side { plane: Plane::XZ, a0: p0.0, a1: p1.0, b0: p0.2, b1: p1.2, k: p0.1 },
        Side { plane: Plane::YZ, a0: p0.1, a1: p1.1, b0: p0.2, b1: p1.2, k: p1.0 },
        Side { plane: Plane::YZ, a0: p0.1, a1: p1.1, b0: p0.2, b1: p1.2, k: p0.0 },
    ]
}

/// The six sides of the box between the corners `p0` and `p1`.
pub fn box_sides<T: Copy>(p0: (T, T, T), p1: (T, T, T)) -> (sides: Vec<Side<T>>)
    ensures
        sides@ == sides_of(p0, p1),
{
    let mut sides: Vec<Side<T>> = Vec::new();
    sides.push(Side { plane: Plane::XY, a0: p0.0, a1: p1.0, b0: p0.1, b1: p1.1, k: p1.2 });
    sides.push(Side { plane: Plane::XY, a0: p0.0, a1: p1.0, b0: p0.1, b1: p1.1, k: p0.2 });
    sides.push(Side { plane: Plane::XZ, a0: p0.0, a1: p1.0, b0: p0.2, b1: p1.2, k: p1.1 });
    sides.push(Side { plane: Plane::XZ, a0: p0.0, a1: p1.0, b0: p0.2, b1: p1.2, k: p0.1 });
    sides.push(Side { plane: Plane::YZ, a0: p0.1, a1: p1.1, b0: p0.2, b1: p1.2, k: p1.0 });
    sides.push(Side { plane: Plane::YZ, a0: p0.1, a1: p1.1, b0: p0.2, b1: p1.2, k: p0.0 });
    assert(sides@ =~= sides_of(p0, p1));
    sides
}

} // verus!

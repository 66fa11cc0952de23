//! Geometry primitives: the affine transform produced by an
//! [`Orientation`], its application to points, and its exact inversion.
//!
//! The eight orientation transforms (two reflection states times four
//! rotations) form a dihedral group; inversion is a table lookup over those
//! eight integer matrices, never a numeric solve.

use crate::point::Point;
use crate::schematic::{Orientation, Rotation};
use vstd::prelude::*;

verus! {

/// An exact-integer linear transform of the plane:
/// `x' = a*x + b*y`, `y' = c*x + d*y`.
#[derive(Clone, Copy, PartialEq, Eq, Structural, Debug)]
pub struct Transform {
    pub a: i64,
    pub b: i64,
    pub c: i64,
    pub d: i64,
}

/// The transform of an orientation: reflect across the x axis first
/// (`y' = -y`), then rotate clockwise by the 90 degree multiple.
pub open spec fn spec_compose(o: Orientation) -> Transform {
    if o.reflected {
        match o.rotation {
            Rotation::R0 => Transform { a: 1, b: 0, c: 0, d: -1i64 },
            Rotation::R90 => Transform { a: 0, b: 1, c: 1, d: 0 },
            Rotation::R180 => Transform { a: -1i64, b: 0, c: 0, d: 1 },
            Rotation::R270 => Transform { a: 0, b: -1i64, c: -1i64, d: 0 },
        }
    } else {
        match o.rotation {
            Rotation::R0 => Transform { a: 1, b: 0, c: 0, d: 1 },
            Rotation::R90 => Transform { a: 0, b: -1i64, c: 1, d: 0 },
            Rotation::R180 => Transform { a: -1i64, b: 0, c: 0, d: -1i64 },
            Rotation::R270 => Transform { a: 0, b: 1, c: -1i64, d: 0 },
        }
    }
}

/// Table lookup inverting [`spec_compose`]: the orientation whose transform
/// is `t`, or `None` if `t` is not one of the eight orientation transforms.
pub open spec fn spec_invert(t: Transform) -> Option<Orientation> {
    if t == (Transform { a: 1, b: 0, c: 0, d: 1 }) {
        Some(Orientation { reflected: false, rotation: Rotation::R0 })
    } else if t == (Transform { a: 0, b: -1i64, c: 1, d: 0 }) {
        Some(Orientation { reflected: false, rotation: Rotation::R90 })
    } else if t == (Transform { a: -1i64, b: 0, c: 0, d: -1i64 }) {
        Some(Orientation { reflected: false, rotation: Rotation::R180 })
    } else if t == (Transform { a: 0, b: 1, c: -1i64, d: 0 }) {
        Some(Orientation { reflected: false, rotation: Rotation::R270 })
    } else if t == (Transform { a: 1, b: 0, c: 0, d: -1i64 }) {
        Some(Orientation { reflected: true, rotation: Rotation::R0 })
    } else if t == (Transform { a: 0, b: 1, c: 1, d: 0 }) {
        Some(Orientation { reflected: true, rotation: Rotation::R90 })
    } else if t == (Transform { a: -1i64, b: 0, c: 0, d: 1 }) {
        Some(Orientation { reflected: true, rotation: Rotation::R180 })
    } else if t == (Transform { a: 0, b: -1i64, c: -1i64, d: 0 }) {
        Some(Orientation { reflected: true, rotation: Rotation::R270 })
    } else {
        None
    }
}

/// `t` is the transform of some orientation.
pub open spec fn is_orientation_transform(t: Transform) -> bool {
    spec_invert(t) is Some
}

/// The image of `p` under `t`, as exact integers.
pub open spec fn spec_apply(t: Transform, p: Point) -> Point {
    Point { x: (t.a * p.x + t.b * p.y) as i64, y: (t.c * p.x + t.d * p.y) as i64 }
}

/// Build the transform of an orientation: reflection first, rotation second.
pub fn compose(o: Orientation) -> (t: Transform)
    ensures
        t == spec_compose(o),
{
    if o.reflected {
        match o.rotation {
            Rotation::R0 => Transform { a: 1, b: 0, c: 0, d: -1i64 },
            Rotation::R90 => Transform { a: 0, b: 1, c: 1, d: 0 },
            Rotation::R180 => Transform { a: -1i64, b: 0, c: 0, d: 1 },
            Rotation::R270 => Transform { a: 0, b: -1i64, c: -1i64, d: 0 },
        }
    } else {
        match o.rotation {
            Rotation::R0 => Transform { a: 1, b: 0, c: 0, d: 1 },
            Rotation::R90 => Transform { a: 0, b: -1i64, c: 1, d: 0 },
            Rotation::R180 => Transform { a: -1i64, b: 0, c: 0, d: -1i64 },
            Rotation::R270 => Transform { a: 0, b: 1, c: -1i64, d: 0 },
        }
    }
}

/// Apply an orientation transform to a point.
///
/// The transform must come from an orientation, so each result component is
/// one of `x`, `-x`, `y`, `-y`; excluding `i64::MIN` keeps the negations in
/// range.
pub fn apply(t: Transform, p: Point) -> (q: Point)
    requires
        is_orientation_transform(t),
        p.x > i64::MIN,
        p.y > i64::MIN,
    ensures
        q == spec_apply(t, p),
{
    Point { x: t.a * p.x + t.b * p.y, y: t.c * p.x + t.d * p.y }
}

/// Recover the exact `(reflected, rotation)` pair whose transform is `t`.
pub fn invert(t: Transform) -> (r: Option<Orientation>)
    ensures
        r == spec_invert(t),
{
    if t.a == 1 && t.b == 0 && t.c == 0 && t.d == 1 {
        Some(Orientation { reflected: false, rotation: Rotation::R0 })
    } else if t.a == 0 && t.b == -1 && t.c == 1 && t.d == 0 {
        Some(Orientation { reflected: false, rotation: Rotation::R90 })
    } else if t.a == -1 && t.b == 0 && t.c == 0 && t.d == -1 {
        Some(Orientation { reflected: false, rotation: Rotation::R180 })
    } else if t.a == 0 && t.b == 1 && t.c == -1 && t.d == 0 {
        Some(Orientation { reflected: false, rotation: Rotation::R270 })
    } else if t.a == 1 && t.b == 0 && t.c == 0 && t.d == -1 {
        Some(Orientation { reflected: true, rotation: Rotation::R0 })
    } else if t.a == 0 && t.b == 1 && t.c == 1 && t.d == 0 {
        Some(Orientation { reflected: true, rotation: Rotation::R90 })
    } else if t.a == -1 && t.b == 0 && t.c == 0 && t.d == 1 {
        Some(Orientation { reflected: true, rotation: Rotation::R180 })
    } else if t.a == 0 && t.b == -1 && t.c == -1 && t.d == 0 {
        Some(Orientation { reflected: true, rotation: Rotation::R270 })
    } else {
        None
    }
}

/// Group closure: inverting the transform composed from any of the eight
/// orientations recovers exactly that orientation.
pub proof fn lemma_invert_compose(o: Orientation)
    ensures
        spec_invert(spec_compose(o)) == Some(o),
{
}

/// Soundness of the inversion table: whenever inversion succeeds, composing
/// the recovered orientation reproduces the transform.
pub proof fn lemma_compose_invert(t: Transform)
    requires
        spec_invert(t) is Some,
    ensures
        spec_compose(spec_invert(t)->Some_0) == t,
{
}

} // verus!

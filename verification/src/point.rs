use vstd::prelude::*;

verus! {

/// An integer point on the schematic canvas: absolute coordinates, wire
/// vertices and the canvas extent are all `Point`s.
#[derive(Clone, Copy, PartialEq, Eq, Structural, Debug)]
pub struct Point {
    pub x: i64,
    pub y: i64,
}

impl Point {
    pub fn new(x: i64, y: i64) -> (p: Point)
        ensures
            p == (Point { x, y }),
    {
        Point { x, y }
    }
}

} // verus!

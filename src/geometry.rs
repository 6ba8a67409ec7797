use vstd::prelude::*;

verus! {

/// Largest magnitude of a coordinate on the planning grid.
pub const PLANE_LIMIT: i64 = 1048576;

/// A point of the plane, in whole grid units.
#[derive(Clone, Copy, Debug, PartialEq, Eq, Structural)]
pub struct Point {
    pub x: i64,
    pub y: i64,
}

/// Whether a point lies on the workable part of the grid.
pub open spec fn in_plane(p: Point) -> bool {
    -PLANE_LIMIT <= p.x <= PLANE_LIMIT && -PLANE_LIMIT <= p.y <= PLANE_LIMIT
}

/// Squared Euclidean distance between two points.
pub open spec fn dist_sq(a: Point, b: Point) -> int {
    (a.x - b.x) * (a.x - b.x) + (a.y - b.y) * (a.y - b.y)
}

impl Point {
    pub fn new(x: i64, y: i64) -> (r: Point)
        ensures
            r == (Point { x, y }),
    {
        Point { x, y }
    }
}

} // verus!

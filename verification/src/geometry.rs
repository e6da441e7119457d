//! The geometry value types: `Point`, `LineString`, `Polygon`.
//!
//! Construction performs no validation; each operation states the bounds it
//! needs. Coordinates are bounded by `MAX_COORD` wherever an operation does
//! arithmetic on them, which keeps every intermediate product inside the
//! machine integer types.

use vstd::prelude::*;

verus! {

/// Largest coordinate magnitude (and offset distance) the operations accept.
/// With all coordinates in `[-MAX_COORD, MAX_COORD]`, a cross product of two
/// coordinate differences stays within `8 * 10^18 < i64::MAX`.
pub const MAX_COORD: i64 = 1_000_000_000;

/// An immutable planar point with exact integer (fixed-point) coordinates.
#[derive(Clone, Copy, PartialEq, Eq, Structural, Debug)]
pub struct Point {
    pub x: i64,
    pub y: i64,
}

/// Whether both coordinates of `p` lie within the accepted range.
pub open spec fn point_in_range(p: Point) -> bool {
    &&& -MAX_COORD <= p.x <= MAX_COORD
    &&& -MAX_COORD <= p.y <= MAX_COORD
}

/// Whether every point of the sequence lies within the accepted range.
pub open spec fn seq_in_range(s: Seq<Point>) -> bool {
    forall|i: int| 0 <= i < s.len() ==> point_in_range(#[trigger] s[i])
}

impl Point {
    /// Construct a point from its two coordinates. No validation is done.
    pub fn new(x: i64, y: i64) -> (p: Point)
        ensures
            p.x == x,
            p.y == y,
    {
        Point { x, y }
    }
}

/// An ordered sequence of points; may be open or implicitly closed depending
/// on the consuming operation.
pub struct LineString {
    pub points: Vec<Point>,
}

impl View for LineString {
    type V = Seq<Point>;

    open spec fn view(&self) -> Seq<Point> {
        self.points@
    }
}

impl LineString {
    /// Construct a line string from an ordered sequence of points; order is
    /// significant (insertion order is path/ring order). No validation.
    pub fn new(points: Vec<Point>) -> (ls: LineString)
        ensures
            ls@ == points@,
    {
        LineString { points }
    }

    /// Number of vertices.
    pub fn len(&self) -> (n: usize)
        ensures
            n == self@.len(),
    {
        self.points.len()
    }
}

/// A polygon: one exterior ring plus zero or more interior rings (holes).
/// The holes are carried structurally; the operations here work on the
/// exterior ring only.
pub struct Polygon {
    pub exterior: LineString,
    pub interiors: Vec<LineString>,
}

impl Polygon {
    /// Construct a polygon from an exterior ring and a (possibly empty)
    /// collection of interior rings. No validation.
    pub fn new(exterior: LineString, interiors: Vec<LineString>) -> (p: Polygon)
        ensures
            p.exterior@ == exterior@,
            p.interiors@ == interiors@,
    {
        Polygon { exterior, interiors }
    }
}

} // verus!

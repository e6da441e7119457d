//! Point-in-polygon containment by the ray-casting (even-odd) rule.
//!
//! A conceptual horizontal ray runs from the query point towards positive
//! `x`; the point is inside iff it crosses an odd number of edges of the
//! implicitly closed exterior ring. Over integer coordinates the crossing
//! test is exact: the division of the usual slope form is cleared by
//! cross-multiplication, so classification is fully deterministic. A ring
//! with fewer than three vertices contains nothing. Interior rings are
//! ignored.

use vstd::prelude::*;

use crate::area::next_idx;
use crate::geometry::Point;
use crate::geometry::Polygon;
use crate::geometry::point_in_range;
use crate::geometry::seq_in_range;

verus! {

/// Whether the edge from `a` to `b` crosses the horizontal ray from `p`
/// towards positive `x`. The half-open vertical range (`>` against both
/// endpoints) counts an edge touching the ray at a vertex exactly once.
pub open spec fn edge_crosses(p: Point, a: Point, b: Point) -> bool {
    &&& ((a.y > p.y) != (b.y > p.y))
    &&& if b.y > a.y {
        (p.x - a.x) * (b.y - a.y) < (b.x - a.x) * (p.y - a.y)
    } else {
        (p.x - a.x) * (b.y - a.y) > (b.x - a.x) * (p.y - a.y)
    }
}

/// Number of edges among the first `k` of the implicitly closed ring `s`
/// that the ray from `p` crosses.
pub open spec fn crossings_upto(p: Point, s: Seq<Point>, k: int) -> int
    decreases k,
{
    if k <= 0 {
        0
    } else {
        crossings_upto(p, s, k - 1) + if edge_crosses(
            p,
            s[k - 1],
            s[next_idx(s.len() as int, k - 1)],
        ) {
            1int
        } else {
            0int
        }
    }
}

/// The even-odd containment rule: `p` is inside the ring `s` iff the ring
/// has at least three vertices and the ray from `p` crosses its edges an
/// odd number of times.
pub open spec fn inside(p: Point, s: Seq<Point>) -> bool {
    s.len() >= 3 && crossings_upto(p, s, s.len() as int) % 2 == 1
}

/// Whether `point` lies within the polygon's exterior ring, by the
/// even-odd rule. Always `false` for a ring with fewer than three
/// vertices.
pub fn contains(point: Point, polygon: &Polygon) -> (r: bool)
    requires
        point_in_range(point),
        seq_in_range(polygon.exterior@),
    ensures
        r == inside(point, polygon.exterior@),
        polygon.exterior@.len() < 3 ==> r == false,
{
    let points = &polygon.exterior.points;
    let n = points.len();
    if n < 3 {
        return false;
    }
    let mut count: usize = 0;
    let mut i: usize = 0;
    while i < n
        invariant
            i <= n,
            3 <= n == points@.len(),
            point_in_range(point),
            seq_in_range(points@),
            count == crossings_upto(point, points@, i as int),
            count <= i,
        decreases n - i,
    {
        let a = points[i];
        let b = if i + 1 == n {
            points[0]
        } else {
            points[i + 1]
        };
        assert(b == points@[next_idx(points@.len() as int, i as int)]);
        if (a.y > point.y) != (b.y > point.y) {
            assert((point.x - a.x) * (b.y - a.y) <= 4_000_000_000_000_000_000 && (point.x - a.x) * (
            b.y - a.y) >= -4_000_000_000_000_000_000) by (nonlinear_arith)
                requires
                    -2_000_000_000 <= point.x - a.x <= 2_000_000_000,
                    -2_000_000_000 <= b.y - a.y <= 2_000_000_000,
            ;
            assert((b.x - a.x) * (point.y - a.y) <= 4_000_000_000_000_000_000 && (b.x - a.x) * (
            point.y - a.y) >= -4_000_000_000_000_000_000) by (nonlinear_arith)
                requires
                    -2_000_000_000 <= b.x - a.x <= 2_000_000_000,
                    -2_000_000_000 <= point.y - a.y <= 2_000_000_000,
            ;
            let lhs: i64 = (point.x - a.x) * (b.y - a.y);
            let rhs: i64 = (b.x - a.x) * (point.y - a.y);
            let crossed = if b.y > a.y {
                lhs < rhs
            } else {
                lhs > rhs
            };
            if crossed {
                count = count + 1;
            }
        }
        i = i + 1;
    }
    count % 2 == 1
}

} // verus!

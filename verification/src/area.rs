//! Unsigned area of a polygon's exterior ring, by the shoelace formula.
//!
//! The ring is treated as implicitly closed: the edge from the last vertex
//! back to the first is always included. `double_area` returns twice the
//! area, which over integer coordinates is an exact integer (the area
//! itself may be a half-integer). Interior rings are not subtracted.
//!
//! The lemmas state the invariance laws of the formula: the area does not
//! change under a cyclic rotation of the starting vertex nor under
//! reversing the vertex order, and a ring with two or fewer vertices has
//! area zero.

use vstd::prelude::*;
use vstd::math::abs;

use crate::geometry::Point;
use crate::geometry::Polygon;
use crate::geometry::seq_in_range;

verus! {

/// Cross product of the position vectors of `a` and `b`; one term of the
/// shoelace sum.
pub open spec fn cross(a: Point, b: Point) -> int {
    a.x * b.y - b.x * a.y
}

/// Successor of index `i` on a ring of `len` vertices.
pub open spec fn next_idx(len: int, i: int) -> int {
    if i + 1 == len {
        0
    } else {
        i + 1
    }
}

/// The shoelace term of the edge leaving vertex `i` of the implicitly
/// closed ring `s`.
pub open spec fn edge_term(s: Seq<Point>, i: int) -> int {
    cross(s[i], s[next_idx(s.len() as int, i)])
}

/// Sum of the first `k` edge terms of the implicitly closed ring `s`.
pub open spec fn shoelace_upto(s: Seq<Point>, k: int) -> int
    decreases k,
{
    if k <= 0 {
        0
    } else {
        shoelace_upto(s, k - 1) + edge_term(s, k - 1)
    }
}

/// The full shoelace sum of the ring `s`: twice its signed area.
pub open spec fn shoelace(s: Seq<Point>) -> int {
    shoelace_upto(s, s.len() as int)
}

/// Twice the unsigned area of the ring `s`.
pub open spec fn double_area_spec(s: Seq<Point>) -> int {
    abs(shoelace(s)) as int
}

/// A ring with two or fewer vertices has area zero: with one vertex the
/// only edge term is `cross(p, p) == 0`, and with two the two edge terms
/// cancel.
pub proof fn lemma_area_degenerate(s: Seq<Point>)
    requires
        s.len() <= 2,
    ensures
        shoelace(s) == 0,
        double_area_spec(s) == 0,
{
    assert(shoelace_upto(s, 0) == 0);
    if s.len() == 1 {
        assert(shoelace_upto(s, 1) == shoelace_upto(s, 0) + edge_term(s, 0));
        assert(edge_term(s, 0) == cross(s[0], s[0]));
    }
    if s.len() == 2 {
        assert(shoelace_upto(s, 1) == shoelace_upto(s, 0) + edge_term(s, 0));
        assert(shoelace_upto(s, 2) == shoelace_upto(s, 1) + edge_term(s, 1));
        assert(edge_term(s, 0) == cross(s[0], s[1]));
        assert(edge_term(s, 1) == cross(s[1], s[0]));
    }
}

/// The ring `s` rotated left by one position.
pub open spec fn rotate1(s: Seq<Point>) -> Seq<Point> {
    s.subrange(1, s.len() as int) + s.subrange(0, 1)
}

/// Prefix sums of a once-rotated ring, shifted by the first edge term.
proof fn lemma_rotate1_prefix(s: Seq<Point>, k: int)
    requires
        1 <= s.len(),
        0 <= k <= s.len() - 1,
    ensures
        shoelace_upto(rotate1(s), k) == shoelace_upto(s, k + 1) - edge_term(s, 0),
    decreases k,
{
    let t = rotate1(s);
    let n = s.len() as int;
    assert(t.len() == n);
    if k == 0 {
        assert(shoelace_upto(t, 0) == 0);
        assert(shoelace_upto(s, 1) == shoelace_upto(s, 0) + edge_term(s, 0));
    } else {
        lemma_rotate1_prefix(s, k - 1);
        // The edge leaving rotated vertex k-1 is the edge leaving vertex k
        // of s.
        assert(t[k - 1] == s[k]);
        assert(t[next_idx(n, k - 1)] == s[next_idx(n, k)]);
        assert(edge_term(t, k - 1) == edge_term(s, k));
        assert(shoelace_upto(t, k) == shoelace_upto(t, k - 1) + edge_term(t, k - 1));
        assert(shoelace_upto(s, k + 1) == shoelace_upto(s, k) + edge_term(s, k));
    }
}

/// Rotating the starting vertex by one position keeps the shoelace sum.
pub proof fn lemma_shoelace_rotate1(s: Seq<Point>)
    requires
        1 <= s.len(),
    ensures
        shoelace(rotate1(s)) == shoelace(s),
{
    let t = rotate1(s);
    let n = s.len() as int;
    lemma_rotate1_prefix(s, n - 1);
    // The closing edge of the rotated ring is the first edge of s.
    assert(t[n - 1] == s[0]);
    assert(t[next_idx(n, n - 1)] == s[next_idx(n, 0)]);
    assert(edge_term(t, n - 1) == edge_term(s, 0));
    assert(shoelace_upto(t, n) == shoelace_upto(t, n - 1) + edge_term(t, n - 1));
    assert(shoelace_upto(s, n) == shoelace_upto(s, n - 1) + edge_term(s, n - 1));
}

/// The area is invariant under relabeling the ring's starting vertex: the
/// ring rotated left by any `k` has the same shoelace sum, hence the same
/// area.
pub proof fn lemma_area_rotation(s: Seq<Point>, k: int)
    requires
        0 <= k <= s.len(),
    ensures
        shoelace(s.subrange(k, s.len() as int) + s.subrange(0, k)) == shoelace(s),
        double_area_spec(s.subrange(k, s.len() as int) + s.subrange(0, k)) == double_area_spec(s),
    decreases k,
{
    let n = s.len() as int;
    if k == 0 {
        assert(s.subrange(0, n) + s.subrange(0, 0) =~= s);
    } else {
        lemma_area_rotation(s, k - 1);
        let t = s.subrange(k - 1, n) + s.subrange(0, k - 1);
        assert(t.len() == n >= 1);
        lemma_shoelace_rotate1(t);
        assert(rotate1(t) =~= s.subrange(k, n) + s.subrange(0, k));
    }
}

/// Prefix sums of a reversed ring: partial sums of `s` taken from the far
/// end, negated.
proof fn lemma_reverse_prefix(s: Seq<Point>, k: int)
    requires
        1 <= s.len(),
        0 <= k <= s.len() - 1,
    ensures
        shoelace_upto(s.reverse(), k) == -(shoelace_upto(s, s.len() - 1) - shoelace_upto(
            s,
            s.len() - 1 - k,
        )),
    decreases k,
{
    let t = s.reverse();
    let n = s.len() as int;
    assert(t.len() == n);
    if k == 0 {
        assert(shoelace_upto(t, 0) == 0);
    } else {
        lemma_reverse_prefix(s, k - 1);
        // The edge leaving reversed vertex k-1 is the edge leaving vertex
        // n-1-k of s, traversed backwards.
        assert(t[k - 1] == s[n - k]);
        assert(t[next_idx(n, k - 1)] == s[n - 1 - k]);
        assert(edge_term(t, k - 1) == cross(s[n - k], s[n - 1 - k]));
        assert(edge_term(s, n - 1 - k) == cross(s[n - 1 - k], s[n - k]));
        assert(shoelace_upto(t, k) == shoelace_upto(t, k - 1) + edge_term(t, k - 1));
        assert(shoelace_upto(s, n - k) == shoelace_upto(s, n - 1 - k) + edge_term(s, n - 1 - k));
    }
}

/// Reversing the vertex order negates the shoelace sum, so the unsigned
/// area is unchanged.
pub proof fn lemma_area_reverse(s: Seq<Point>)
    ensures
        shoelace(s.reverse()) == -shoelace(s),
        double_area_spec(s.reverse()) == double_area_spec(s),
{
    let t = s.reverse();
    let n = s.len() as int;
    if n == 0 {
        assert(t.len() == 0);
    } else {
        lemma_reverse_prefix(s, n - 1);
        // The closing edge of the reversed ring is the closing edge of s,
        // traversed backwards.
        assert(t[n - 1] == s[0]);
        assert(t[next_idx(n, n - 1)] == s[n - 1]);
        assert(edge_term(t, n - 1) == cross(s[0], s[n - 1]));
        assert(edge_term(s, n - 1) == cross(s[n - 1], s[0]));
        assert(shoelace_upto(t, n) == shoelace_upto(t, n - 1) + edge_term(t, n - 1));
        assert(shoelace_upto(s, n) == shoelace_upto(s, n - 1) + edge_term(s, n - 1));
    }
}

/// Twice the unsigned area of the polygon's exterior ring, exactly.
/// Interior rings are not subtracted.
pub fn double_area(polygon: &Polygon) -> (a2: u128)
    requires
        seq_in_range(polygon.exterior@),
    ensures
        a2 == double_area_spec(polygon.exterior@),
        polygon.exterior@.len() <= 2 ==> a2 == 0,
{
    let points = &polygon.exterior.points;
    let n = points.len();
    let mut acc: i128 = 0;
    let mut i: usize = 0;
    while i < n
        invariant
            i <= n,
            n == points@.len(),
            seq_in_range(points@),
            acc == shoelace_upto(points@, i as int),
            -(i as int) * 2_000_000_000_000_000_000 <= acc <= (i as int)
                * 2_000_000_000_000_000_000,
        decreases n - i,
    {
        let p = points[i];
        let q = if i + 1 == n {
            points[0]
        } else {
            points[i + 1]
        };
        assert(q == points@[next_idx(points@.len() as int, i as int)]);
        assert(p.x * q.y <= 1_000_000_000_000_000_000 && p.x * q.y >= -1_000_000_000_000_000_000)
            by (nonlinear_arith)
            requires
                -1_000_000_000 <= p.x <= 1_000_000_000,
                -1_000_000_000 <= q.y <= 1_000_000_000,
        ;
        assert(q.x * p.y <= 1_000_000_000_000_000_000 && q.x * p.y >= -1_000_000_000_000_000_000)
            by (nonlinear_arith)
            requires
                -1_000_000_000 <= q.x <= 1_000_000_000,
                -1_000_000_000 <= p.y <= 1_000_000_000,
        ;
        let t: i64 = p.x * q.y - q.x * p.y;
        assert((i as int) * 2_000_000_000_000_000_000 + 2_000_000_000_000_000_000 == ((i + 1) as int)
            * 2_000_000_000_000_000_000) by (nonlinear_arith);
        acc = acc + (t as i128);
        i = i + 1;
    }
    proof {
        if points@.len() <= 2 {
            lemma_area_degenerate(points@);
        }
    }
    if acc < 0 {
        (-acc) as u128
    } else {
        acc as u128
    }
}

} // verus!

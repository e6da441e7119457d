//! Polygon buffering: an offset outline of a path at a fixed perpendicular
//! distance.
//!
//! Join strategy: bevel joins with butt caps. Each segment is offset
//! sideways by the perpendicular distance on both sides; consecutive offset
//! segments are connected directly (bevel), and the outline runs down one
//! side of the path and back up the other, closing implicitly. The sign of
//! the requested distance is ignored: buffering is symmetric, so only the
//! magnitude matters. Offset vectors are rounded towards zero on the
//! integer grid, so every outline vertex lies at distance at most `d` from
//! the input vertex it was offset from; at distance zero the outline's
//! vertices are exactly the input vertices, traversed forward and then
//! backward. An empty or single-point path yields an empty outline.

use vstd::prelude::*;
use vstd::arithmetic::div_mod::lemma_fundamental_div_mod;
use vstd::arithmetic::div_mod::lemma_mod_bound;

use crate::arith::isqrt;
use crate::arith::lemma_sqrt_floor_zero;
use crate::arith::sqrt_floor;
use crate::distance::dist_sq;
use crate::geometry::LineString;
use crate::geometry::MAX_COORD;
use crate::geometry::Point;
use crate::geometry::Polygon;
use crate::geometry::point_in_range;
use crate::geometry::seq_in_range;

verus! {

/// The magnitude of the requested offset distance.
pub open spec fn mag(d: int) -> int {
    if d < 0 {
        -d
    } else {
        d
    }
}

/// Squared length of the segment from `a` to `b`.
pub open spec fn seg_len2(a: Point, b: Point) -> int {
    (b.x - a.x) * (b.x - a.x) + (b.y - a.y) * (b.y - a.y)
}

/// The `x` component of the offset vector of the segment from `a` to `b`
/// at distance `d >= 0`: the right-hand normal `(dy, -dx)` scaled to
/// length at most `d`, each component rounded towards zero. A zero-length
/// segment gets a zero offset.
pub open spec fn offset_x(a: Point, b: Point, d: int) -> int {
    let dy = b.y - a.y;
    if seg_len2(a, b) == 0 {
        0
    } else {
        let m = sqrt_floor(((dy * d) * (dy * d)) / seg_len2(a, b));
        if dy >= 0 {
            m
        } else {
            -m
        }
    }
}

/// The `y` component of the offset vector; see `offset_x`.
pub open spec fn offset_y(a: Point, b: Point, d: int) -> int {
    let dx = b.x - a.x;
    if seg_len2(a, b) == 0 {
        0
    } else {
        let m = sqrt_floor(((dx * d) * (dx * d)) / seg_len2(a, b));
        if dx >= 0 {
            -m
        } else {
            m
        }
    }
}

/// Whether point `p` has exactly the coordinates `c`.
pub open spec fn pt_eq(p: Point, c: (int, int)) -> bool {
    p.x == c.0 && p.y == c.1
}

/// The outline vertex at position `j` of the forward (left) side: offset
/// copies of the endpoints of segment `j / 2`.
pub open spec fn left_pt(s: Seq<Point>, j: int, d: int) -> (int, int) {
    let i = j / 2;
    let ox = offset_x(s[i], s[i + 1], d);
    let oy = offset_y(s[i], s[i + 1], d);
    if j % 2 == 0 {
        (s[i].x + ox, s[i].y + oy)
    } else {
        (s[i + 1].x + ox, s[i + 1].y + oy)
    }
}

/// The outline vertex at position `j` of the backward (right) side: offset
/// copies of the endpoints of segment `s.len() - 2 - (j - 2*(s.len()-1))/2`,
/// visited in reverse.
pub open spec fn right_pt(s: Seq<Point>, j: int, d: int) -> (int, int) {
    let u = (j - 2 * (s.len() - 1)) / 2;
    let i = s.len() - 2 - u;
    let ox = offset_x(s[i], s[i + 1], d);
    let oy = offset_y(s[i], s[i + 1], d);
    if (j - 2 * (s.len() - 1)) % 2 == 0 {
        (s[i + 1].x - ox, s[i + 1].y - oy)
    } else {
        (s[i].x - ox, s[i].y - oy)
    }
}

/// Whether `p` lies within squared distance `dd` of some vertex of `s`.
pub open spec fn near_some_vertex(p: Point, s: Seq<Point>, dd: int) -> bool {
    exists|j: int| 0 <= j < s.len() && dist_sq(p, s[j]) <= dd
}

/// Whether `p` has exactly the coordinates of some vertex of `s`.
pub open spec fn coincides_with_some(p: Point, s: Seq<Point>) -> bool {
    exists|i: int| 0 <= i < s.len() && p.x == s[i].x && p.y == s[i].y
}

/// The offset vector has length at most `d`: the squared norm of
/// `(offset_x, offset_y)` is at most `d * d`.
pub proof fn lemma_offset_within(a: Point, b: Point, d: int)
    requires
        0 <= d,
    ensures
        0 <= offset_x(a, b, d) * offset_x(a, b, d) + offset_y(a, b, d) * offset_y(a, b, d) <= d
            * d,
{
    let dx = b.x - a.x;
    let dy = b.y - a.y;
    let lsq = seg_len2(a, b);
    assert(dx * dx >= 0 && dy * dy >= 0 && d * d >= 0) by (nonlinear_arith);
    if lsq == 0 {
        assert(offset_x(a, b, d) == 0 && offset_y(a, b, d) == 0);
    } else {
        let ay = (dy * d) * (dy * d);
        let ax = (dx * d) * (dx * d);
        let qx = ay / lsq;
        let qy = ax / lsq;
        assert((dy * d) * (dy * d) >= 0 && (dx * d) * (dx * d) >= 0) by (nonlinear_arith);
        lemma_fundamental_div_mod(ay, lsq);
        lemma_fundamental_div_mod(ax, lsq);
        lemma_mod_bound(ay, lsq);
        lemma_mod_bound(ax, lsq);
        assert(lsq * qx <= ay);
        assert(lsq * qy <= ax);
        crate::arith::lemma_sqrt_floor(qx);
        crate::arith::lemma_sqrt_floor(qy);
        let m1 = sqrt_floor(qx);
        let m2 = sqrt_floor(qy);
        assert(lsq * (m1 * m1) <= lsq * qx) by (nonlinear_arith)
            requires
                m1 * m1 <= qx,
                lsq > 0,
        ;
        assert(lsq * (m2 * m2) <= lsq * qy) by (nonlinear_arith)
            requires
                m2 * m2 <= qy,
                lsq > 0,
        ;
        assert(ay + ax == lsq * (d * d)) by (nonlinear_arith)
            requires
                ay == (dy * d) * (dy * d),
                ax == (dx * d) * (dx * d),
                lsq == dx * dx + dy * dy,
        ;
        assert(m1 * m1 + m2 * m2 <= d * d) by (nonlinear_arith)
            requires
                lsq * (m1 * m1) + lsq * (m2 * m2) <= lsq * (d * d),
                lsq > 0,
        ;
        assert(offset_x(a, b, d) * offset_x(a, b, d) == m1 * m1) by (nonlinear_arith)
            requires
                offset_x(a, b, d) == m1 || offset_x(a, b, d) == -m1,
        ;
        assert(offset_y(a, b, d) * offset_y(a, b, d) == m2 * m2) by (nonlinear_arith)
            requires
                offset_y(a, b, d) == m2 || offset_y(a, b, d) == -m2,
        ;
        assert(m1 * m1 >= 0 && m2 * m2 >= 0) by (nonlinear_arith);
    }
}

/// At distance zero the offset vector vanishes.
pub proof fn lemma_offset_zero(a: Point, b: Point)
    ensures
        offset_x(a, b, 0) == 0,
        offset_y(a, b, 0) == 0,
{
    let lsq = seg_len2(a, b);
    if lsq != 0 {
        let dx = b.x - a.x;
        let dy = b.y - a.y;
        assert((dy * 0) * (dy * 0) == 0) by (nonlinear_arith);
        assert((dx * 0) * (dx * 0) == 0) by (nonlinear_arith);
        assert(lsq > 0) by (nonlinear_arith)
            requires
                lsq == dx * dx + dy * dy,
                lsq != 0,
        ;
        assert(0int / lsq == 0) by (nonlinear_arith)
            requires
                lsq > 0,
        ;
        lemma_sqrt_floor_zero();
    }
}

/// Every input vertex is within the offset distance of an outline vertex:
/// its offset copy on the forward side of the outline.
proof fn lemma_outline_near(s: Seq<Point>, out: Seq<Point>, dd: int)
    requires
        2 <= s.len(),
        0 <= dd,
        out.len() == 4 * (s.len() - 1),
        forall|j: int| 0 <= j < 2 * (s.len() - 1) ==> pt_eq(#[trigger] out[j], left_pt(s, j, dd)),
    ensures
        forall|i: int| 0 <= i < s.len() ==> near_some_vertex(#[trigger] s[i], out, dd * dd),
{
    let m = s.len() as int;
    assert forall|i0: int| 0 <= i0 < m implies near_some_vertex(#[trigger] s[i0], out, dd * dd) by {
        let w = if i0 < m - 1 {
            2 * i0
        } else {
            2 * (m - 1) - 1
        };
        let lo = if i0 < m - 1 {
            i0
        } else {
            m - 2
        };
        assert(w / 2 == lo);
        assert(if i0 < m - 1 {
            w % 2 == 0
        } else {
            w % 2 == 1
        });
        assert(pt_eq(out[w], left_pt(s, w, dd)));
        let ox = offset_x(s[lo], s[lo + 1], dd);
        let oy = offset_y(s[lo], s[lo + 1], dd);
        lemma_offset_within(s[lo], s[lo + 1], dd);
        assert(out[w].x == s[i0].x + ox && out[w].y == s[i0].y + oy);
        assert(dist_sq(s[i0], out[w]) == ox * ox + oy * oy) by (nonlinear_arith)
            requires
                out[w].x == s[i0].x + ox,
                out[w].y == s[i0].y + oy,
                dist_sq(s[i0], out[w]) == (s[i0].x - out[w].x) * (s[i0].x - out[w].x) + (s[i0].y
                    - out[w].y) * (s[i0].y - out[w].y),
    ;
        assert(0 <= w < out.len() && dist_sq(s[i0], out[w]) <= dd * dd);
    }
}

/// At distance zero, every outline vertex has the coordinates of an input
/// vertex.
proof fn lemma_outline_zero_sound(s: Seq<Point>, out: Seq<Point>)
    requires
        2 <= s.len(),
        out.len() == 4 * (s.len() - 1),
        forall|j: int| 0 <= j < 2 * (s.len() - 1) ==> pt_eq(#[trigger] out[j], left_pt(s, j, 0)),
        forall|j: int|
            2 * (s.len() - 1) <= j < 4 * (s.len() - 1) ==> pt_eq(
                #[trigger] out[j],
                right_pt(s, j, 0),
            ),
    ensures
        forall|j: int| 0 <= j < out.len() ==> coincides_with_some(#[trigger] out[j], s),
{
    let m = s.len() as int;
    assert forall|j: int| 0 <= j < out.len() implies coincides_with_some(#[trigger] out[j], s) by {
        if j < 2 * (m - 1) {
            let i0 = j / 2;
            assert(0 <= i0 < m - 1);
            lemma_offset_zero(s[i0], s[i0 + 1]);
            assert(pt_eq(out[j], left_pt(s, j, 0)));
            if j % 2 == 0 {
                assert(out[j].x == s[i0].x && out[j].y == s[i0].y);
            } else {
                assert(out[j].x == s[i0 + 1].x && out[j].y == s[i0 + 1].y);
            }
        } else {
            let u = (j - 2 * (m - 1)) / 2;
            assert(0 <= u < m - 1);
            let i0 = m - 2 - u;
            lemma_offset_zero(s[i0], s[i0 + 1]);
            assert(pt_eq(out[j], right_pt(s, j, 0)));
            if (j - 2 * (m - 1)) % 2 == 0 {
                assert(out[j].x == s[i0 + 1].x && out[j].y == s[i0 + 1].y);
            } else {
                assert(out[j].x == s[i0].x && out[j].y == s[i0].y);
            }
        }
    }
}

/// At distance zero, every input vertex appears on the outline.
proof fn lemma_outline_zero_complete(s: Seq<Point>, out: Seq<Point>)
    requires
        2 <= s.len(),
        out.len() == 4 * (s.len() - 1),
        forall|j: int| 0 <= j < 2 * (s.len() - 1) ==> pt_eq(#[trigger] out[j], left_pt(s, j, 0)),
    ensures
        forall|i: int| 0 <= i < s.len() ==> coincides_with_some(#[trigger] s[i], out),
{
    let m = s.len() as int;
    assert forall|i0: int| 0 <= i0 < m implies coincides_with_some(#[trigger] s[i0], out) by {
        let w = if i0 < m - 1 {
            2 * i0
        } else {
            2 * (m - 1) - 1
        };
        let lo = if i0 < m - 1 {
            i0
        } else {
            m - 2
        };
        assert(w / 2 == lo);
        assert(if i0 < m - 1 {
            w % 2 == 0
        } else {
            w % 2 == 1
        });
        lemma_offset_zero(s[lo], s[lo + 1]);
        assert(pt_eq(out[w], left_pt(s, w, 0)));
        assert(0 <= w < out.len() && s[i0].x == out[w].x && s[i0].y == out[w].y);
    }
}

/// Offset vector of the segment from `a` to `b` at distance `d >= 0`,
/// exactly as the specification functions describe it, with both
/// components bounded by `d`.
fn segment_offset(a: Point, b: Point, d: i64) -> (o: (i64, i64))
    requires
        point_in_range(a),
        point_in_range(b),
        0 <= d <= MAX_COORD,
    ensures
        o.0 == offset_x(a, b, d as int),
        o.1 == offset_y(a, b, d as int),
        -d <= o.0 <= d,
        -d <= o.1 <= d,
{
    let dx: i64 = b.x - a.x;
    let dy: i64 = b.y - a.y;
    assert(dx * dx <= 4_000_000_000_000_000_000 && dx * dx >= 0) by (nonlinear_arith)
        requires
            -2_000_000_000 <= dx <= 2_000_000_000,
    ;
    assert(dy * dy <= 4_000_000_000_000_000_000 && dy * dy >= 0) by (nonlinear_arith)
        requires
            -2_000_000_000 <= dy <= 2_000_000_000,
    ;
    let len2: i64 = dx * dx + dy * dy;
    if len2 == 0 {
        return (0, 0);
    }
    assert(dy * d <= 2_000_000_000_000_000_000 && dy * d >= -2_000_000_000_000_000_000)
        by (nonlinear_arith)
        requires
            -2_000_000_000 <= dy <= 2_000_000_000,
            0 <= d <= 1_000_000_000,
    ;
    assert(dx * d <= 2_000_000_000_000_000_000 && dx * d >= -2_000_000_000_000_000_000)
        by (nonlinear_arith)
        requires
            -2_000_000_000 <= dx <= 2_000_000_000,
            0 <= d <= 1_000_000_000,
    ;
    let ny: i64 = dy * d;
    let nx: i64 = dx * d;
    let ay: u128 = if ny < 0 {
        (-ny) as u128
    } else {
        ny as u128
    };
    let ax: u128 = if nx < 0 {
        (-nx) as u128
    } else {
        nx as u128
    };
    assert(ay * ay == (ny as int) * (ny as int) && ay * ay
        <= 4_000_000_000_000_000_000_000_000_000_000_000_000) by (nonlinear_arith)
        requires
            ay == ny as int || ay == -(ny as int),
            -2_000_000_000_000_000_000 <= ny as int <= 2_000_000_000_000_000_000,
    ;
    assert(ax * ax == (nx as int) * (nx as int) && ax * ax
        <= 4_000_000_000_000_000_000_000_000_000_000_000_000) by (nonlinear_arith)
        requires
            ax == nx as int || ax == -(nx as int),
            -2_000_000_000_000_000_000 <= nx as int <= 2_000_000_000_000_000_000,
    ;
    let sq_y: u128 = ay * ay;
    let sq_x: u128 = ax * ax;
    let q_y: u128 = sq_y / (len2 as u128);
    let q_x: u128 = sq_x / (len2 as u128);
    let m1: u128 = isqrt(q_y);
    let m2: u128 = isqrt(q_x);
    proof {
        let lsq = len2 as int;
        // q_y is at most d^2, so m1 is at most d; same for the x component.
        lemma_fundamental_div_mod(sq_y as int, lsq);
        lemma_mod_bound(sq_y as int, lsq);
        lemma_fundamental_div_mod(sq_x as int, lsq);
        lemma_mod_bound(sq_x as int, lsq);
        assert((ny as int) * (ny as int) == (dy * dy) * (d * d)) by (nonlinear_arith)
            requires
                ny == dy * d,
        ;
        assert((nx as int) * (nx as int) == (dx * dx) * (d * d)) by (nonlinear_arith)
            requires
                nx == dx * d,
        ;
        assert((dy * dy) * (d * d) <= lsq * (d * d)) by (nonlinear_arith)
            requires
                dy * dy <= lsq,
                d * d >= 0,
        ;
        assert((dx * dx) * (d * d) <= lsq * (d * d)) by (nonlinear_arith)
            requires
                dx * dx <= lsq,
                d * d >= 0,
        ;
        assert(q_y <= d * d) by (nonlinear_arith)
            requires
                lsq * (q_y as int) <= lsq * ((d as int) * (d as int)),
                lsq > 0,
        ;
        assert(q_x <= d * d) by (nonlinear_arith)
            requires
                lsq * (q_x as int) <= lsq * ((d as int) * (d as int)),
                lsq > 0,
        ;
        assert(m1 <= d) by (nonlinear_arith)
            requires
                (m1 as int) * (m1 as int) <= (d as int) * (d as int),
                m1 >= 0,
                d >= 0,
        ;
        assert(m2 <= d) by (nonlinear_arith)
            requires
                (m2 as int) * (m2 as int) <= (d as int) * (d as int),
                m2 >= 0,
                d >= 0,
        ;
    }
    let ox: i64 = if dy >= 0 {
        m1 as i64
    } else {
        -(m1 as i64)
    };
    let oy: i64 = if dx >= 0 {
        -(m2 as i64)
    } else {
        m2 as i64
    };
    (ox, oy)
}

/// Offset outline of `line` at the given perpendicular distance, as a
/// polygon whose exterior ring is the outline (bevel joins, butt caps; no
/// holes are produced). The sign of `distance` is ignored. An empty or
/// single-point line yields an empty outline. Every input vertex lies
/// within the offset distance of some outline vertex, and at distance zero
/// the outline's vertices are exactly the input vertices, forward then
/// backward.
pub fn buffer(line: &LineString, distance: i64) -> (result: Polygon)
    requires
        seq_in_range(line@),
        -MAX_COORD <= distance <= MAX_COORD,
    ensures
        result.interiors@.len() == 0,
        line@.len() <= 1 ==> result.exterior@.len() == 0,
        line@.len() >= 2 ==> result.exterior@.len() == 4 * (line@.len() - 1),
        line@.len() >= 2 ==> forall|j: int|
            0 <= j < 2 * (line@.len() - 1) ==> pt_eq(
                #[trigger] result.exterior@[j],
                left_pt(line@, j, mag(distance as int)),
            ),
        line@.len() >= 2 ==> forall|j: int|
            2 * (line@.len() - 1) <= j < 4 * (line@.len() - 1) ==> pt_eq(
                #[trigger] result.exterior@[j],
                right_pt(line@, j, mag(distance as int)),
            ),
        line@.len() >= 2 ==> forall|i: int|
            0 <= i < line@.len() ==> near_some_vertex(
                #[trigger] line@[i],
                result.exterior@,
                mag(distance as int) * mag(distance as int),
            ),
        distance == 0 && line@.len() >= 2 ==> forall|j: int|
            0 <= j < result.exterior@.len() ==> coincides_with_some(
                #[trigger] result.exterior@[j],
                line@,
            ),
        distance == 0 && line@.len() >= 2 ==> forall|i: int|
            0 <= i < line@.len() ==> coincides_with_some(#[trigger] line@[i], result.exterior@),
{
    let d: i64 = if distance < 0 {
        -distance
    } else {
        distance
    };
    let ghost s = line@;
    let ghost dd = d as int;
    let n = line.points.len();
    if n <= 1 {
        return Polygon { exterior: LineString { points: Vec::new() }, interiors: Vec::new() };
    }
    let mut out: Vec<Point> = Vec::new();
    let mut i: usize = 0;
    while i < n - 1
        invariant
            2 <= n == s.len(),
            s == line@,
            seq_in_range(s),
            0 <= d <= MAX_COORD,
            dd == d as int,
            i <= n - 1,
            out@.len() == 2 * i,
            forall|j: int| 0 <= j < 2 * i ==> pt_eq(#[trigger] out@[j], left_pt(s, j, dd)),
        decreases n - 1 - i,
    {
        let a = line.points[i];
        let b = line.points[i + 1];
        assert(point_in_range(a) && point_in_range(b));
        let o = segment_offset(a, b, d);
        out.push(Point { x: a.x + o.0, y: a.y + o.1 });
        out.push(Point { x: b.x + o.0, y: b.y + o.1 });
        proof {
            assert((2 * i as int) / 2 == i as int);
            assert((2 * i as int) % 2 == 0);
            assert((2 * i as int + 1) / 2 == i as int);
            assert((2 * i as int + 1) % 2 == 1);
            assert(pt_eq(out@[2 * i as int], left_pt(s, 2 * i as int, dd)));
            assert(pt_eq(out@[2 * i as int + 1], left_pt(s, 2 * i as int + 1, dd)));
        }
        i = i + 1;
    }
    let mut t: usize = 0;
    while t < n - 1
        invariant
            2 <= n == s.len(),
            s == line@,
            seq_in_range(s),
            0 <= d <= MAX_COORD,
            dd == d as int,
            t <= n - 1,
            out@.len() == 2 * (n - 1) + 2 * t,
            forall|j: int| 0 <= j < 2 * (n - 1) ==> pt_eq(#[trigger] out@[j], left_pt(s, j, dd)),
            forall|j: int|
                2 * (n - 1) <= j < 2 * (n - 1) + 2 * t ==> pt_eq(
                    #[trigger] out@[j],
                    right_pt(s, j, dd),
                ),
        decreases n - 1 - t,
    {
        let seg = n - 2 - t;
        let a = line.points[seg];
        let b = line.points[seg + 1];
        assert(point_in_range(a) && point_in_range(b));
        let o = segment_offset(a, b, d);
        out.push(Point { x: b.x - o.0, y: b.y - o.1 });
        out.push(Point { x: a.x - o.0, y: a.y - o.1 });
        proof {
            let base = 2 * (n - 1) as int;
            let j0 = base + 2 * t as int;
            assert((j0 - base) / 2 == t as int);
            assert((j0 - base) % 2 == 0);
            assert((j0 + 1 - base) / 2 == t as int);
            assert((j0 + 1 - base) % 2 == 1);
            assert(pt_eq(out@[j0], right_pt(s, j0, dd)));
            assert(pt_eq(out@[j0 + 1], right_pt(s, j0 + 1, dd)));
        }
        t = t + 1;
    }
    proof {
        lemma_outline_near(s, out@, dd);
        if distance == 0 {
            lemma_outline_zero_sound(s, out@);
            lemma_outline_zero_complete(s, out@);
        }
    }
    Polygon { exterior: LineString { points: out }, interiors: Vec::new() }
}

} // verus!

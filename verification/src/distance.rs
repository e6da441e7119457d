//! Euclidean distance between two points.
//!
//! Over integer coordinates the squared distance is exact, so
//! `distance_squared` is the primitive: it returns exactly
//! `(a.x-b.x)^2 + (a.y-b.y)^2`. `distance_floor` is the floor of the real
//! Euclidean distance; a host adapter wanting the real-valued distance takes
//! the square root of `distance_squared` itself. The lemmas state the metric
//! laws: symmetry, identity, and the triangle inequality in its exact
//! integer form.

use vstd::prelude::*;

use crate::arith::is_sqrt_floor;
use crate::arith::isqrt;
use crate::arith::lemma_sqrt_floor;
use crate::arith::lemma_sqrt_floor_unique;
use crate::arith::sqrt_floor;
use crate::geometry::Point;
use crate::geometry::point_in_range;

verus! {

/// The squared Euclidean distance between `a` and `b`.
pub open spec fn dist_sq(a: Point, b: Point) -> int {
    (a.x - b.x) * (a.x - b.x) + (a.y - b.y) * (a.y - b.y)
}

/// A squared distance is nonnegative.
pub proof fn lemma_dist_sq_nonneg(a: Point, b: Point)
    by (nonlinear_arith)
    ensures
        dist_sq(a, b) >= 0,
{
}

/// The distance is symmetric: swapping the endpoints changes nothing.
pub proof fn lemma_distance_symmetric(a: Point, b: Point)
    by (nonlinear_arith)
    ensures
        dist_sq(a, b) == dist_sq(b, a),
{
}

/// The distance from a point to itself is zero.
pub proof fn lemma_distance_self(a: Point)
    ensures
        dist_sq(a, a) == 0,
{
    lemma_distance_zero_iff(a, a);
}

/// Only coinciding points are at distance zero.
pub proof fn lemma_distance_zero_iff(a: Point, b: Point)
    by (nonlinear_arith)
    ensures
        dist_sq(a, b) == 0 <==> (a.x == b.x && a.y == b.y),
{
}

/// Brahmagupta-Fibonacci identity: the square of a dot product plus the
/// square of a cross product is the product of the squared norms.
proof fn lemma_dot_cross_identity(ux: int, uy: int, vx: int, vy: int)
    ensures
        (ux * vx + uy * vy) * (ux * vx + uy * vy) + (ux * vy - uy * vx) * (ux * vy - uy * vx) == (
        ux * ux + uy * uy) * (vx * vx + vy * vy),
{
    let p = ux * vx;
    let q = uy * vy;
    let s = ux * vy;
    let t = uy * vx;
    assert((p + q) * (p + q) == p * p + 2 * (p * q) + q * q) by (nonlinear_arith);
    assert((s - t) * (s - t) == s * s - 2 * (s * t) + t * t) by (nonlinear_arith);
    assert(p * q == s * t) by (nonlinear_arith)
        requires
            p == ux * vx,
            q == uy * vy,
            s == ux * vy,
            t == uy * vx,
    ;
    assert(p * p == (ux * ux) * (vx * vx)) by (nonlinear_arith)
        requires
            p == ux * vx,
    ;
    assert(q * q == (uy * uy) * (vy * vy)) by (nonlinear_arith)
        requires
            q == uy * vy,
    ;
    assert(s * s == (ux * ux) * (vy * vy)) by (nonlinear_arith)
        requires
            s == ux * vy,
    ;
    assert(t * t == (uy * uy) * (vx * vx)) by (nonlinear_arith)
        requires
            t == uy * vx,
    ;
    assert((ux * ux + uy * uy) * (vx * vx + vy * vy) == (ux * ux) * (vx * vx) + (ux * ux) * (vy
        * vy) + (uy * uy) * (vx * vx) + (uy * uy) * (vy * vy)) by (nonlinear_arith);
}

/// Triangle inequality, in exact integer form. For real distances it reads
/// `sqrt(A) <= sqrt(B) + sqrt(C)` with `A = dist_sq(a, c)`,
/// `B = dist_sq(a, b)`, `C = dist_sq(b, c)`; squaring both sides turns it
/// into `A <= B + C + 2*sqrt(B*C)`, and since `A - B - C` is an even
/// integer, the real square root may be replaced by its integer floor.
pub proof fn lemma_distance_triangle(a: Point, b: Point, c: Point)
    ensures
        dist_sq(a, c) <= dist_sq(a, b) + dist_sq(b, c) + 2 * sqrt_floor(
            dist_sq(a, b) * dist_sq(b, c),
        ),
{
    let ux = a.x - b.x;
    let uy = a.y - b.y;
    let vx = b.x - c.x;
    let vy = b.y - c.y;
    let dot = ux * vx + uy * vy;
    assert((ux + vx) * (ux + vx) + (uy + vy) * (uy + vy) == ux * ux + uy * uy + vx * vx + vy * vy
        + 2 * (ux * vx + uy * vy)) by (nonlinear_arith);
    assert(a.x - c.x == ux + vx && a.y - c.y == uy + vy);
    assert(dist_sq(a, c) == (ux + vx) * (ux + vx) + (uy + vy) * (uy + vy));
    // The subtracted square turns the identity into Cauchy-Schwarz.
    lemma_dot_cross_identity(ux, uy, vx, vy);
    assert((ux * vy - uy * vx) * (ux * vy - uy * vx) >= 0) by (nonlinear_arith);
    assert(dot * dot <= dist_sq(a, b) * dist_sq(b, c));
    lemma_dist_sq_nonneg(a, b);
    lemma_dist_sq_nonneg(b, c);
    assert(dist_sq(a, b) * dist_sq(b, c) >= 0) by (nonlinear_arith)
        requires
            dist_sq(a, b) >= 0,
            dist_sq(b, c) >= 0,
    ;
    lemma_sqrt_floor(dist_sq(a, b) * dist_sq(b, c));
    let r = sqrt_floor(dist_sq(a, b) * dist_sq(b, c));
    if dot > r {
        assert((r + 1) * (r + 1) <= dot * dot) by (nonlinear_arith)
            requires
                0 <= r,
                r + 1 <= dot,
        ;
    }
    assert(dot <= r);
}

/// The squared Euclidean distance between `a` and `b`, exactly.
pub fn distance_squared(a: Point, b: Point) -> (d: i64)
    requires
        point_in_range(a),
        point_in_range(b),
    ensures
        d == dist_sq(a, b),
        d >= 0,
{
    let dx: i64 = a.x - b.x;
    let dy: i64 = a.y - b.y;
    assert(dx * dx <= 4_000_000_000_000_000_000 && dx * dx >= 0) by (nonlinear_arith)
        requires
            -2_000_000_000 <= dx <= 2_000_000_000,
    ;
    assert(dy * dy <= 4_000_000_000_000_000_000 && dy * dy >= 0) by (nonlinear_arith)
        requires
            -2_000_000_000 <= dy <= 2_000_000_000,
    ;
    dx * dx + dy * dy
}

/// The floor of the real Euclidean distance between `a` and `b`.
pub fn distance_floor(a: Point, b: Point) -> (d: i64)
    requires
        point_in_range(a),
        point_in_range(b),
    ensures
        d == sqrt_floor(dist_sq(a, b)),
        is_sqrt_floor(dist_sq(a, b), d as int),
{
    let sq = distance_squared(a, b);
    let r = isqrt(sq as u128);
    proof {
        assert(sq as u128 as int == dist_sq(a, b));
        if r > 4_000_000_000 {
            assert((r as int) * (r as int) > 16_000_000_000_000_000_000) by (nonlinear_arith)
                requires
                    (r as int) > 4_000_000_000,
            ;
            assert(false);
        }
        lemma_sqrt_floor(dist_sq(a, b));
        lemma_sqrt_floor_unique(dist_sq(a, b), r as int, sqrt_floor(dist_sq(a, b)));
    }
    r as i64
}

} // verus!

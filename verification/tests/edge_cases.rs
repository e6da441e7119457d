use gis_ops::arith::isqrt;
use gis_ops::buffer::buffer;
use gis_ops::containment::contains;
use gis_ops::distance::distance_floor;
use gis_ops::distance::distance_squared;
use gis_ops::geometry::LineString;
use gis_ops::geometry::MAX_COORD;
use gis_ops::geometry::Point;
use gis_ops::geometry::Polygon;

#[test]
fn isqrt_exact_values() {
    assert_eq!(isqrt(0), 0);
    assert_eq!(isqrt(1), 1);
    assert_eq!(isqrt(15), 3);
    assert_eq!(isqrt(16), 4);
    assert_eq!(isqrt(17), 4);
    assert_eq!(isqrt(u64::MAX as u128), 4_294_967_295);
    assert_eq!(isqrt(u128::MAX), 18_446_744_073_709_551_615);
}

#[test]
fn distance_at_coordinate_extremes() {
    let a = Point::new(-MAX_COORD, -MAX_COORD);
    let b = Point::new(MAX_COORD, MAX_COORD);
    assert_eq!(distance_squared(a, b), 8_000_000_000_000_000_000);
    assert_eq!(distance_floor(a, b), 2_828_427_124);
}

#[test]
fn containment_on_boundary_is_deterministic() {
    // A point exactly on the bottom edge: the half-open crossing rule
    // classifies it as inside, and identically on every call.
    let square = [(0, 0), (4, 0), (4, 4), (0, 4)];
    let p = Polygon::new(
        LineString::new(square.iter().map(|&(x, y)| Point::new(x, y)).collect()),
        vec![],
    );
    let first = contains(Point::new(2, 0), &p);
    assert!(first);
    for _ in 0..3 {
        assert_eq!(contains(Point::new(2, 0), &p), first);
    }
}

#[test]
fn buffer_skips_zero_length_segments() {
    // A repeated vertex makes a zero-length segment, which gets a zero
    // offset rather than a division by zero.
    let pts: Vec<Point> = [(0, 0), (0, 0), (5, 0)].iter().map(|&(x, y)| Point::new(x, y)).collect();
    let out = buffer(&LineString::new(pts), 2);
    assert_eq!(out.exterior.points.len(), 8);
    let expected = vec![
        (0, 0),
        (0, 0),
        (0, -2),
        (5, -2),
        (5, 2),
        (0, 2),
        (0, 0),
        (0, 0),
    ];
    let got: Vec<(i64, i64)> = out.exterior.points.iter().map(|p| (p.x, p.y)).collect();
    assert_eq!(got, expected);
}

use gis_ops::area::double_area;
use gis_ops::buffer::buffer;
use gis_ops::containment::contains;
use gis_ops::distance::distance_floor;
use gis_ops::distance::distance_squared;
use gis_ops::geometry::LineString;
use gis_ops::geometry::Point;
use gis_ops::geometry::Polygon;

fn ring(coords: &[(i64, i64)]) -> Polygon {
    let pts: Vec<Point> = coords.iter().map(|&(x, y)| Point::new(x, y)).collect();
    Polygon::new(LineString::new(pts), vec![])
}

fn line(coords: &[(i64, i64)]) -> LineString {
    LineString::new(coords.iter().map(|&(x, y)| Point::new(x, y)).collect())
}

#[test]
fn distance_is_symmetric() {
    let a = Point::new(1, 2);
    let b = Point::new(4, 6);
    assert_eq!(distance_squared(a, b), distance_squared(b, a));
    assert_eq!(distance_squared(a, b), 25);
    assert_eq!(distance_floor(a, b), distance_floor(b, a));
    let c = Point::new(-7, 11);
    assert_eq!(distance_squared(a, c), distance_squared(c, a));
}

#[test]
fn distance_to_self_is_zero() {
    let a = Point::new(-123_456, 789);
    assert_eq!(distance_squared(a, a), 0);
    assert_eq!(distance_floor(a, a), 0);
    let b = Point::new(0, 0);
    assert_eq!(distance_squared(b, b), 0);
}

#[test]
fn distance_exact_values() {
    let a = Point::new(0, 0);
    let b = Point::new(3, 4);
    assert_eq!(distance_squared(a, b), 25);
    assert_eq!(distance_floor(a, b), 5);
    // floor of sqrt(2)
    assert_eq!(distance_floor(Point::new(0, 0), Point::new(1, 1)), 1);
}

#[test]
fn triangle_inequality_on_real_distances() {
    let triples = [
        [(0, 0), (4, 0), (4, 3)],
        [(0, 0), (2, 3), (5, 5)],
        [(0, 0), (5, 5), (10, 10)],
        [(-3, 7), (2, -1), (6, 6)],
    ];
    for t in triples.iter() {
        let a = Point::new(t[0].0, t[0].1);
        let b = Point::new(t[1].0, t[1].1);
        let c = Point::new(t[2].0, t[2].1);
        let dab = (distance_squared(a, b) as f64).sqrt();
        let dbc = (distance_squared(b, c) as f64).sqrt();
        let dac = (distance_squared(a, c) as f64).sqrt();
        assert!(dac <= dab + dbc + 1e-9);
    }
}

#[test]
fn area_of_square_is_sixteen() {
    let p = ring(&[(0, 0), (4, 0), (4, 4), (0, 4)]);
    let a2 = double_area(&p);
    assert_eq!(a2, 32);
    assert_eq!(a2 as f64 / 2.0, 16.0);
}

#[test]
fn area_invariant_under_rotation_and_reversal() {
    let base = [(0, 0), (4, 0), (4, 4), (0, 4)];
    let expected = double_area(&ring(&base));
    // every cyclic rotation of the starting vertex
    for k in 0..base.len() {
        let mut rotated = Vec::new();
        for i in 0..base.len() {
            rotated.push(base[(i + k) % base.len()]);
        }
        assert_eq!(double_area(&ring(&rotated)), expected);
    }
    // reversed vertex order
    let mut reversed = base.to_vec();
    reversed.reverse();
    assert_eq!(double_area(&ring(&reversed)), expected);
    // an irregular ring as well
    let irregular = [(0, 0), (7, 1), (5, 6), (2, 8), (-3, 4)];
    let expected = double_area(&ring(&irregular));
    for k in 0..irregular.len() {
        let mut rotated = Vec::new();
        for i in 0..irregular.len() {
            rotated.push(irregular[(i + k) % irregular.len()]);
        }
        assert_eq!(double_area(&ring(&rotated)), expected);
    }
    let mut reversed = irregular.to_vec();
    reversed.reverse();
    assert_eq!(double_area(&ring(&reversed)), expected);
}

#[test]
fn area_of_degenerate_ring_is_zero() {
    assert_eq!(double_area(&ring(&[])), 0);
    assert_eq!(double_area(&ring(&[(3, 5)])), 0);
    assert_eq!(double_area(&ring(&[(0, 0), (9, 2)])), 0);
}

#[test]
fn containment_in_square() {
    let p = ring(&[(0, 0), (4, 0), (4, 4), (0, 4)]);
    assert!(contains(Point::new(2, 2), &p));
    assert!(!contains(Point::new(5, 5), &p));
    assert!(!contains(Point::new(-1, 2), &p));
}

#[test]
fn containment_in_concave_ring() {
    // a U shape: (5,5) sits in the notch, outside the ring
    let p = ring(&[(0, 0), (10, 0), (10, 10), (6, 10), (6, 3), (4, 3), (4, 10), (0, 10)]);
    assert!(contains(Point::new(2, 5), &p));
    assert!(contains(Point::new(8, 5), &p));
    assert!(!contains(Point::new(5, 5), &p));
}

#[test]
fn containment_on_degenerate_ring_is_false() {
    assert!(!contains(Point::new(0, 0), &ring(&[])));
    assert!(!contains(Point::new(0, 0), &ring(&[(0, 0)])));
    assert!(!contains(Point::new(1, 0), &ring(&[(0, 0), (2, 0)])));
}

#[test]
fn buffer_of_axis_aligned_segment_is_exact_rectangle() {
    let out = buffer(&line(&[(0, 0), (4, 0)]), 2);
    let pts: Vec<(i64, i64)> = out.exterior.points.iter().map(|p| (p.x, p.y)).collect();
    assert_eq!(pts, vec![(0, -2), (4, -2), (4, 2), (0, 2)]);
    assert!(out.interiors.is_empty());
    // the outline encloses the segment
    assert_eq!(double_area(&out), 2 * 16);
    assert!(contains(Point::new(2, 0), &out));
}

#[test]
fn buffer_keeps_vertices_within_distance() {
    let input = [(0, 0), (100, 0), (100, 100), (30, 130)];
    let d: i64 = 30;
    let out = buffer(&line(&input), d);
    assert_eq!(out.exterior.points.len(), 4 * (input.len() - 1));
    for &(x, y) in input.iter() {
        let mut best = f64::INFINITY;
        for q in out.exterior.points.iter() {
            let dx = (x - q.x) as f64;
            let dy = (y - q.y) as f64;
            best = best.min((dx * dx + dy * dy).sqrt());
        }
        assert!(best <= d as f64 + 1e-9);
    }
}

#[test]
fn buffer_at_zero_distance_reproduces_vertices() {
    let input = [(0, 0), (7, 3), (10, 9), (-2, 5)];
    let out = buffer(&line(&input), 0);
    let outline: Vec<(i64, i64)> = out.exterior.points.iter().map(|p| (p.x, p.y)).collect();
    // every outline vertex is an input vertex
    for q in outline.iter() {
        assert!(input.contains(q));
    }
    // every input vertex appears on the outline
    for v in input.iter() {
        assert!(outline.contains(v));
    }
}

#[test]
fn buffer_of_empty_or_single_point_is_empty() {
    let out = buffer(&line(&[]), 5);
    assert_eq!(out.exterior.points.len(), 0);
    assert!(out.interiors.is_empty());
    let out = buffer(&line(&[(5, 5)]), 5);
    assert_eq!(out.exterior.points.len(), 0);
    assert!(out.interiors.is_empty());
}

#[test]
fn buffer_treats_negative_distance_as_magnitude() {
    let l = line(&[(0, 0), (10, 0), (10, 10)]);
    let plus = buffer(&l, 3);
    let l = line(&[(0, 0), (10, 0), (10, 10)]);
    let minus = buffer(&l, -3);
    let a: Vec<(i64, i64)> = plus.exterior.points.iter().map(|p| (p.x, p.y)).collect();
    let b: Vec<(i64, i64)> = minus.exterior.points.iter().map(|p| (p.x, p.y)).collect();
    assert_eq!(a, b);
}

#[test]
fn buffer_rounds_offsets_towards_zero() {
    // diagonal segment: the exact offset is d/sqrt(2) in each coordinate
    let out = buffer(&line(&[(0, 0), (10, 10)]), 5);
    let pts: Vec<(i64, i64)> = out.exterior.points.iter().map(|p| (p.x, p.y)).collect();
    // 5/sqrt(2) = 3.53..., floored to 3
    assert_eq!(pts, vec![(3, -3), (13, 7), (7, 13), (-3, 3)]);
}

use geometrical_shapes::line::Line;
use geometrical_shapes::point::Point;
use geometrical_shapes::rectangle::Rectangle;
use geometrical_shapes::triangle::Triangle;

fn pts(v: &[Point]) -> Vec<(i32, i32)> {
    v.iter().map(|p| (p.x, p.y)).collect()
}

#[test]
fn triangle_is_three_line_rasterizations() {
    let a = Point::new(0, 0);
    let b = Point::new(4, 0);
    let c = Point::new(0, 4);
    let t = Triangle::new(&a, &b, &c);
    let mut expected = pts(&Line::new(&a, &b).points());
    expected.extend(pts(&Line::new(&b, &c).points()));
    expected.extend(pts(&Line::new(&c, &a).points()));
    assert_eq!(pts(&t.points()), expected);
}

#[test]
fn triangle_large_vertices() {
    let a = Point::new(500, 500);
    let b = Point::new(250, 700);
    let c = Point::new(700, 800);
    let t = Triangle::new(&a, &b, &c);
    let v = t.points();
    let n1 = Line::new(&a, &b).points().len();
    let n2 = Line::new(&b, &c).points().len();
    let n3 = Line::new(&c, &a).points().len();
    assert_eq!(v.len(), n1 + n2 + n3);
}

#[test]
fn rectangle_outline_only_boundary() {
    let r = Rectangle::new(&Point::new(150, 150), &Point::new(50, 50));
    let v = pts(&r.points());
    // all four corners are present
    for corner in [(50, 50), (50, 150), (150, 50), (150, 150)] {
        assert!(v.contains(&corner), "missing corner {corner:?}");
    }
    // points on each edge are present
    for edge_point in [(100, 50), (100, 150), (50, 100), (150, 100)] {
        assert!(v.contains(&edge_point), "missing edge point {edge_point:?}");
    }
    // no interior point is emitted, and nothing outside the box
    for &(x, y) in &v {
        assert!(50 <= x && x <= 150 && 50 <= y && y <= 150);
        assert!(
            x == 50 || x == 150 || y == 50 || y == 150,
            "interior point ({x},{y}) emitted"
        );
    }
}

#[test]
fn rectangle_unnormalized_corners_agree() {
    let mut a = pts(&Rectangle::new(&Point::new(2, 9), &Point::new(7, 3)).points());
    let mut b = pts(&Rectangle::new(&Point::new(7, 3), &Point::new(2, 9)).points());
    let mut c = pts(&Rectangle::new(&Point::new(2, 3), &Point::new(7, 9)).points());
    a.sort();
    a.dedup();
    b.sort();
    b.dedup();
    c.sort();
    c.dedup();
    assert_eq!(a, b);
    assert_eq!(a, c);
}

#[test]
fn rectangle_degenerate_is_single_point() {
    let r = Rectangle::new(&Point::new(2, 3), &Point::new(2, 3));
    let mut v = pts(&r.points());
    v.sort();
    v.dedup();
    assert_eq!(v, vec![(2, 3)]);
}

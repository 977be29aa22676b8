use geometrical_shapes::circle::Circle;
use geometrical_shapes::point::Point;

fn pts(v: &[Point]) -> Vec<(i32, i32)> {
    v.iter().map(|p| (p.x, p.y)).collect()
}

#[test]
fn circle_radius_zero_single_point() {
    let c = Circle::new(&Point::new(5, 5), 0);
    assert_eq!(pts(&c.points()), vec![(5, 5)]);
}

#[test]
fn circle_radius_one_axis_points() {
    let c = Circle::new(&Point::new(0, 0), 1);
    let v = pts(&c.points());
    for q in [(1, 0), (0, 1), (-1, 0), (0, -1)] {
        assert!(v.contains(&q), "missing axis point {q:?}");
    }
}

#[test]
fn circle_distance_is_radius() {
    let center = Point::new(10, 10);
    let c = Circle::new(&center, 5);
    let v = c.points();
    assert!(!v.is_empty());
    for p in &v {
        assert_eq!(p.distance(&center), 5);
    }
}

#[test]
fn circle_symmetric_under_reflection() {
    let c = Circle::new(&Point::new(7, -3), 6);
    let v = pts(&c.points());
    for &(x, y) in &v {
        assert!(v.contains(&(2 * 7 - x, y)), "vertical-axis mirror of ({x},{y})");
        assert!(v.contains(&(x, 2 * (-3) - y)), "horizontal-axis mirror of ({x},{y})");
    }
}

#[test]
fn circle_contains_axis_points() {
    let c = Circle::new(&Point::new(7, -3), 6);
    let v = pts(&c.points());
    for q in [(13, -3), (1, -3), (7, 3), (7, -9)] {
        assert!(v.contains(&q), "missing axis point {q:?}");
    }
}

#[test]
fn circle_no_duplicate_pixels() {
    let c = Circle::new(&Point::new(0, 0), 4);
    let mut v = pts(&c.points());
    let n = v.len();
    v.sort();
    v.dedup();
    assert_eq!(v.len(), n, "every pixel is emitted exactly once");
}

#[test]
fn circle_radius_five_exact_set() {
    // Rounded distance 5 means 4 * (dx^2 + dy^2) in [81, 121), so
    // dx^2 + dy^2 in 21..=30.
    let c = Circle::new(&Point::new(0, 0), 5);
    let mut v = pts(&c.points());
    v.sort();
    let mut expected: Vec<(i32, i32)> = Vec::new();
    for x in -5..=5 {
        for y in -5..=5 {
            let n = x * x + y * y;
            if (21..=30).contains(&n) {
                expected.push((x, y));
            }
        }
    }
    expected.sort();
    assert_eq!(v, expected);
}

#[test]
fn circle_random_in_bounds() {
    for _ in 0..50 {
        let c = Circle::random(90, 60);
        assert!(0 <= c.center.x && c.center.x < 90);
        assert!(0 <= c.center.y && c.center.y < 60);
        assert!(0 <= c.r && c.r < 90);
    }
}

use geometrical_shapes::arith::rounded_sqrt;
use geometrical_shapes::point::Point;

#[test]
fn rounded_sqrt_values() {
    let cases: [(u128, u128); 10] = [
        (0, 0),
        (1, 1),
        (2, 1),
        (3, 2),
        (4, 2),
        (6, 2),
        (7, 3),
        (25, 5),
        (30, 5),
        (31, 6),
    ];
    for (n, r) in cases {
        assert_eq!(rounded_sqrt(n), r, "rounded sqrt of {n}");
    }
}

#[test]
fn point_new_holds_coordinates() {
    let p = Point::new(-7, 12);
    assert_eq!(p.x, -7);
    assert_eq!(p.y, 12);
    assert_eq!(p, Point::new(-7, 12));
}

#[test]
fn point_distance_exact_values() {
    let cases = [
        ((0, 0), (0, 0), 0),
        ((0, 0), (3, 4), 5),
        ((0, 0), (1, 1), 1),
        ((0, 0), (2, 1), 2),
        ((1, 2), (4, 6), 5),
        ((-3, -4), (0, 0), 5),
        ((0, 0), (5, 5), 7),
    ];
    for ((ax, ay), (bx, by), d) in cases {
        let a = Point::new(ax, ay);
        let b = Point::new(bx, by);
        assert_eq!(a.distance(&b), d, "distance ({ax},{ay})-({bx},{by})");
        assert_eq!(b.distance(&a), d);
    }
}

#[test]
fn point_random_in_bounds() {
    for _ in 0..100 {
        let p = Point::random(100, 50);
        assert!(0 <= p.x && p.x < 100);
        assert!(0 <= p.y && p.y < 50);
    }
}

#[test]
fn point_random_tight_bounds() {
    for _ in 0..10 {
        let p = Point::random(1, 1);
        assert_eq!((p.x, p.y), (0, 0));
    }
}

use geometrical_shapes::canvas::{Color, Displayable, Drawable};
use geometrical_shapes::circle::Circle;
use geometrical_shapes::line::Line;
use geometrical_shapes::point::Point;
use geometrical_shapes::rectangle::Rectangle;
use geometrical_shapes::triangle::Triangle;

/// A pixel sink that records every write, like a canvas with no bounds.
struct Recorder {
    pixels: Vec<(i32, i32, Color)>,
}

impl Displayable for Recorder {
    fn display(&mut self, x: i32, y: i32, color: Color) {
        self.pixels.push((x, y, color));
    }
}

#[test]
fn color_is_opaque() {
    for _ in 0..20 {
        let c = <Point as Drawable>::color();
        assert_eq!(c.a, 255);
        assert!(c.r < 255 && c.g < 255 && c.b < 255);
    }
}

#[test]
fn point_draw_writes_one_pixel() {
    let mut rec = Recorder { pixels: Vec::new() };
    Point::new(3, -8).draw(&mut rec);
    assert_eq!(rec.pixels.len(), 1);
    assert_eq!((rec.pixels[0].0, rec.pixels[0].1), (3, -8));
}

#[test]
fn line_draw_writes_its_points_in_one_color() {
    let l = Line::new(&Point::new(0, 0), &Point::new(6, 3));
    let mut rec = Recorder { pixels: Vec::new() };
    l.draw(&mut rec);
    let expected: Vec<(i32, i32)> = l.points().iter().map(|p| (p.x, p.y)).collect();
    let written: Vec<(i32, i32)> = rec.pixels.iter().map(|t| (t.0, t.1)).collect();
    assert_eq!(written, expected);
    let first = rec.pixels[0].2;
    assert!(rec.pixels.iter().all(|t| t.2 == first), "one color per line");
}

#[test]
fn circle_draw_writes_its_points_in_one_color() {
    let c = Circle::new(&Point::new(4, 4), 3);
    let mut rec = Recorder { pixels: Vec::new() };
    c.draw(&mut rec);
    let expected: Vec<(i32, i32)> = c.points().iter().map(|p| (p.x, p.y)).collect();
    let written: Vec<(i32, i32)> = rec.pixels.iter().map(|t| (t.0, t.1)).collect();
    assert_eq!(written, expected);
    let first = rec.pixels[0].2;
    assert!(rec.pixels.iter().all(|t| t.2 == first), "one color per circle");
}

#[test]
fn rectangle_draw_writes_its_points() {
    let r = Rectangle::new(&Point::new(0, 0), &Point::new(3, 2));
    let mut rec = Recorder { pixels: Vec::new() };
    r.draw(&mut rec);
    let expected: Vec<(i32, i32)> = r.points().iter().map(|p| (p.x, p.y)).collect();
    let written: Vec<(i32, i32)> = rec.pixels.iter().map(|t| (t.0, t.1)).collect();
    assert_eq!(written, expected);
}

#[test]
fn triangle_draw_writes_all_three_edges() {
    let t = Triangle::new(&Point::new(0, 0), &Point::new(5, 0), &Point::new(0, 5));
    let mut rec = Recorder { pixels: Vec::new() };
    t.draw(&mut rec);
    let expected: Vec<(i32, i32)> = t.points().iter().map(|p| (p.x, p.y)).collect();
    let written: Vec<(i32, i32)> = rec.pixels.iter().map(|t| (t.0, t.1)).collect();
    assert_eq!(written, expected);
}

use std::collections::HashSet;

use drawing::circle::circle_points;
use drawing::line::line_points;
use drawing::rect::rect_points;
use drawing::{Canvas, Circle, Color, Displayable, Drawable, Line, Point, Rectangle, Triangle};

fn point_set(pts: &[(i32, i32)]) -> HashSet<(i32, i32)> {
    pts.iter().copied().collect()
}

fn white() -> Color {
    Color { r: 255, g: 255, b: 255 }
}

fn red() -> Color {
    Color { r: 200, g: 10, b: 10 }
}

#[test]
fn color_rgb_components() {
    let c = Color::rgb(1, 2, 3);
    assert_eq!(c.r, 1);
    assert_eq!(c.g, 2);
    assert_eq!(c.b, 3);
    assert_eq!(c, Color { r: 1, g: 2, b: 3 });
}

#[test]
fn line_single_point_pixels() {
    let pts = line_points(7, -3, 7, -3);
    assert_eq!(pts, vec![(7, -3)]);
}

#[test]
fn bresenham_exact_stepping() {
    let pts = line_points(0, 0, 3, 1);
    assert_eq!(pts, vec![(0, 0), (1, 0), (2, 1), (3, 1)]);
}

#[test]
fn line_reverse_same_set() {
    let fwd = line_points(0, 0, 3, 1);
    let rev = line_points(3, 1, 0, 0);
    assert_eq!(point_set(&fwd), point_set(&rev));
    let mut rev_again = rev.clone();
    rev_again.reverse();
    assert_eq!(fwd, rev_again);
}

#[test]
fn line_axis_aligned_reverse() {
    let h_fwd = line_points(2, 5, 9, 5);
    let h_rev = line_points(9, 5, 2, 5);
    assert_eq!(point_set(&h_fwd), point_set(&h_rev));
    assert_eq!(h_fwd.len(), 8);
    let v_fwd = line_points(-4, 10, -4, 3);
    let v_rev = line_points(-4, 3, -4, 10);
    assert_eq!(point_set(&v_fwd), point_set(&v_rev));
    assert_eq!(v_fwd.len(), 8);
}

#[test]
fn line_diagonal_reverse() {
    let fwd = line_points(2, -1, -3, 4);
    let rev = line_points(-3, 4, 2, -1);
    assert_eq!(point_set(&fwd), point_set(&rev));
    assert_eq!(fwd.len(), 6);
}

#[test]
fn line_length_is_major_span_plus_one() {
    assert_eq!(line_points(0, 0, 10, 4).len(), 11);
    assert_eq!(line_points(5, 5, 5, 5).len(), 1);
    assert_eq!(line_points(0, 0, -6, -6).len(), 7);
}

#[test]
fn circle_radius_five_reference() {
    let pts = point_set(&circle_points(0, 0, 5));
    assert!(pts.contains(&(5, 0)));
    assert!(pts.contains(&(0, 5)));
    assert!(pts.contains(&(-5, 0)));
    assert!(pts.contains(&(0, -5)));
    assert!(!pts.contains(&(4, 4)));
    let reference: HashSet<(i32, i32)> = [
        (5, 0),
        (5, 1),
        (4, 2),
        (4, 3),
    ]
    .iter()
    .flat_map(|&(x, y)| {
        vec![
            (x, y),
            (y, x),
            (-y, x),
            (-x, y),
            (-x, -y),
            (-y, -x),
            (y, -x),
            (x, -y),
        ]
    })
    .collect();
    assert_eq!(pts, reference);
}

#[test]
fn circle_zero_radius_is_center_slots() {
    let pts = circle_points(5, 5, 0);
    assert_eq!(pts.len(), 8);
    assert!(pts.iter().all(|&p| p == (5, 5)));
}

#[test]
fn circle_eight_fold_symmetry_sample() {
    let pts = point_set(&circle_points(3, -2, 7));
    for &(x, y) in &pts {
        assert!(pts.contains(&(2 * 3 - x, y)));
        assert!(pts.contains(&(x, 2 * (-2) - y)));
        assert!(pts.contains(&(3 + (y - (-2)), -2 + (x - 3))));
    }
}

#[test]
fn rect_distinct_boundary_count() {
    let pts = point_set(&rect_points(10, 300, 60, 500));
    assert_eq!(pts.len(), 2 * 60 + 2 * 500 - 4);
}

#[test]
fn rect_corners_present_interior_absent() {
    let pts = point_set(&rect_points(10, 20, 5, 4));
    assert!(pts.contains(&(10, 20)));
    assert!(pts.contains(&(14, 20)));
    assert!(pts.contains(&(10, 23)));
    assert!(pts.contains(&(14, 23)));
    for x in 11..14 {
        for y in 21..23 {
            assert!(!pts.contains(&(x, y)));
        }
    }
}

#[test]
fn rect_zero_width_draws_single_column() {
    let pts = point_set(&rect_points(4, 2, 0, 5));
    let expected: HashSet<(i32, i32)> = (2..7).map(|y| (4, y)).collect();
    assert_eq!(pts, expected);
}

#[test]
fn rect_drawn_on_canvas() {
    let mut canvas = Canvas::new(1000, 1000, white());
    let rect = Rectangle {
        top_left: Point { x: 10, y: 300, color: red() },
        size: Point { x: 60, y: 500, color: red() },
        color: red(),
    };
    rect.draw(&mut canvas);
    for &(x, y) in &rect_points(10, 300, 60, 500) {
        assert_eq!(canvas.get_pixel(x, y), red());
    }
    assert_eq!(canvas.get_pixel(9, 300), white());
    assert_eq!(canvas.get_pixel(11, 301), white());
}

#[test]
fn triangle_is_union_of_edges() {
    let a = Point { x: 1, y: 1, color: red() };
    let b = Point { x: 14, y: 4, color: red() };
    let c = Point { x: 6, y: 12, color: red() };
    let tri = Triangle { a, b, c, color: red() };
    let mut canvas = Canvas::new(16, 16, white());
    tri.draw(&mut canvas);
    let mut union: HashSet<(i32, i32)> = HashSet::new();
    union.extend(line_points(1, 1, 14, 4));
    union.extend(line_points(14, 4, 6, 12));
    union.extend(line_points(6, 12, 1, 1));
    for x in 0..16 {
        for y in 0..16 {
            let painted = canvas.get_pixel(x, y) == red();
            assert_eq!(painted, union.contains(&(x, y)));
        }
    }
}

#[test]
fn degenerate_triangle_still_draws() {
    let a = Point { x: 0, y: 0, color: red() };
    let b = Point { x: 4, y: 0, color: red() };
    let c = Point { x: 2, y: 0, color: red() };
    let tri = Triangle { a, b, c, color: red() };
    let mut canvas = Canvas::new(8, 8, white());
    tri.draw(&mut canvas);
    for x in 0..5 {
        assert_eq!(canvas.get_pixel(x, 0), red());
    }
    assert_eq!(canvas.get_pixel(5, 0), white());
}

#[test]
fn point_draw_writes_one_pixel() {
    let p = Point { x: 2, y: 3, color: red() };
    let mut canvas = Canvas::new(5, 5, white());
    p.draw(&mut canvas);
    for x in 0..5 {
        for y in 0..5 {
            let expected = if (x, y) == (2, 3) { red() } else { white() };
            assert_eq!(canvas.get_pixel(x, y), expected);
        }
    }
}

#[test]
fn sink_ignores_out_of_bounds_writes() {
    let mut canvas = Canvas::new(4, 4, white());
    canvas.display(-1, 2, red());
    canvas.display(4, 0, red());
    canvas.display(0, -1, red());
    canvas.display(0, 4, red());
    canvas.display(i32::MIN, i32::MAX, red());
    for x in 0..4 {
        for y in 0..4 {
            assert_eq!(canvas.get_pixel(x, y), white());
        }
    }
    canvas.display(2, 1, red());
    assert_eq!(canvas.get_pixel(2, 1), red());
    assert_eq!(canvas.get_pixel(1, 2), white());
}

#[test]
fn shapes_overflowing_the_canvas_are_clipped() {
    let mut canvas = Canvas::new(10, 10, white());
    let circle = Circle {
        center: Point { x: 0, y: 0, color: red() },
        radius: 5,
        color: red(),
    };
    circle.draw(&mut canvas);
    assert_eq!(canvas.get_pixel(5, 0), red());
    assert_eq!(canvas.get_pixel(0, 5), red());
    assert_eq!(canvas.get_pixel(9, 9), white());
}

#[test]
fn canvas_accessors() {
    let canvas = Canvas::new(7, 9, white());
    assert_eq!(canvas.width(), 7);
    assert_eq!(canvas.height(), 9);
}

#[test]
fn draw_is_idempotent() {
    let line = Line {
        start: Point { x: 0, y: 0, color: red() },
        end: Point { x: 7, y: 3, color: red() },
        color: red(),
    };
    let mut once = Canvas::new(8, 8, white());
    line.draw(&mut once);
    let mut twice = Canvas::new(8, 8, white());
    line.draw(&mut twice);
    line.draw(&mut twice);
    for x in 0..8 {
        for y in 0..8 {
            assert_eq!(once.get_pixel(x, y), twice.get_pixel(x, y));
        }
    }
}

#[test]
fn random_point_within_extent() {
    for _ in 0..100 {
        let p = Point::random(10, 8);
        assert!(0 <= p.x && p.x < 10);
        assert!(0 <= p.y && p.y < 8);
    }
}

#[test]
fn random_line_within_extent() {
    for _ in 0..50 {
        let l = Line::random(20, 30);
        assert!(0 <= l.start.x && l.start.x < 20);
        assert!(0 <= l.start.y && l.start.y < 30);
        assert!(0 <= l.end.x && l.end.x < 20);
        assert!(0 <= l.end.y && l.end.y < 30);
    }
}

#[test]
fn random_circle_within_bounds() {
    for _ in 0..50 {
        let c = Circle::random(100, 50);
        assert!(0 <= c.center.x && c.center.x < 100);
        assert!(0 <= c.center.y && c.center.y < 50);
        assert!(10 <= c.radius && c.radius < 50);
    }
}

#[test]
fn shape_color_is_stable() {
    let l = Line::random(10, 10);
    assert_eq!(l.color(), l.color());
    let p = Point::new(1, 2);
    assert_eq!(p.color(), p.color());
    let r = Rectangle::new(&Point::new(0, 0), &Point::new(3, 3));
    assert_eq!(r.color(), r.color());
}

#[test]
fn constructors_keep_their_arguments() {
    let a = Point::new(3, -4);
    assert_eq!((a.x, a.y), (3, -4));
    let b = Point::new(10, 20);
    let l = Line::new(&a, &b);
    assert_eq!((l.start.x, l.start.y), (3, -4));
    assert_eq!((l.end.x, l.end.y), (10, 20));
    let r = Rectangle::new(&a, &Point::new(5, 6));
    assert_eq!((r.top_left.x, r.top_left.y), (3, -4));
    assert_eq!((r.size.x, r.size.y), (5, 6));
    let c = Circle::new(&b, 12);
    assert_eq!((c.center.x, c.center.y), (10, 20));
    assert_eq!(c.radius, 12);
    let t = Triangle::new(&a, &b, &Point::new(0, 0));
    assert_eq!((t.a.x, t.b.x, t.c.x), (3, 10, 0));
}

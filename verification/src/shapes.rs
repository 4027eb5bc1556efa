use vstd::prelude::*;

use crate::circle::{circle_points, circle_seq};
use crate::color::{random_color, Color};
use crate::entropy::random_in_range;
use crate::line::{line_points, line_seq};
use crate::rect::{rect_points, rect_seq};
use crate::sink::{
    blit, coord_ok, lemma_concat_contains, lemma_paint_concat, paint, points_view, Displayable,
    MAX_COORD,
};

verus! {

/// A shape that decomposes itself into a finite, ordered sequence of pixel
/// writes against any sink.
pub trait Drawable: Sized {
    /// Coordinates and extents are small enough for the steppers' `i32`
    /// arithmetic.
    spec fn wf(&self) -> bool;

    /// The ordered points this shape rasterizes to.
    spec fn pixel_seq(&self) -> Seq<(int, int)>;

    /// The color every emitted pixel carries.
    spec fn draw_color(&self) -> Color;

    /// Rasterizes the shape onto `image`: writes the shape's color at each
    /// point of `pixel_seq()`, in order. The sink silently drops whatever
    /// falls outside its grid.
    fn draw<D: Displayable>(&self, image: &mut D)
        requires
            self.wf(),
            old(image).sink_inv(),
        ensures
            final(image).sink_inv(),
            final(image).grid_width() == old(image).grid_width(),
            final(image).grid_height() == old(image).grid_height(),
            final(image).pixels() == paint(
                old(image).pixels(),
                old(image).grid_width(),
                old(image).grid_height(),
                self.pixel_seq(),
                self.draw_color(),
            ),
    ;

    /// The shape's assigned color.
    fn color(&self) -> (c: Color)
        ensures
            c == self.draw_color(),
    ;
}

/// A single pixel with an assigned color.
#[derive(Clone, Copy, Debug)]
pub struct Point {
    pub x: i32,
    pub y: i32,
    pub color: Color,
}

impl Point {
    /// Builds the point `(x, y)` with a randomized color.
    pub fn new(x: i32, y: i32) -> (p: Point)
        ensures
            p.x == x,
            p.y == y,
    {
        Point { x, y, color: random_color() }
    }

    /// Draws a point with coordinates inside a `width` by `height` extent
    /// and a randomized color.
    pub fn random(width: i32, height: i32) -> (p: Point)
        requires
            1 <= width,
            1 <= height,
        ensures
            0 <= p.x < width,
            0 <= p.y < height,
    {
        Point { x: random_in_range(0, width), y: random_in_range(0, height), color: random_color() }
    }
}

impl Drawable for Point {
    open spec fn wf(&self) -> bool {
        coord_ok(self.x as int) && coord_ok(self.y as int)
    }

    open spec fn pixel_seq(&self) -> Seq<(int, int)> {
        seq![(self.x as int, self.y as int)]
    }

    open spec fn draw_color(&self) -> Color {
        self.color
    }

    fn draw<D: Displayable>(&self, image: &mut D) {
        let mut pts: Vec<(i32, i32)> = Vec::new();
        pts.push((self.x, self.y));
        proof {
            assert(points_view(pts@) =~= self.pixel_seq());
        }
        blit(image, &pts, self.color);
    }

    fn color(&self) -> (c: Color) {
        self.color
    }
}

/// A straight segment between two endpoints, with an assigned color.
#[derive(Clone, Copy, Debug)]
pub struct Line {
    pub start: Point,
    pub end: Point,
    pub color: Color,
}

impl Line {
    /// Builds the segment between copies of the two endpoints, with a
    /// randomized color.
    pub fn new(start: &Point, end: &Point) -> (l: Line)
        ensures
            l.start == *start,
            l.end == *end,
    {
        Line { start: *start, end: *end, color: random_color() }
    }

    /// Draws a segment with both endpoints inside a `width` by `height`
    /// extent and a randomized color.
    pub fn random(width: i32, height: i32) -> (l: Line)
        requires
            1 <= width,
            1 <= height,
        ensures
            0 <= l.start.x < width,
            0 <= l.start.y < height,
            0 <= l.end.x < width,
            0 <= l.end.y < height,
    {
        Line {
            start: Point::random(width, height),
            end: Point::random(width, height),
            color: random_color(),
        }
    }
}

impl Drawable for Line {
    open spec fn wf(&self) -> bool {
        coord_ok(self.start.x as int) && coord_ok(self.start.y as int) && coord_ok(
            self.end.x as int,
        ) && coord_ok(self.end.y as int)
    }

    open spec fn pixel_seq(&self) -> Seq<(int, int)> {
        line_seq(self.start.x as int, self.start.y as int, self.end.x as int, self.end.y as int)
    }

    open spec fn draw_color(&self) -> Color {
        self.color
    }

    fn draw<D: Displayable>(&self, image: &mut D) {
        let pts = line_points(self.start.x, self.start.y, self.end.x, self.end.y);
        blit(image, &pts, self.color);
    }

    fn color(&self) -> (c: Color) {
        self.color
    }
}

/// An axis-aligned rectangle outline given by its top-left corner and its
/// extents, with an assigned color.
#[derive(Clone, Copy, Debug)]
pub struct Rectangle {
    pub top_left: Point,
    pub size: Point,
    pub color: Color,
}

impl Rectangle {
    /// Builds the rectangle with corner `top_left` and extents `size`, with
    /// a randomized color. Negative extents are rejected outright rather
    /// than producing a degraded shape.
    pub fn new(top_left: &Point, size: &Point) -> (r: Rectangle)
        requires
            0 <= size.x,
            0 <= size.y,
        ensures
            r.top_left == *top_left,
            r.size == *size,
    {
        Rectangle { top_left: *top_left, size: *size, color: random_color() }
    }
}

impl Drawable for Rectangle {
    open spec fn wf(&self) -> bool {
        coord_ok(self.top_left.x as int) && coord_ok(self.top_left.y as int) && 0 <= self.size.x
            <= MAX_COORD && 0 <= self.size.y <= MAX_COORD
    }

    open spec fn pixel_seq(&self) -> Seq<(int, int)> {
        rect_seq(
            self.top_left.x as int,
            self.top_left.y as int,
            self.size.x as int,
            self.size.y as int,
        )
    }

    open spec fn draw_color(&self) -> Color {
        self.color
    }

    fn draw<D: Displayable>(&self, image: &mut D) {
        let pts = rect_points(self.top_left.x, self.top_left.y, self.size.x, self.size.y);
        blit(image, &pts, self.color);
    }

    fn color(&self) -> (c: Color) {
        self.color
    }
}

/// A triangle outline given by its three vertices, with an assigned color.
/// The vertices carry no ordering invariant; collinear vertices still
/// rasterize to valid, overlapping segments.
#[derive(Clone, Copy, Debug)]
pub struct Triangle {
    pub a: Point,
    pub b: Point,
    pub c: Point,
    pub color: Color,
}

impl Triangle {
    /// Builds the triangle on copies of the three vertices, with a
    /// randomized color.
    pub fn new(a: &Point, b: &Point, c: &Point) -> (t: Triangle)
        ensures
            t.a == *a,
            t.b == *b,
            t.c == *c,
    {
        Triangle { a: *a, b: *b, c: *c, color: random_color() }
    }
}

impl Drawable for Triangle {
    open spec fn wf(&self) -> bool {
        coord_ok(self.a.x as int) && coord_ok(self.a.y as int) && coord_ok(self.b.x as int)
            && coord_ok(self.b.y as int) && coord_ok(self.c.x as int) && coord_ok(self.c.y as int)
    }

    open spec fn pixel_seq(&self) -> Seq<(int, int)> {
        line_seq(self.a.x as int, self.a.y as int, self.b.x as int, self.b.y as int) + line_seq(
            self.b.x as int,
            self.b.y as int,
            self.c.x as int,
            self.c.y as int,
        ) + line_seq(self.c.x as int, self.c.y as int, self.a.x as int, self.a.y as int)
    }

    open spec fn draw_color(&self) -> Color {
        self.color
    }

    fn draw<D: Displayable>(&self, image: &mut D) {
        let ghost m0 = old(image).pixels();
        let ghost w = old(image).grid_width();
        let ghost h = old(image).grid_height();
        let pab = line_points(self.a.x, self.a.y, self.b.x, self.b.y);
        let pbc = line_points(self.b.x, self.b.y, self.c.x, self.c.y);
        let pca = line_points(self.c.x, self.c.y, self.a.x, self.a.y);
        blit(image, &pab, self.color);
        blit(image, &pbc, self.color);
        blit(image, &pca, self.color);
        proof {
            let sab = points_view(pab@);
            let sbc = points_view(pbc@);
            let sca = points_view(pca@);
            lemma_paint_concat(m0, w, h, sab, sbc, self.color);
            lemma_paint_concat(m0, w, h, sab + sbc, sca, self.color);
            assert(self.pixel_seq() == (sab + sbc) + sca);
        }
    }

    fn color(&self) -> (c: Color) {
        self.color
    }
}

/// A circle outline given by its center and non-negative radius, with an
/// assigned color.
#[derive(Clone, Copy, Debug)]
pub struct Circle {
    pub center: Point,
    pub radius: i32,
    pub color: Color,
}

impl Circle {
    /// Builds the circle around a copy of `center`. A negative radius is
    /// rejected outright rather than producing a degraded shape.
    pub fn new(center: &Point, radius: i32) -> (c: Circle)
        requires
            0 <= radius,
        ensures
            c.center == *center,
            c.radius == radius,
    {
        Circle { center: *center, radius, color: random_color() }
    }

    /// Draws a circle with its center inside a `width` by `height` extent,
    /// a radius between 10 and 49, and a randomized color.
    pub fn random(width: i32, height: i32) -> (c: Circle)
        requires
            1 <= width,
            1 <= height,
        ensures
            0 <= c.center.x < width,
            0 <= c.center.y < height,
            10 <= c.radius < 50,
    {
        let radius = random_in_range(10, 50);
        Circle { center: Point::random(width, height), radius, color: random_color() }
    }
}

impl Drawable for Circle {
    open spec fn wf(&self) -> bool {
        coord_ok(self.center.x as int) && coord_ok(self.center.y as int) && 0 <= self.radius
            <= MAX_COORD
    }

    open spec fn pixel_seq(&self) -> Seq<(int, int)> {
        circle_seq(self.center.x as int, self.center.y as int, self.radius as int)
    }

    open spec fn draw_color(&self) -> Color {
        self.color
    }

    fn draw<D: Displayable>(&self, image: &mut D) {
        let pts = circle_points(self.center.x, self.center.y, self.radius);
        blit(image, &pts, self.color);
    }

    fn color(&self) -> (c: Color) {
        self.color
    }
}

/// Law: the triangle outline is exactly the union of the pixel sets of its
/// three edge segments.
pub proof fn lemma_triangle_edges_union(t: Triangle, p: (int, int))
    ensures
        t.pixel_seq().contains(p) <==> line_seq(
            t.a.x as int,
            t.a.y as int,
            t.b.x as int,
            t.b.y as int,
        ).contains(p) || line_seq(t.b.x as int, t.b.y as int, t.c.x as int, t.c.y as int).contains(
            p,
        ) || line_seq(t.c.x as int, t.c.y as int, t.a.x as int, t.a.y as int).contains(p),
{
    let sab = line_seq(t.a.x as int, t.a.y as int, t.b.x as int, t.b.y as int);
    let sbc = line_seq(t.b.x as int, t.b.y as int, t.c.x as int, t.c.y as int);
    let sca = line_seq(t.c.x as int, t.c.y as int, t.a.x as int, t.a.y as int);
    lemma_concat_contains(sab, sbc, p);
    lemma_concat_contains(sab + sbc, sca, p);
    assert(t.pixel_seq() == (sab + sbc) + sca);
}

} // verus!

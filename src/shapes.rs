//! The shapes, how each resolves its color, and which pixels each covers.

use vstd::prelude::*;
use raster::{Color, Image};
use crate::canvas::{canvas_ok, painted, plot, lemma_painted_union};
use crate::palette::{copy_color, opaque, opaque_color, random_below, random_channel, random_color, resolve_or_draw};
use crate::segment::{between, draw_segment, line_pixels, lemma_column_pixels, lemma_diagonal_pixels, lemma_row_pixels};
use crate::midpoint::{circle_pixels, draw_circle};
use crate::segment::abs_diff;

verus! {

/// A pixel position, with the color it is drawn in once one is resolved.
pub struct Point(pub i32, pub i32, pub Option<Color>);

/// Three corners, joined pairwise by lines.
pub struct Triangle(pub Point, pub Point, pub Point, pub Option<Color>);

/// A straight line from its first point to its second.
pub struct Line(pub Point, pub Point, pub Option<Color>);

/// An axis-aligned box given by two opposite corners.
pub struct Rectangle(pub Point, pub Point, pub Option<Color>);

/// A center and a radius.
pub struct Circle(pub Point, pub i32, pub Option<Color>);

/// A wireframe box: the rectangle of two corners, a copy of it shifted
/// diagonally, and four struts joining their corners.
pub struct Cube(pub Point, pub Point, pub Option<Color>);

/// The outline of the box with opposite corners `(x1, y1)` and `(x2, y2)`.
pub open spec fn outline(x1: int, y1: int, x2: int, y2: int) -> Set<(int, int)> {
    Set::new(|p: (int, int)|
        ((p.1 == y1 || p.1 == y2) && between(p.0, x1, x2)) || ((p.0 == x1 || p.0 == x2) && between(p.1, y1, y2)))
}

/// The pixels of the four edges of a box: top, left, right and bottom.
pub open spec fn box_edges(x1: int, y1: int, x2: int, y2: int) -> Set<(int, int)> {
    line_pixels(x1, y1, x2, y1)
        .union(line_pixels(x1, y1, x1, y2))
        .union(line_pixels(x2, y1, x2, y2))
        .union(line_pixels(x1, y2, x2, y2))
}

/// The four edge lines of a box cover exactly its outline, whatever the order
/// of its corners.
pub proof fn lemma_box_edges_outline(x1: int, y1: int, x2: int, y2: int)
    ensures
        box_edges(x1, y1, x2, y2) == outline(x1, y1, x2, y2),
{
    lemma_row_pixels(x1, x2, y1);
    lemma_row_pixels(x1, x2, y2);
    lemma_column_pixels(x1, y1, y2);
    lemma_column_pixels(x2, y1, y2);
    assert(box_edges(x1, y1, x2, y2) =~= outline(x1, y1, x2, y2));
}

/// How far the back face of a cube is shifted along each axis: half the width
/// of its front face, rounded down.
pub open spec fn cube_shift(x1: int, x2: int) -> int {
    abs_diff(x1, x2) / 2
}

/// The pixels of the cube with front corners `(x1, y1)` and `(x2, y2)`: the
/// front face, the back face shifted by `m` on both axes, and the four struts.
pub open spec fn cube_pixels(x1: int, y1: int, x2: int, y2: int) -> Set<(int, int)> {
    let m = cube_shift(x1, x2);
    outline(x1, y1, x2, y2)
        .union(outline(x1 + m, y1 + m, x2 + m, y2 + m))
        .union(line_pixels(x1, y1, x1 + m, y1 + m))
        .union(line_pixels(x2, y1, x2 + m, y1 + m))
        .union(line_pixels(x1, y2, x1 + m, y2 + m))
        .union(line_pixels(x2, y2, x2 + m, y2 + m))
}

pub open spec fn fits_i32(v: int) -> bool {
    i32::MIN <= v <= i32::MAX
}

/// The point built from drawn values.
pub open spec fn point_from_draws(x: i32, y: i32, r: u8, g: u8, b: u8) -> Point {
    Point(x, y, Some(opaque(r, g, b)))
}

/// The circle built from drawn values.
pub open spec fn circle_from_draws(x: i32, y: i32, radius: i32, r: u8, g: u8, b: u8) -> Circle {
    Circle(Point(x, y, None), radius, Some(opaque(r, g, b)))
}

/// A point or circle built from drawn values is fixed by them: two such
/// shapes are the same exactly when the values drawn for them, in drawing
/// order, are the same.
pub proof fn lemma_draws_determine_shapes(
    p: (i32, i32, u8, u8, u8),
    q: (i32, i32, u8, u8, u8),
    c: (i32, i32, i32, u8, u8, u8),
    d: (i32, i32, i32, u8, u8, u8),
)
    ensures
        point_from_draws(p.0, p.1, p.2, p.3, p.4) == point_from_draws(q.0, q.1, q.2, q.3, q.4) <==> p == q,
        circle_from_draws(c.0, c.1, c.2, c.3, c.4, c.5) == circle_from_draws(d.0, d.1, d.2, d.3, d.4, d.5) <==> c == d,
{
    if point_from_draws(p.0, p.1, p.2, p.3, p.4) == point_from_draws(q.0, q.1, q.2, q.3, q.4) {
        assert(opaque(p.2, p.3, p.4).r == opaque(q.2, q.3, q.4).r);
        assert(opaque(p.2, p.3, p.4).g == opaque(q.2, q.3, q.4).g);
        assert(opaque(p.2, p.3, p.4).b == opaque(q.2, q.3, q.4).b);
    }
    if circle_from_draws(c.0, c.1, c.2, c.3, c.4, c.5) == circle_from_draws(d.0, d.1, d.2, d.3, d.4, d.5) {
        assert(opaque(c.3, c.4, c.5).r == opaque(d.3, d.4, d.5).r);
        assert(opaque(c.3, c.4, c.5).g == opaque(d.3, d.4, d.5).g);
        assert(opaque(c.3, c.4, c.5).b == opaque(d.3, d.4, d.5).b);
    }
}

/// What every shape offers: drawing on an image, and resolving its color.
pub trait Drawable {
    /// The pixels the shape covers.
    spec fn pixels(&self) -> Set<(int, int)>;

    /// The color the shape carries, if one is resolved.
    spec fn assigned(&self) -> Option<Color>;

    /// The shape's derived coordinates fit in `i32`.
    spec fn fits(&self) -> bool;

    /// The numbers that place the shape: the coordinates of its defining
    /// points, in order, and for a circle its radius.
    spec fn geometry(&self) -> Seq<int>;

    /// The shape must always carry a color, so that setting none draws one.
    spec fn eager(&self) -> bool;

    /// Draws the shape in a single color: its own when it has one.
    fn draw(&self, image: &mut Image)
        requires
            canvas_ok(*old(image)),
            self.fits(),
        ensures
            canvas_ok(*final(image)),
            exists|c: Color|
                #[trigger] painted(*old(image), *final(image), self.pixels(), c) && (self.assigned() is Some
                    ==> c == self.assigned()->0),
    ;

    /// Gives the shape `color`. When none is given, a shape that must always
    /// carry a color gets an opaque one drawn at random, and any other shape
    /// is left without one.
    fn color(&mut self, color: Option<Color>)
        ensures
            final(self).geometry() == old(self).geometry(),
            final(self).pixels() == old(self).pixels(),
            final(self).fits() == old(self).fits(),
            final(self).eager() == old(self).eager(),
            color is Some ==> final(self).assigned() == color,
            color is None ==> if old(self).eager() {
                final(self).assigned() is Some && final(self).assigned()->0.a == 255
            } else {
                final(self).assigned() is None
            },
    ;
}

fn uncolored(x: i32, y: i32) -> (p: Point)
    ensures
        p == Point(x, y, None),
{
    Point(x, y, None)
}

impl Point {
    /// The point `(x, y)` with a color drawn at random.
    pub fn new(x: i32, y: i32) -> (p: Self)
        ensures
            p.0 == x,
            p.1 == y,
            p.2 is Some,
            p.2->0.a == 255,
    {
        let r = random_channel();
        let g = random_channel();
        let b = random_channel();
        Point::from_draws(x, y, r, g, b)
    }

    /// The point that drawn values give: coordinates `x` and `y`, and the
    /// opaque color of channels `r`, `g` and `b`.
    pub fn from_draws(x: i32, y: i32, r: u8, g: u8, b: u8) -> (p: Self)
        ensures
            p == point_from_draws(x, y, r, g, b),
    {
        Point(x, y, Some(opaque_color(r, g, b)))
    }

    /// A point with `0 <= x < width` and `0 <= y < height`.
    pub fn random(width: i32, height: i32) -> (p: Self)
        requires
            width > 0,
            height > 0,
        ensures
            0 <= p.0 < width,
            0 <= p.1 < height,
            p.2 is Some,
            p.2->0.a == 255,
    {
        let x = random_below(width);
        let y = random_below(height);
        Point::new(x, y)
    }

    /// Draws the point in `color` when it lies inside the image.
    pub fn draw_with_color(&self, image: &mut Image, color: &Color)
        requires
            canvas_ok(*old(image)),
        ensures
            canvas_ok(*final(image)),
            painted(*old(image), *final(image), self.pixels(), *color),
    {
        plot(image, self.0 as i64, self.1 as i64, color);
    }
}

impl Drawable for Point {
    open spec fn pixels(&self) -> Set<(int, int)> {
        set![(self.0 as int, self.1 as int)]
    }

    open spec fn assigned(&self) -> Option<Color> {
        self.2
    }

    open spec fn geometry(&self) -> Seq<int> {
        seq![self.0 as int, self.1 as int]
    }

    open spec fn eager(&self) -> bool {
        true
    }

    open spec fn fits(&self) -> bool {
        true
    }

    fn draw(&self, image: &mut Image) {
        let c = resolve_or_draw(&self.2);
        self.draw_with_color(image, &c);
    }

    fn color(&mut self, color: Option<Color>) {
        self.2 = Some(resolve_or_draw(&color));
    }
}

impl Line {
    /// The line from `p1` to `p2`, with a color drawn at random.
    pub fn new(p1: &Point, p2: &Point) -> (l: Self)
        ensures
            l.0.0 == p1.0 && l.0.1 == p1.1,
            l.1.0 == p2.0 && l.1.1 == p2.1,
            l.2 is Some,
            l.2->0.a == 255,
    {
        Line(uncolored(p1.0, p1.1), uncolored(p2.0, p2.1), Some(random_color()))
    }

    /// A line between two random points of the `width` by `height` area.
    pub fn random(width: i32, height: i32) -> (l: Self)
        requires
            width > 0,
            height > 0,
        ensures
            0 <= l.0.0 < width && 0 <= l.0.1 < height,
            0 <= l.1.0 < width && 0 <= l.1.1 < height,
            l.2 is Some,
    {
        Line::new(&Point::random(width, height), &Point::random(width, height))
    }

    /// Draws the line in `color`.
    pub fn draw_with_color(&self, image: &mut Image, color: &Color)
        requires
            canvas_ok(*old(image)),
        ensures
            canvas_ok(*final(image)),
            painted(*old(image), *final(image), self.pixels(), *color),
    {
        draw_segment(image, self.0.0, self.0.1, self.1.0, self.1.1, color);
    }
}

impl Drawable for Line {
    open spec fn pixels(&self) -> Set<(int, int)> {
        line_pixels(self.0.0 as int, self.0.1 as int, self.1.0 as int, self.1.1 as int)
    }

    open spec fn assigned(&self) -> Option<Color> {
        self.2
    }

    open spec fn geometry(&self) -> Seq<int> {
        seq![self.0.0 as int, self.0.1 as int, self.1.0 as int, self.1.1 as int]
    }

    open spec fn eager(&self) -> bool {
        true
    }

    open spec fn fits(&self) -> bool {
        true
    }

    fn draw(&self, image: &mut Image) {
        let c = resolve_or_draw(&self.2);
        self.draw_with_color(image, &c);
    }

    fn color(&mut self, color: Option<Color>) {
        self.2 = Some(resolve_or_draw(&color));
    }
}

/// Draws the line from `(x1, y1)` to `(x2, y2)` in `color` as a `Line` of its own.
fn edge(image: &mut Image, x1: i32, y1: i32, x2: i32, y2: i32, color: &Color)
    requires
        canvas_ok(*old(image)),
    ensures
        canvas_ok(*final(image)),
        painted(*old(image), *final(image), line_pixels(x1 as int, y1 as int, x2 as int, y2 as int), *color),
{
    let line = Line(uncolored(x1, y1), uncolored(x2, y2), Some(copy_color(color)));
    line.draw_with_color(image, color);
}

impl Rectangle {
    /// The box with opposite corners `p1` and `p2`, with a color drawn at random.
    pub fn new(p1: &Point, p2: &Point) -> (r: Self)
        ensures
            r.0.0 == p1.0 && r.0.1 == p1.1,
            r.1.0 == p2.0 && r.1.1 == p2.1,
            r.2 is Some,
            r.2->0.a == 255,
    {
        Rectangle(uncolored(p1.0, p1.1), uncolored(p2.0, p2.1), Some(random_color()))
    }

    /// A box between two random points of the `width` by `height` area.
    pub fn random(width: i32, height: i32) -> (r: Self)
        requires
            width > 0,
            height > 0,
        ensures
            0 <= r.0.0 < width && 0 <= r.0.1 < height,
            0 <= r.1.0 < width && 0 <= r.1.1 < height,
            r.2 is Some,
    {
        Rectangle::new(&Point::random(width, height), &Point::random(width, height))
    }

    /// The two other corners of the box: top right, then bottom left.
    pub fn other_point(&self, top_left: &Point, bottom_right: &Point) -> (r: (Point, Point))
        ensures
            r.0 == Point(bottom_right.0, top_left.1, None),
            r.1 == Point(top_left.0, bottom_right.1, None),
    {
        let top_right = uncolored(bottom_right.0, top_left.1);
        let bottom_left = uncolored(top_left.0, bottom_right.1);
        (top_right, bottom_left)
    }

    /// Draws the four edges in `color`.
    pub fn draw_with_color(&self, image: &mut Image, color: &Color)
        requires
            canvas_ok(*old(image)),
        ensures
            canvas_ok(*final(image)),
            painted(*old(image), *final(image), self.pixels(), *color),
    {
        let (top_right, bottom_left) = self.other_point(&self.0, &self.1);
        let ghost i0 = *image;
        edge(image, self.0.0, self.0.1, top_right.0, top_right.1, color);
        let ghost i1 = *image;
        edge(image, self.0.0, self.0.1, bottom_left.0, bottom_left.1, color);
        let ghost i2 = *image;
        edge(image, top_right.0, top_right.1, self.1.0, self.1.1, color);
        let ghost i3 = *image;
        edge(image, bottom_left.0, bottom_left.1, self.1.0, self.1.1, color);
        proof {
            let (a, b, c, d) = (self.0.0 as int, self.0.1 as int, self.1.0 as int, self.1.1 as int);
            lemma_painted_union(i0, i1, i2, line_pixels(a, b, c, b), line_pixels(a, b, a, d), *color);
            lemma_painted_union(i0, i2, i3, line_pixels(a, b, c, b).union(line_pixels(a, b, a, d)), line_pixels(c, b, c, d), *color);
            lemma_painted_union(i0, i3, *image, line_pixels(a, b, c, b).union(line_pixels(a, b, a, d)).union(line_pixels(c, b, c, d)), line_pixels(a, d, c, d), *color);
            lemma_box_edges_outline(a, b, c, d);
        }
    }
}

impl Drawable for Rectangle {
    open spec fn pixels(&self) -> Set<(int, int)> {
        outline(self.0.0 as int, self.0.1 as int, self.1.0 as int, self.1.1 as int)
    }

    open spec fn assigned(&self) -> Option<Color> {
        self.2
    }

    open spec fn geometry(&self) -> Seq<int> {
        seq![self.0.0 as int, self.0.1 as int, self.1.0 as int, self.1.1 as int]
    }

    open spec fn eager(&self) -> bool {
        true
    }

    open spec fn fits(&self) -> bool {
        true
    }

    fn draw(&self, image: &mut Image) {
        let c = resolve_or_draw(&self.2);
        self.draw_with_color(image, &c);
    }

    fn color(&mut self, color: Option<Color>) {
        self.2 = Some(resolve_or_draw(&color));
    }
}

impl Triangle {
    /// The triangle with corners `p1`, `p2` and `p3`, carrying `color` as given.
    pub fn new(p1: &Point, p2: &Point, p3: &Point, color: Option<Color>) -> (t: Self)
        ensures
            t.0 == Point(p1.0, p1.1, None),
            t.1 == Point(p2.0, p2.1, None),
            t.2 == Point(p3.0, p3.1, None),
            t.3 == color,
    {
        Triangle(uncolored(p1.0, p1.1), uncolored(p2.0, p2.1), uncolored(p3.0, p3.1), color)
    }

    /// A triangle with three random corners in the `width` by `height` area.
    pub fn random(width: i32, height: i32, color: Option<Color>) -> (t: Self)
        requires
            width > 0,
            height > 0,
        ensures
            0 <= t.0.0 < width && 0 <= t.0.1 < height,
            0 <= t.1.0 < width && 0 <= t.1.1 < height,
            0 <= t.2.0 < width && 0 <= t.2.1 < height,
            t.3 == color,
    {
        Triangle::new(&Point::random(width, height), &Point::random(width, height), &Point::random(width, height), color)
    }

    /// Draws the sides `p1 -> p2`, `p2 -> p3` and `p3 -> p1` in `color`.
    pub fn draw_with_color(&self, image: &mut Image, color: &Color)
        requires
            canvas_ok(*old(image)),
        ensures
            canvas_ok(*final(image)),
            painted(*old(image), *final(image), self.pixels(), *color),
    {
        let (p1, p2, p3) = (&self.0, &self.1, &self.2);
        let ghost i0 = *image;
        edge(image, p1.0, p1.1, p2.0, p2.1, color);
        let ghost i1 = *image;
        edge(image, p2.0, p2.1, p3.0, p3.1, color);
        let ghost i2 = *image;
        edge(image, p3.0, p3.1, p1.0, p1.1, color);
        proof {
            let s1 = line_pixels(p1.0 as int, p1.1 as int, p2.0 as int, p2.1 as int);
            let s2 = line_pixels(p2.0 as int, p2.1 as int, p3.0 as int, p3.1 as int);
            let s3 = line_pixels(p3.0 as int, p3.1 as int, p1.0 as int, p1.1 as int);
            lemma_painted_union(i0, i1, i2, s1, s2, *color);
            lemma_painted_union(i0, i2, *image, s1.union(s2), s3, *color);
        }
    }
}

impl Drawable for Triangle {
    open spec fn pixels(&self) -> Set<(int, int)> {
        line_pixels(self.0.0 as int, self.0.1 as int, self.1.0 as int, self.1.1 as int)
            .union(line_pixels(self.1.0 as int, self.1.1 as int, self.2.0 as int, self.2.1 as int))
            .union(line_pixels(self.2.0 as int, self.2.1 as int, self.0.0 as int, self.0.1 as int))
    }

    open spec fn assigned(&self) -> Option<Color> {
        self.3
    }

    open spec fn geometry(&self) -> Seq<int> {
        seq![self.0.0 as int, self.0.1 as int, self.1.0 as int, self.1.1 as int, self.2.0 as int, self.2.1 as int]
    }

    open spec fn eager(&self) -> bool {
        false
    }

    open spec fn fits(&self) -> bool {
        true
    }

    fn draw(&self, image: &mut Image) {
        let c = resolve_or_draw(&self.3);
        self.draw_with_color(image, &c);
    }

    fn color(&mut self, color: Option<Color>) {
        self.3 = color;
    }
}

impl Circle {
    /// The circle around `center` with radius `radius`, with a color drawn at random.
    pub fn new(center: &Point, radius: i32) -> (c: Self)
        ensures
            c.0 == Point(center.0, center.1, None),
            c.1 == radius,
            c.2 is Some,
            c.2->0.a == 255,
    {
        let r = random_channel();
        let g = random_channel();
        let b = random_channel();
        Circle::from_draws(center.0, center.1, radius, r, g, b)
    }

    /// The circle that drawn values give: center `(x, y)`, radius `radius`,
    /// and the opaque color of channels `r`, `g` and `b`.
    pub fn from_draws(x: i32, y: i32, radius: i32, r: u8, g: u8, b: u8) -> (c: Self)
        ensures
            c == circle_from_draws(x, y, radius, r, g, b),
    {
        Circle(uncolored(x, y), radius, Some(opaque_color(r, g, b)))
    }

    /// A circle with a random center in the `width` by `height` area and a
    /// random radius with `0 <= radius < min(width, height) / 2`.
    pub fn random(width: i32, height: i32) -> (c: Self)
        requires
            width >= 2,
            height >= 2,
        ensures
            0 <= c.0.0 < width && 0 <= c.0.1 < height,
            0 <= c.1 < (if width <= height { width } else { height }) / 2,
            c.2 is Some,
    {
        let x = random_below(width);
        let y = random_below(height);
        let side = if width <= height { width } else { height };
        let radius = random_below(side / 2);
        Circle::new(&Point(x, y, None), radius)
    }

    /// Draws the circle in `color`.
    pub fn draw_with_color(&self, image: &mut Image, color: &Color)
        requires
            canvas_ok(*old(image)),
        ensures
            canvas_ok(*final(image)),
            painted(*old(image), *final(image), self.pixels(), *color),
    {
        draw_circle(image, self.0.0, self.0.1, self.1, color);
    }
}

impl Drawable for Circle {
    open spec fn pixels(&self) -> Set<(int, int)> {
        circle_pixels(self.0.0 as int, self.0.1 as int, self.1 as int)
    }

    open spec fn assigned(&self) -> Option<Color> {
        self.2
    }

    open spec fn geometry(&self) -> Seq<int> {
        seq![self.0.0 as int, self.0.1 as int, self.1 as int]
    }

    open spec fn eager(&self) -> bool {
        true
    }

    open spec fn fits(&self) -> bool {
        true
    }

    fn draw(&self, image: &mut Image) {
        let c = resolve_or_draw(&self.2);
        self.draw_with_color(image, &c);
    }

    fn color(&mut self, color: Option<Color>) {
        self.2 = Some(resolve_or_draw(&color));
    }
}

impl Cube {
    /// The cube whose front face has opposite corners `p1` and `p2`, with a
    /// color drawn at random.
    pub fn new(p1: &Point, p2: &Point) -> (c: Self)
        ensures
            c.0 == Point(p1.0, p1.1, None),
            c.1 == Point(p2.0, p2.1, None),
            c.2 is Some,
            c.2->0.a == 255,
    {
        Cube(uncolored(p1.0, p1.1), uncolored(p2.0, p2.1), Some(random_color()))
    }

    /// A cube whose front corners are two random points of the `width` by
    /// `height` area.
    pub fn random(width: i32, height: i32) -> (c: Self)
        requires
            width > 0,
            height > 0,
        ensures
            0 <= c.0.0 < width && 0 <= c.0.1 < height,
            0 <= c.1.0 < width && 0 <= c.1.1 < height,
            c.2 is Some,
    {
        Cube::new(&Point::random(width, height), &Point::random(width, height))
    }

    /// Draws the front face, the shifted back face and the four struts, all in `color`.
    pub fn draw_with_color(&self, image: &mut Image, color: &Color)
        requires
            canvas_ok(*old(image)),
            self.fits(),
        ensures
            canvas_ok(*final(image)),
            painted(*old(image), *final(image), self.pixels(), *color),
    {
        let front = Rectangle(uncolored(self.0.0, self.0.1), uncolored(self.1.0, self.1.1), Some(copy_color(color)));
        let (top_right, bottom_left) = front.other_point(&front.0, &front.1);
        let tl = &front.0;
        let br = &front.1;
        let width: i64 = if tl.0 <= top_right.0 { top_right.0 as i64 - tl.0 as i64 } else { tl.0 as i64 - top_right.0 as i64 };
        let m = (width / 2) as i32;
        let back = Rectangle(uncolored(tl.0 + m, tl.1 + m), uncolored(top_right.0 + m, br.1 + m), Some(copy_color(color)));
        let ghost i0 = *image;
        front.draw_with_color(image, color);
        let ghost i1 = *image;
        back.draw_with_color(image, color);
        let ghost i2 = *image;
        edge(image, tl.0, tl.1, tl.0 + m, tl.1 + m, color);
        let ghost i3 = *image;
        edge(image, top_right.0, top_right.1, top_right.0 + m, top_right.1 + m, color);
        let ghost i4 = *image;
        edge(image, bottom_left.0, bottom_left.1, bottom_left.0 + m, bottom_left.1 + m, color);
        let ghost i5 = *image;
        edge(image, br.0, br.1, br.0 + m, br.1 + m, color);
        proof {
            let (x1, y1, x2, y2, k) = (self.0.0 as int, self.0.1 as int, self.1.0 as int, self.1.1 as int, m as int);
            let s1 = outline(x1, y1, x2, y2);
            let s2 = s1.union(outline(x1 + k, y1 + k, x2 + k, y2 + k));
            let s3 = s2.union(line_pixels(x1, y1, x1 + k, y1 + k));
            let s4 = s3.union(line_pixels(x2, y1, x2 + k, y1 + k));
            let s5 = s4.union(line_pixels(x1, y2, x1 + k, y2 + k));
            lemma_painted_union(i0, i1, i2, s1, outline(x1 + k, y1 + k, x2 + k, y2 + k), *color);
            lemma_painted_union(i0, i2, i3, s2, line_pixels(x1, y1, x1 + k, y1 + k), *color);
            lemma_painted_union(i0, i3, i4, s3, line_pixels(x2, y1, x2 + k, y1 + k), *color);
            lemma_painted_union(i0, i4, i5, s4, line_pixels(x1, y2, x1 + k, y2 + k), *color);
            lemma_painted_union(i0, i5, *image, s5, line_pixels(x2, y2, x2 + k, y2 + k), *color);
        }
    }
}

impl Drawable for Cube {
    open spec fn pixels(&self) -> Set<(int, int)> {
        cube_pixels(self.0.0 as int, self.0.1 as int, self.1.0 as int, self.1.1 as int)
    }

    open spec fn assigned(&self) -> Option<Color> {
        self.2
    }

    open spec fn geometry(&self) -> Seq<int> {
        seq![self.0.0 as int, self.0.1 as int, self.1.0 as int, self.1.1 as int]
    }

    open spec fn eager(&self) -> bool {
        true
    }

    open spec fn fits(&self) -> bool {
        let m = cube_shift(self.0.0 as int, self.1.0 as int);
        &&& fits_i32(self.0.0 + m)
        &&& fits_i32(self.0.1 + m)
        &&& fits_i32(self.1.0 + m)
        &&& fits_i32(self.1.1 + m)
    }

    fn draw(&self, image: &mut Image) {
        let c = resolve_or_draw(&self.2);
        self.draw_with_color(image, &c);
    }

    fn color(&mut self, color: Option<Color>) {
        self.2 = Some(resolve_or_draw(&color));
    }
}

/// The diagonal pixels `(x + i, y + i)` with `0 <= i <= m`.
pub open spec fn diagonal(x: int, y: int, m: int) -> Set<(int, int)> {
    Set::new(|p: (int, int)| p.0 - x == p.1 - y && 0 <= p.0 - x <= m)
}

/// A cube covers the four edge lines of its front face, the four edge lines of
/// that face shifted by `m`, half its width rounded down, along both axes,
/// and four struts; nothing else. Each strut is the diagonal of `m + 1`
/// pixels from a corner of the front face (top left, top right, bottom left,
/// bottom right) to the matching corner of the back face.
pub proof fn lemma_cube_parts(x1: int, y1: int, x2: int, y2: int)
    ensures
        ({
            let m = cube_shift(x1, x2);
            &&& m == abs_diff(x1, x2) / 2
            &&& cube_pixels(x1, y1, x2, y2) == box_edges(x1, y1, x2, y2)
                .union(box_edges(x1 + m, y1 + m, x2 + m, y2 + m))
                .union(line_pixels(x1, y1, x1 + m, y1 + m))
                .union(line_pixels(x2, y1, x2 + m, y1 + m))
                .union(line_pixels(x1, y2, x1 + m, y2 + m))
                .union(line_pixels(x2, y2, x2 + m, y2 + m))
            &&& cube_pixels(x1, y1, x2, y2) == outline(x1, y1, x2, y2)
                .union(outline(x1 + m, y1 + m, x2 + m, y2 + m))
                .union(diagonal(x1, y1, m))
                .union(diagonal(x2, y1, m))
                .union(diagonal(x1, y2, m))
                .union(diagonal(x2, y2, m))
        }),
{
    let m = cube_shift(x1, x2);
    lemma_box_edges_outline(x1, y1, x2, y2);
    lemma_box_edges_outline(x1 + m, y1 + m, x2 + m, y2 + m);
    lemma_diagonal_pixels(x1, y1, m);
    lemma_diagonal_pixels(x2, y1, m);
    lemma_diagonal_pixels(x1, y2, m);
    lemma_diagonal_pixels(x2, y2, m);
}

} // verus!

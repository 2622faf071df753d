//! The shapes and their drawing algorithms.

use vstd::prelude::*;
use vstd::math::max;
use vstd::math::min;
use crate::canvas::Displayable;
use crate::canvas::PixelWrite;
use crate::color::Color;
use crate::line_path::line_point_at;
use crate::line_path::line_points;
use crate::line_path::line_steps;
use crate::line_path::lemma_line_point_in_box;
use crate::circle_path::circle_head_ok;
use crate::circle_path::circle_d_exact;
use crate::circle_path::circle_points;
use crate::circle_path::circle_points_from;
use crate::circle_path::octet;
use crate::rng::random_in_range;
use crate::trunc_div::div_trunc_i64;

verus! {

/// A shape that can draw itself onto any image buffer.
///
/// `draw_positions` is the exact sequence of positions the shape writes;
/// `draw` appends exactly those writes to the buffer, in order, leaving every
/// earlier pixel write untouched. Every written color is fully opaque, and
/// equals `fixed_color` for shapes that own a single color; a shape whose
/// color is sampled anew per pixel has no fixed color.
pub trait Drawable {
    /// The states of the shape a drawing may assume.
    spec fn wf(&self) -> bool;

    /// The positions this shape writes, in drawing order.
    spec fn draw_positions(&self) -> Seq<(int, int)>;

    /// The single color of every pixel of this shape, if it has one.
    spec fn fixed_color(&self) -> Option<Color>;

    /// The color to use for this shape's pixels.
    fn color(&self) -> (c: Color)
        ensures
            c.a == 255,
            self.fixed_color() is Some ==> Some(c) == self.fixed_color(),
    ;

    /// Writes this shape's pixels onto the image buffer.
    fn draw<I: Displayable>(&self, image: &mut I)
        requires
            self.wf(),
        ensures
            draw_post(
                self.draw_positions(),
                self.fixed_color(),
                old(image).pixels(),
                final(image).pixels(),
            ),
    ;
}

/// How a pixel-write history `after` relates to the history `before` once a
/// shape with the given positions and fixed color has drawn itself: the old
/// writes stand untouched, and exactly the shape's positions follow them, in
/// order, each write fully opaque and in the fixed color where the shape has
/// one.
pub open spec fn draw_post(
    positions: Seq<(int, int)>,
    fixed: Option<Color>,
    before: Seq<PixelWrite>,
    after: Seq<PixelWrite>,
) -> bool {
    &&& after.len() == before.len() + positions.len()
    &&& forall|j: int| 0 <= j < before.len() ==> #[trigger] after[j] == before[j]
    &&& forall|j: int|
        before.len() <= j < after.len() ==> {
            let w = #[trigger] after[j];
            w.pos() == positions[j - before.len()] && w.color.a == 255 && (fixed is Some
                ==> Some(w.color) == fixed)
        }
}

/// A 2D integer coordinate. Any pair of coordinates is a valid location;
/// clipping against image bounds is the image buffer's business.
#[derive(Debug, Clone, Copy, PartialEq, Eq, Structural)]
pub struct Point(pub i32, pub i32);

impl Point {
    pub fn new(x: i32, y: i32) -> (p: Self)
        ensures
            p == Point(x, y),
    {
        Point(x, y)
    }

    /// A point with each coordinate drawn independently and uniformly from
    /// the inclusive range `[0, max]` for that axis.
    pub fn random(max_x: i32, max_y: i32) -> (p: Self)
        requires
            0 <= max_x,
            0 <= max_y,
        ensures
            0 <= p.0 <= max_x,
            0 <= p.1 <= max_y,
    {
        Self::new(random_in_range(0, max_x), random_in_range(0, max_y))
    }
}

impl Drawable for Point {
    open spec fn wf(&self) -> bool {
        true
    }

    open spec fn draw_positions(&self) -> Seq<(int, int)> {
        seq![(self.0 as int, self.1 as int)]
    }

    open spec fn fixed_color(&self) -> Option<Color> {
        Some(Color::white_spec())
    }

    fn color(&self) -> (c: Color) {
        Color::white()
    }

    fn draw<I: Displayable>(&self, image: &mut I) {
        image.display(self.0, self.1, self.color());
    }
}

/// A straight segment between two points. A segment whose endpoints coincide
/// is a single pixel.
#[derive(Debug, Clone, Copy, PartialEq, Eq, Structural)]
pub struct Line {
    pub start: Point,
    pub end: Point,
}

impl Line {
    pub fn new(point1: Point, point2: Point) -> (l: Line)
        ensures
            l == (Line { start: point1, end: point2 }),
    {
        Line { start: point1, end: point2 }
    }

    /// A segment with both endpoints independently randomized within the
    /// same inclusive bounds.
    pub fn random(max_x: i32, max_y: i32) -> (l: Self)
        requires
            0 <= max_x,
            0 <= max_y,
        ensures
            0 <= l.start.0 <= max_x,
            0 <= l.start.1 <= max_y,
            0 <= l.end.0 <= max_x,
            0 <= l.end.1 <= max_y,
    {
        Line { start: Point::random(max_x, max_y), end: Point::random(max_x, max_y) }
    }
}

impl Drawable for Line {
    open spec fn wf(&self) -> bool {
        true
    }

    open spec fn draw_positions(&self) -> Seq<(int, int)> {
        line_points(self.start.0 as int, self.start.1 as int, self.end.0 as int, self.end.1 as int)
    }

    open spec fn fixed_color(&self) -> Option<Color> {
        Some(Color::white_spec())
    }

    fn color(&self) -> (c: Color) {
        Color::white()
    }

    fn draw<I: Displayable>(&self, image: &mut I) {
        let sx = self.start.0;
        let sy = self.start.1;
        let ex = self.end.0;
        let ey = self.end.1;
        let dx: i64 = ex as i64 - sx as i64;
        let dy: i64 = ey as i64 - sy as i64;
        let adx: i64 = if dx >= 0 { dx } else { -dx };
        let ady: i64 = if dy >= 0 { dy } else { -dy };
        let steps: i64 = if adx >= ady { adx } else { ady };
        let c = self.color();
        proof {
            assert(steps == line_steps(sx as int, sy as int, ex as int, ey as int));
        }
        if steps == 0 {
            image.display(sx, sy, c);
        } else {
            let ghost base = image.pixels();
            let mut i: i64 = 0;
            while i <= steps
                invariant
                    0 < steps <= 0xFFFF_FFFFi64,
                    0 <= i <= steps + 1,
                    sx == self.start.0 && sy == self.start.1 && ex == self.end.0 && ey
                        == self.end.1,
                    steps == line_steps(sx as int, sy as int, ex as int, ey as int),
                    c == Color::white_spec(),
                    image.pixels().len() == base.len() + i,
                    forall|j: int|
                        0 <= j < base.len() ==> #[trigger] image.pixels()[j] == base[j],
                    forall|j: int|
                        base.len() <= j < image.pixels().len() ==> {
                            let w = #[trigger] image.pixels()[j];
                            w.pos() == line_point_at(
                                sx as int,
                                sy as int,
                                ex as int,
                                ey as int,
                                j - base.len(),
                            ) && w.color == Color::white_spec()
                        },
                decreases steps + 1 - i,
            {
                let rem: i64 = steps - i;
                proof {
                    lemma_interp_numerator(sx as int, ex as int, steps as int, i as int);
                    lemma_interp_numerator(sy as int, ey as int, steps as int, i as int);
                }
                let nx: i64 = (sx as i64) * rem + (ex as i64) * i;
                let ny: i64 = (sy as i64) * rem + (ey as i64) * i;
                let px64: i64 = div_trunc_i64(nx, steps);
                let py64: i64 = div_trunc_i64(ny, steps);
                proof {
                    lemma_line_point_in_box(sx as int, sy as int, ex as int, ey as int, i as int);
                    assert(line_point_at(sx as int, sy as int, ex as int, ey as int, i as int)
                        == (px64 as int, py64 as int));
                }
                let px: i32 = px64 as i32;
                let py: i32 = py64 as i32;
                image.display(px, py, c);
                i = i + 1;
            }
        }
    }
}

/// A triangle: three corner points joined by three segments. Collinear
/// corners are allowed; they give overlapping segments, not an error.
#[derive(Debug, Clone, Copy, PartialEq, Eq, Structural)]
pub struct Triangle {
    pub point1: Point,
    pub point2: Point,
    pub point3: Point,
}

impl Triangle {
    pub fn new(point1: &Point, point2: &Point, point3: &Point) -> (t: Self)
        ensures
            t == (Triangle { point1: *point1, point2: *point2, point3: *point3 }),
    {
        Triangle { point1: *point1, point2: *point2, point3: *point3 }
    }
}

/// The three segment paths of a triangle, in drawing order.
pub open spec fn triangle_positions(p1: Point, p2: Point, p3: Point) -> Seq<(int, int)> {
    line_points(p1.0 as int, p1.1 as int, p2.0 as int, p2.1 as int) + line_points(
        p2.0 as int,
        p2.1 as int,
        p3.0 as int,
        p3.1 as int,
    ) + line_points(p3.0 as int, p3.1 as int, p1.0 as int, p1.1 as int)
}

impl Drawable for Triangle {
    open spec fn wf(&self) -> bool {
        true
    }

    open spec fn draw_positions(&self) -> Seq<(int, int)> {
        triangle_positions(self.point1, self.point2, self.point3)
    }

    open spec fn fixed_color(&self) -> Option<Color> {
        Some(Color::white_spec())
    }

    fn color(&self) -> (c: Color) {
        Color::white()
    }

    fn draw<I: Displayable>(&self, image: &mut I) {
        Line::new(self.point1, self.point2).draw(image);
        Line::new(self.point2, self.point3).draw(image);
        Line::new(self.point3, self.point1).draw(image);
    }
}

/// A rectangle given by two opposite corners. The other two corners are
/// derived from them; either corner pair is valid, and a shared coordinate
/// gives a rectangle of zero width or height.
#[derive(Debug, Clone, Copy, PartialEq, Eq, Structural)]
pub struct Rectangle {
    pub point1: Point,
    pub point2: Point,
}

impl Rectangle {
    pub fn new(point1: &Point, point2: &Point) -> (r: Self)
        ensures
            r == (Rectangle { point1: *point1, point2: *point2 }),
    {
        Rectangle { point1: *point1, point2: *point2 }
    }
}

/// The third corner of a rectangle: the first corner's column at the second
/// corner's row.
pub open spec fn rect_corner3(p1: Point, p2: Point) -> Point {
    Point(p1.0, p2.1)
}

/// The fourth corner of a rectangle: the second corner's column at the first
/// corner's row.
pub open spec fn rect_corner4(p1: Point, p2: Point) -> Point {
    Point(p2.0, p1.1)
}

/// The four segment paths of a rectangle outline, in drawing order: a closed
/// cycle through all four corners.
pub open spec fn rectangle_positions(p1: Point, p2: Point) -> Seq<(int, int)> {
    let p3 = rect_corner3(p1, p2);
    let p4 = rect_corner4(p1, p2);
    line_points(p1.0 as int, p1.1 as int, p3.0 as int, p3.1 as int) + line_points(
        p3.0 as int,
        p3.1 as int,
        p2.0 as int,
        p2.1 as int,
    ) + line_points(p2.0 as int, p2.1 as int, p4.0 as int, p4.1 as int) + line_points(
        p4.0 as int,
        p4.1 as int,
        p1.0 as int,
        p1.1 as int,
    )
}

impl Drawable for Rectangle {
    open spec fn wf(&self) -> bool {
        true
    }

    open spec fn draw_positions(&self) -> Seq<(int, int)> {
        rectangle_positions(self.point1, self.point2)
    }

    open spec fn fixed_color(&self) -> Option<Color> {
        Some(Color::white_spec())
    }

    fn color(&self) -> (c: Color) {
        Color::white()
    }

    fn draw<I: Displayable>(&self, image: &mut I) {
        let point3 = Point(self.point1.0, self.point2.1);
        let point4 = Point(self.point2.0, self.point1.1);
        Line::new(self.point1, point3).draw(image);
        Line::new(point3, self.point2).draw(image);
        Line::new(self.point2, point4).draw(image);
        Line::new(point4, self.point1).draw(image);
    }
}

/// A circle outline given by its center and a non-negative radius. A radius
/// of zero is a single-pixel circle.
#[derive(Debug, Clone, Copy, PartialEq, Eq, Structural)]
pub struct Circle {
    pub center: Point,
    pub radius: i32,
}

impl Circle {
    pub fn new(x: i32, y: i32, radius: i32) -> (c: Circle)
        requires
            0 <= radius,
        ensures
            c == (Circle { center: Point(x, y), radius: radius }),
    {
        Circle { center: Point(x, y), radius: radius }
    }

    /// A circle with a randomized center within the inclusive limits and a
    /// radius drawn uniformly from the inclusive range `[9, 500]`.
    pub fn random(limit_x: i32, limit_y: i32) -> (c: Circle)
        requires
            0 <= limit_x <= i32::MAX - 500,
            0 <= limit_y <= i32::MAX - 500,
        ensures
            0 <= c.center.0 <= limit_x,
            0 <= c.center.1 <= limit_y,
            9 <= c.radius <= 500,
            c.wf(),
    {
        Circle { center: Point::random(limit_x, limit_y), radius: random_in_range(9, 500) }
    }
}

impl Drawable for Circle {
    /// The radius is non-negative and the outline's coordinates stay
    /// representable: the machine's integer range must hold center ± radius.
    open spec fn wf(&self) -> bool {
        0 <= self.radius && i32::MIN <= self.center.0 - self.radius && self.center.0
            + self.radius <= i32::MAX && i32::MIN <= self.center.1 - self.radius && self.center.1
            + self.radius <= i32::MAX
    }

    open spec fn draw_positions(&self) -> Seq<(int, int)> {
        circle_points(self.center.0 as int, self.center.1 as int, self.radius as int)
    }

    /// A circle has no fixed color: its color is sampled anew for every
    /// single pixel write.
    open spec fn fixed_color(&self) -> Option<Color> {
        None
    }

    /// A uniformly random fully opaque color, freshly drawn on every call.
    fn color(&self) -> (c: Color) {
        let r = random_in_range(0, 255);
        let g = random_in_range(0, 255);
        let b = random_in_range(0, 255);
        Color::rgb(r as u8, g as u8, b as u8)
    }

    fn draw<I: Displayable>(&self, image: &mut I) {
        let cx = self.center.0;
        let cy = self.center.1;
        let r = self.radius;
        let mut x: i64 = 0;
        let mut y: i64 = r as i64;
        let mut d: i64 = 3 - 2 * (r as i64);
        let ghost base = image.pixels();
        let ghost total = circle_points(cx as int, cy as int, r as int);
        let ghost mut done: Seq<(int, int)> = Seq::empty();
        proof {
            assert(done + circle_points_from(cx as int, cy as int, x as int, y as int, d as int)
                =~= total);
        }
        while x <= y
            invariant
                self.wf(),
                cx == self.center.0 && cy == self.center.1 && r == self.radius,
                0 <= x,
                -1 <= y <= r as int,
                x <= y + 2,
                circle_d_exact(r as int, x as int, y as int, d as int),
                x <= y ==> circle_head_ok(r as int, x as int, y as int, d as int),
                -8 * (r as int) - 20 <= d <= 8 * (r as int) + 20,
                done + circle_points_from(cx as int, cy as int, x as int, y as int, d as int)
                    == total,
                image.pixels().len() == base.len() + done.len(),
                forall|j: int| 0 <= j < base.len() ==> #[trigger] image.pixels()[j] == base[j],
                forall|j: int|
                    base.len() <= j < image.pixels().len() ==> {
                        let w = #[trigger] image.pixels()[j];
                        w.pos() == done[j - base.len()] && w.color.a == 255
                    },
            decreases crate::circle_path::circle_measure(x as int, y as int),
        {
            let xi: i32 = x as i32;
            let yi: i32 = y as i32;
            let c1 = self.color();
            image.display(cx + xi, cy + yi, c1);
            let c2 = self.color();
            image.display(cx - xi, cy + yi, c2);
            let c3 = self.color();
            image.display(cx + xi, cy - yi, c3);
            let c4 = self.color();
            image.display(cx - xi, cy - yi, c4);
            let c5 = self.color();
            image.display(cx + yi, cy + xi, c5);
            let c6 = self.color();
            image.display(cx - yi, cy + xi, c6);
            let c7 = self.color();
            image.display(cx + yi, cy - xi, c7);
            let c8 = self.color();
            image.display(cx - yi, cy - xi, c8);
            proof {
                let ghost oct = octet(cx as int, cy as int, x as int, y as int);
                assert((done + oct) + circle_points_from(
                    cx as int,
                    cy as int,
                    x as int,
                    y as int,
                    d as int,
                ).skip(8) =~= done + circle_points_from(
                    cx as int,
                    cy as int,
                    x as int,
                    y as int,
                    d as int,
                ));
                done = done + oct;
            }
            let ghost x0 = x as int;
            let ghost y0 = y as int;
            let ghost d0 = d as int;
            if d < 0 {
                d = d + 4 * x + 6;
            } else {
                d = d + 4 * (x - y) + 10;
                y = y - 1;
            }
            x = x + 1;
            proof {
                assert(circle_points_from(cx as int, cy as int, x0, y0, d0) == octet(
                    cx as int,
                    cy as int,
                    x0,
                    y0,
                ) + circle_points_from(cx as int, cy as int, x as int, y as int, d as int));
                assert(circle_points_from(cx as int, cy as int, x0, y0, d0).skip(8)
                    =~= circle_points_from(cx as int, cy as int, x as int, y as int, d as int));
                assert(circle_d_exact(r as int, x as int, y as int, d as int)) by (
                nonlinear_arith)
                    requires
                        circle_d_exact(r as int, x0, y0, d0),
                        (d0 < 0 && x == x0 + 1 && y == y0 && d == d0 + 4 * x0 + 6) || (d0 >= 0
                            && x == x0 + 1 && y == y0 - 1 && d == d0 + 4 * (x0 - y0) + 10),
                ;
            }
        }
        proof {
            assert(circle_points_from(cx as int, cy as int, x as int, y as int, d as int)
                =~= Seq::<(int, int)>::empty());
            assert(done + Seq::<(int, int)>::empty() =~= done);
        }
    }
}

/// The interpolation numerator `s * (steps - i) + e * i` equals
/// `s * steps + i * (e - s)` and stays within the 64-bit range.
proof fn lemma_interp_numerator(s: int, e: int, steps: int, i: int)
    requires
        -0x8000_0000 <= s <= 0x7FFF_FFFF,
        -0x8000_0000 <= e <= 0x7FFF_FFFF,
        0 < steps <= 0xFFFF_FFFF,
        0 <= i <= steps,
    ensures
        s * (steps - i) + e * i == s * steps + i * (e - s),
        -0x8000_0000_0000_0000 < s * (steps - i) + e * i < 0x8000_0000_0000_0000,
        -0x8000_0000_0000_0000 < s * (steps - i) < 0x8000_0000_0000_0000,
        -0x8000_0000_0000_0000 < e * i < 0x8000_0000_0000_0000,
{
    assert(s * (steps - i) + e * i == s * steps + i * (e - s)) by (nonlinear_arith);
    assert(-0x8000_0000_0000_0000 < s * (steps - i) < 0x8000_0000_0000_0000) by (
    nonlinear_arith)
        requires
            -0x8000_0000 <= s <= 0x7FFF_FFFF,
            0 <= steps - i <= 0xFFFF_FFFF,
    ;
    assert(-0x8000_0000_0000_0000 < e * i < 0x8000_0000_0000_0000) by (nonlinear_arith)
        requires
            -0x8000_0000 <= e <= 0x7FFF_FFFF,
            0 <= i <= 0xFFFF_FFFF,
    ;
    let lo = min(s, e);
    let hi = max(s, e);
    assert(lo * steps <= s * (steps - i) + e * i <= hi * steps) by (nonlinear_arith)
        requires
            lo <= s <= hi,
            lo <= e <= hi,
            0 <= i <= steps,
            lo == min(s, e),
            hi == max(s, e),
    ;
    assert(-0x8000_0000_0000_0000 < lo * steps && hi * steps < 0x8000_0000_0000_0000) by (
    nonlinear_arith)
        requires
            -0x8000_0000 <= lo <= 0x7FFF_FFFF,
            -0x8000_0000 <= hi <= 0x7FFF_FFFF,
            0 < steps <= 0xFFFF_FFFF,
    ;
}

} // verus!

use vstd::prelude::*;

use crate::color::Rgb;
use crate::fixed::{div_trunc, in_range};
use crate::helpers::{lemma_seq_bounds, min_max_points, seq_max, seq_min, xs_of, ys_of};
use crate::ONE;

verus! {

/// A point in fixed-point coordinates (`ONE` steps per pixel).
#[derive(Clone, Copy, Debug, PartialEq, Eq, Structural)]
pub struct Point {
    pub x: i64,
    pub y: i64,
}

impl Point {
    pub fn new(x: i64, y: i64) -> (r: Point)
        ensures
            r == (Point { x, y }),
    {
        Point { x, y }
    }
}

/// An axis-aligned box: corner `(x, y)`, extent `width × height`.
#[derive(Clone, Copy, Debug, PartialEq, Eq, Structural)]
pub struct Rect {
    pub x: i64,
    pub y: i64,
    pub width: i64,
    pub height: i64,
}

impl Rect {
    pub fn new(x: i64, y: i64, width: i64, height: i64) -> (r: Rect)
        ensures
            r == (Rect { x, y, width, height }),
    {
        Rect { x, y, width, height }
    }

    /// Corner and extent within the coordinate range.
    pub open spec fn bounded(&self) -> bool {
        &&& in_range(self.x as int)
        &&& in_range(self.y as int)
        &&& in_range(self.width as int)
        &&& in_range(self.height as int)
    }

    /// Whether the point lies in the box, edges included.
    pub fn contains_point(&self, point: Point) -> (r: bool)
        ensures
            r == (self.x <= point.x <= self.x + self.width && self.y <= point.y <= self.y
                + self.height),
    {
        let px = point.x as i128;
        let py = point.y as i128;
        let x = self.x as i128;
        let y = self.y as i128;
        px >= x && px <= x + self.width as i128 && py >= y && py <= y + self.height as i128
    }

    pub open spec fn center_spec(&self) -> Point {
        Point {
            x: (self.x + self.width / 2) as i64,
            y: (self.y + self.height / 2) as i64,
        }
    }

    /// The middle of the box (half extents rounded down).
    pub fn center(&self) -> (r: Point)
        requires
            self.bounded(),
        ensures
            r == self.center_spec(),
    {
        Point { x: self.x + half(self.width), y: self.y + half(self.height) }
    }

    pub open spec fn points_spec(&self) -> Seq<Point> {
        seq![
            Point { x: self.x, y: self.y },
            Point { x: (self.x + self.width) as i64, y: self.y },
            Point { x: (self.x + self.width) as i64, y: (self.y + self.height) as i64 },
            Point { x: self.x, y: (self.y + self.height) as i64 },
        ]
    }

    /// The four corners, clockwise from `(x, y)`.
    pub fn points(&self) -> (r: Vec<Point>)
        requires
            self.bounded(),
        ensures
            r@ == self.points_spec(),
    {
        let r = vec![
            Point { x: self.x, y: self.y },
            Point { x: self.x + self.width, y: self.y },
            Point { x: self.x + self.width, y: self.y + self.height },
            Point { x: self.x, y: self.y + self.height },
        ];
        assert(r@ =~= self.points_spec());
        r
    }

    /// `p` turned about `c` by the angle whose cosine and sine (in `ONE`
    /// units) are `turn.x` and `turn.y`, rounded toward zero.
    pub open spec fn turned_about(p: Point, c: Point, turn: Point) -> Point {
        let dx = p.x - c.x;
        let dy = p.y - c.y;
        Point {
            x: (c.x + div_trunc(turn.x * dx - turn.y * dy, ONE as int)) as i64,
            y: (c.y + div_trunc(turn.y * dx + turn.x * dy, ONE as int)) as i64,
        }
    }

    pub open spec fn rotated_points(&self, turn: Point) -> Seq<Point> {
        let c = self.center_spec();
        self.points_spec().map_values(|p: Point| Self::turned_about(p, c, turn))
    }

    /// Turns the box about its centre by the angle with cosine `turn.x` and
    /// sine `turn.y` (in `ONE` units), and replaces it by the axis-aligned box
    /// around the four turned corners.
    pub fn rotate(&mut self, turn: Point)
        requires
            old(self).bounded(),
            -ONE <= turn.x <= ONE,
            -ONE <= turn.y <= ONE,
        ensures
            ({
                let q = old(self).rotated_points(turn);
                &&& final(self).x == seq_min(xs_of(q))
                &&& final(self).y == seq_min(ys_of(q))
                &&& final(self).width == seq_max(xs_of(q)) - seq_min(xs_of(q))
                &&& final(self).height == seq_max(ys_of(q)) - seq_min(ys_of(q))
            }),
    {
        let c = self.center();
        let corners = self.points();
        let mut turned: Vec<Point> = Vec::new();
        let mut i: usize = 0;
        while i < 4
            invariant
                old(self).bounded(),
                *self == *old(self),
                c == self.center_spec(),
                corners@ == self.points_spec(),
                -ONE <= turn.x <= ONE,
                -ONE <= turn.y <= ONE,
                i <= 4,
                turned@.len() == i,
                forall|k: int|
                    0 <= k < i ==> #[trigger] turned@[k] == Self::turned_about(corners@[k], c, turn),
            decreases 4 - i,
        {
            turned.push(turn_about(corners[i], c, turn));
            i = i + 1;
        }
        assert(turned@ =~= self.rotated_points(turn));
        let (min_x, max_x, min_y, max_y) = min_max_points(&turned);
        proof {
            lemma_rotated_bounds(*self, turn);
        }
        self.x = min_x;
        self.y = min_y;
        self.width = max_x - min_x;
        self.height = max_y - min_y;
    }
}

fn half(v: i64) -> (r: i64)
    requires
        in_range(v as int),
    ensures
        r == v / 2,
{
    if v >= 0 {
        v / 2
    } else {
        -((-v + 1) / 2)
    }
}

fn turn_about(p: Point, c: Point, turn: Point) -> (r: Point)
    requires
        -0x200_0000_0000 <= c.x <= 0x200_0000_0000,
        -0x200_0000_0000 <= c.y <= 0x200_0000_0000,
        -0x300_0000_0000 <= p.x <= 0x300_0000_0000,
        -0x300_0000_0000 <= p.y <= 0x300_0000_0000,
        -ONE <= turn.x <= ONE,
        -ONE <= turn.y <= ONE,
    ensures
        r == Rect::turned_about(p, c, turn),
        -0x2000_0000_0000 <= r.x <= 0x2000_0000_0000,
        -0x2000_0000_0000 <= r.y <= 0x2000_0000_0000,
{
    let dx = p.x as i128 - c.x as i128;
    let dy = p.y as i128 - c.y as i128;
    let cs = turn.x as i128;
    let sn = turn.y as i128;
    assert(-0x800_0000_0000 * ONE <= cs * dx <= 0x800_0000_0000 * ONE && -0x800_0000_0000 * ONE
        <= sn * dy <= 0x800_0000_0000 * ONE && -0x800_0000_0000 * ONE <= sn * dx
        <= 0x800_0000_0000 * ONE && -0x800_0000_0000 * ONE <= cs * dy <= 0x800_0000_0000 * ONE)
        by (nonlinear_arith)
        requires
            -0x800_0000_0000 <= dx <= 0x800_0000_0000,
            -0x800_0000_0000 <= dy <= 0x800_0000_0000,
            -ONE <= cs <= ONE,
            -ONE <= sn <= ONE,
    ;
    let a = cs * dx - sn * dy;
    let b = sn * dx + cs * dy;
    let qa: i128 = if a >= 0 {
        a / ONE as i128
    } else {
        -((-a) / ONE as i128)
    };
    let qb: i128 = if b >= 0 {
        b / ONE as i128
    } else {
        -((-b) / ONE as i128)
    };
    Point { x: (c.x as i128 + qa) as i64, y: (c.y as i128 + qb) as i64 }
}

proof fn lemma_rotated_bounds(r: Rect, turn: Point)
    requires
        r.bounded(),
        -ONE <= turn.x <= ONE,
        -ONE <= turn.y <= ONE,
    ensures
        ({
            let q = r.rotated_points(turn);
            &&& i64::MIN <= seq_max(xs_of(q)) - seq_min(xs_of(q)) <= i64::MAX
            &&& i64::MIN <= seq_max(ys_of(q)) - seq_min(ys_of(q)) <= i64::MAX
        }),
{
    let q = r.rotated_points(turn);
    let c = r.center_spec();
    assert(q.len() == 4);
    assert forall|k: int| 0 <= k < 4 implies -0x2000_0000_0000 <= #[trigger] q[k].x
        <= 0x2000_0000_0000 && -0x2000_0000_0000 <= q[k].y <= 0x2000_0000_0000 by {
        let p = r.points_spec()[k];
        let dx = p.x - c.x;
        let dy = p.y - c.y;
        assert(-0x1000_0000_0000 * ONE <= turn.x * dx - turn.y * dy <= 0x1000_0000_0000 * ONE
            && -0x1000_0000_0000 * ONE <= turn.y * dx + turn.x * dy <= 0x1000_0000_0000 * ONE)
            by (nonlinear_arith)
            requires
                -0x800_0000_0000 <= dx <= 0x800_0000_0000,
                -0x800_0000_0000 <= dy <= 0x800_0000_0000,
                -ONE <= turn.x <= ONE,
                -ONE <= turn.y <= ONE,
        ;
    }
    let xs = xs_of(q);
    let ys = ys_of(q);
    assert forall|k: int| 0 <= k < 4 implies -0x2000_0000_0000 <= #[trigger] xs[k]
        <= 0x2000_0000_0000 by {
        assert(xs[k] == q[k].x);
    }
    assert forall|k: int| 0 <= k < 4 implies -0x2000_0000_0000 <= #[trigger] ys[k]
        <= 0x2000_0000_0000 by {
        assert(xs[k] == q[k].x);
        assert(ys[k] == q[k].y);
    }
    lemma_seq_bounds(xs, -0x2000_0000_0000, 0x2000_0000_0000);
    lemma_seq_bounds(ys, -0x2000_0000_0000, 0x2000_0000_0000);
}

/// A block of texels copied one to one onto the canvas at `rect`'s corner.
pub struct Sprite {
    pub rect: Rect,
    pub texture: Vec<u8>,
}

impl Sprite {
    pub fn new(rect: Rect, texture: Vec<u8>) -> (r: Sprite)
        ensures
            r.rect == rect,
            r.texture@ == texture@,
    {
        Sprite { rect, texture }
    }
}

pub struct Line {
    pub start: Point,
    pub end: Point,
}

impl Line {
    pub fn new(start: Point, end: Point) -> (r: Line)
        ensures
            r.start == start,
            r.end == end,
    {
        Line { start, end }
    }
}

/// A box filled with one colour.
pub struct ColorRect {
    pub x: i64,
    pub y: i64,
    pub width: i64,
    pub height: i64,
    pub color: Rgb,
}

impl ColorRect {
    pub fn new(x: i64, y: i64, width: i64, height: i64, color: Rgb) -> (r: ColorRect)
        ensures
            r == (ColorRect { x, y, width, height, color }),
    {
        ColorRect { x, y, width, height, color }
    }
}

/// A box onto which a `texture_width × texture_height` RGBA texture is
/// stretched, nearest texel.
pub struct TextureRect {
    pub x: i64,
    pub y: i64,
    pub width: i64,
    pub height: i64,
    pub texture: Vec<u8>,
    pub texture_width: usize,
    pub texture_height: usize,
}

impl TextureRect {
    pub fn new(
        x: i64,
        y: i64,
        width: i64,
        height: i64,
        texture: Vec<u8>,
        texture_width: usize,
        texture_height: usize,
    ) -> (r: TextureRect)
        ensures
            r.x == x,
            r.y == y,
            r.width == width,
            r.height == height,
            r.texture@ == texture@,
            r.texture_width == texture_width,
            r.texture_height == texture_height,
    {
        TextureRect { x, y, width, height, texture, texture_width, texture_height }
    }
}

/// A box whose colour runs from `color_start` to `color_end`.
pub struct GradientRect {
    pub rect: Rect,
    pub color_start: Rgb,
    pub color_end: Rgb,
}

impl GradientRect {
    pub fn new(rect: Rect, color_start: Rgb, color_end: Rgb) -> (r: GradientRect)
        ensures
            r.rect == rect,
            r.color_start == color_start,
            r.color_end == color_end,
    {
        GradientRect { rect, color_start, color_end }
    }
}

/// A segment drawn antialiased in one colour.
pub struct ColorLine {
    pub start: Point,
    pub end: Point,
    pub color: Rgb,
}

impl ColorLine {
    pub fn new(start: Point, end: Point, color: Rgb) -> (r: ColorLine)
        ensures
            r.start == start,
            r.end == end,
            r.color == color,
    {
        ColorLine { start, end, color }
    }
}

pub struct Circle {
    pub center: Point,
    pub radius: i64,
}

impl Circle {
    pub fn new(center: Point, radius: i64) -> (r: Circle)
        ensures
            r.center == center,
            r.radius == radius,
    {
        Circle { center, radius }
    }
}

/// A circle outline in one colour.
pub struct ColorCircle {
    pub center: Point,
    pub radius: i64,
    pub color: Rgb,
}

impl ColorCircle {
    pub fn new(center: Point, radius: i64, color: Rgb) -> (r: ColorCircle)
        ensures
            r.center == center,
            r.radius == radius,
            r.color == color,
    {
        ColorCircle { center, radius, color }
    }
}

} // verus!

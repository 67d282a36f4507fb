use vstd::arithmetic::div_mod::lemma_fundamental_div_mod_converse;
use vstd::prelude::*;

use crate::canvas::{
    apply_all, lands_on, lemma_apply_next, lemma_uniform_writes, pixel_at, Canvas, Stroke,
};
use crate::fixed::{
    abs_int, ceil_px, ceil_spec, clamp_px, clamp_spec, div_trunc, in_range, trunc_px, trunc_spec,
    COORD_LIMIT,
};
use crate::color::Rgb;
use crate::geo::{ColorCircle, ColorLine, ColorRect, Sprite, TextureRect};
use crate::ONE;

verus! {

/// A shape that renders itself as a fixed sequence of strokes on a canvas.
pub trait Drawable {
    /// What the shape needs to be drawable (coordinates in range, texture
    /// buffers of the declared size).
    spec fn ready(&self) -> bool;

    /// The strokes, in order, that drawing onto a `width × height` canvas makes.
    spec fn strokes(&self, width: int, height: int) -> Seq<Stroke>;

    fn draw(&self, screen: &mut Canvas)
        requires
            self.ready(),
            old(screen).wf(),
        ensures
            final(screen).wf(),
            final(screen).width == old(screen).width,
            final(screen).height == old(screen).height,
            final(screen).data@ == apply_all(
                old(screen).data@,
                old(screen).width as int,
                old(screen).height as int,
                self.strokes(old(screen).width as int, old(screen).height as int),
            ),
    ;
}

/// The strokes that cover the whole pixels `[xs, xe) × [ys, ye)`, column by
/// column, each given by `at(column, row)`.
pub open spec fn grid_strokes(
    xs: int,
    xe: int,
    ys: int,
    ye: int,
    at: spec_fn(int, int) -> Stroke,
) -> Seq<Stroke> {
    let cols = if xe > xs {
        xe - xs
    } else {
        0
    };
    let rows = if ye > ys {
        ye - ys
    } else {
        0
    };
    Seq::new((cols * rows) as nat, |n: int| at(xs + n / rows, ys + n % rows))
}

pub proof fn lemma_grid_index(xs: int, xe: int, ys: int, ye: int, i: int, j: int)
    requires
        xs <= i < xe,
        ys <= j < ye,
    ensures
        0 <= (i - xs) * (ye - ys) + (j - ys) < (xe - xs) * (ye - ys),
        ((i - xs) * (ye - ys) + (j - ys)) / (ye - ys) == i - xs,
        ((i - xs) * (ye - ys) + (j - ys)) % (ye - ys) == j - ys,
        (i - xs + 1) * (ye - ys) == (i - xs) * (ye - ys) + (ye - ys),
        (i - xs + 1) * (ye - ys) <= (xe - xs) * (ye - ys),
{
    let n = (i - xs) * (ye - ys) + (j - ys);
    lemma_fundamental_div_mod_converse(n, ye - ys, i - xs, j - ys);
    assert(0 <= n < (xe - xs) * (ye - ys)) by (nonlinear_arith)
        requires
            n == (i - xs) * (ye - ys) + (j - ys),
            xs <= i < xe,
            ys <= j < ye,
    ;
    assert((i - xs + 1) * (ye - ys) == (i - xs) * (ye - ys) + (ye - ys)) by (nonlinear_arith);
    assert((i - xs + 1) * (ye - ys) <= (xe - xs) * (ye - ys)) by (nonlinear_arith)
        requires
            xs <= i < xe,
            ys <= j < ye,
    ;
}

impl ColorRect {
    /// The pixel columns `[xs, xe)` and rows `[ys, ye)` that the box covers on a
    /// `width × height` canvas: from `ceil(x)` to `ceil(x + width)`, and likewise
    /// for rows, cut to the canvas (writes past its edge are dropped anyway).
    pub open spec fn bounds(&self, width: int, height: int) -> (int, int, int, int) {
        (
            clamp_spec(ceil_spec(self.x as int), width),
            clamp_spec(ceil_spec(self.x + self.width), width),
            clamp_spec(ceil_spec(self.y as int), height),
            clamp_spec(ceil_spec(self.y + self.height), height),
        )
    }
}

impl Drawable for ColorRect {
    open spec fn ready(&self) -> bool {
        &&& in_range(self.x as int)
        &&& in_range(self.y as int)
        &&& in_range(self.x + self.width)
        &&& in_range(self.y + self.height)
    }

    open spec fn strokes(&self, width: int, height: int) -> Seq<Stroke> {
        let (xs, xe, ys, ye) = self.bounds(width, height);
        grid_strokes(
            xs,
            xe,
            ys,
            ye,
            |i: int, j: int| Stroke { x: i * ONE, y: j * ONE, color: self.color, weight: None },
        )
    }

    fn draw(&self, screen: &mut Canvas) {
        let ghost s0 = screen.data@;
        let ghost w = screen.width as int;
        let ghost h = screen.height as int;
        let ghost ops = self.strokes(w, h);
        let xs = clamp_px(ceil_px(self.x), screen.width);
        let xe = clamp_px(ceil_px(self.x + self.width), screen.width);
        let ys = clamp_px(ceil_px(self.y), screen.height);
        let ye = clamp_px(ceil_px(self.y + self.height), screen.height);
        if xs >= xe || ys >= ye {
            assert(ops.len() == 0) by (nonlinear_arith)
                requires
                    ops.len() == 0 || (xe > xs && ye > ys),
                    xs >= xe || ys >= ye,
            ;
            assert(ops =~= Seq::<Stroke>::empty());
            return ;
        }
        let ghost rows = (ye - ys) as int;
        assert(ops.take(0) =~= Seq::<Stroke>::empty());
        let mut i = xs;
        assert((i - xs) * rows == 0) by (nonlinear_arith)
            requires
                i == xs,
        ;
        assert(0 <= (xe - xs) * rows) by (nonlinear_arith)
            requires
                xe > xs,
                rows > 0,
        ;
        while i < xe
            invariant
                screen.wf(),
                screen.width == w,
                screen.height == h,
                xs <= i <= xe,
                ys < ye,
                rows == ye - ys,
                xe <= 0x1_0000_0001,
                ye <= 0x1_0000_0001,
                ops == self.strokes(w, h),
                (xs as int, xe as int, ys as int, ye as int) == self.bounds(w, h),
                0 <= (i - xs) * rows <= ops.len(),
                ops.len() == (xe - xs) * rows,
                screen.data@ == apply_all(s0, w, h, ops.take((i - xs) * rows)),
            decreases xe - i,
        {
            let mut j = ys;
            while j < ye
                invariant
                    screen.wf(),
                    screen.width == w,
                    screen.height == h,
                    xs <= i < xe,
                    ys <= j <= ye,
                    rows == ye - ys,
                    xe <= 0x1_0000_0001,
                ye <= 0x1_0000_0001,
                    ops == self.strokes(w, h),
                    (xs as int, xe as int, ys as int, ye as int) == self.bounds(w, h),
                    ops.len() == (xe - xs) * rows,
                    screen.data@ == apply_all(s0, w, h, ops.take((i - xs) * rows + (j - ys))),
                decreases ye - j,
            {
                proof {
                    lemma_grid_index(xs as int, xe as int, ys as int, ye as int, i as int, j as int);
                    lemma_apply_next(s0, w, h, ops, (i - xs) * rows + (j - ys));
                }
                screen.write_pixel((i as i64) * ONE, (j as i64) * ONE, self.color);
                j = j + 1;
            }
            proof {
                lemma_grid_index(xs as int, xe as int, ys as int, ye as int, i as int, ys as int);
            }
            i = i + 1;
        }
        assert(ops.take(ops.len() as int) =~= ops);
    }
}

/// One step of the midpoint circle walk from offset `(x, y)` with decision
/// value `d`: `x` grows by one pixel; where `d > 0`, `y` shrinks by one and `d`
/// grows by `4·(x − y) + 10`, else `d` grows by `4·x + 6` (all in `ONE` units).
pub open spec fn midpoint_next(x: int, y: int, d: int) -> (int, int, int) {
    let nx = x + ONE;
    if d > 0 {
        let ny = y - ONE;
        (nx, ny, d + 4 * (nx - ny) + 10 * ONE)
    } else {
        (nx, y, d + 4 * nx + 6 * ONE)
    }
}

pub open spec fn dot(x: int, y: int, color: crate::color::Rgb) -> Stroke {
    Stroke { x, y, color, weight: None }
}

impl ColorCircle {
    /// The eight mirror images of offset `(px, py)` around the centre.
    pub open spec fn octants(&self, px: int, py: int) -> Seq<Stroke> {
        let cx = self.center.x as int;
        let cy = self.center.y as int;
        let c = self.color;
        seq![
            dot(cx + px, cy + py, c),
            dot(cx - px, cy + py, c),
            dot(cx + px, cy - py, c),
            dot(cx - px, cy - py, c),
            dot(cx + py, cy + px, c),
            dot(cx - py, cy + px, c),
            dot(cx + py, cy - px, c),
            dot(cx - py, cy - px, c),
        ]
    }

    /// The strokes of the walk's remaining steps while `y >= x`.
    pub open spec fn arc(&self, x: int, y: int, d: int) -> Seq<Stroke>
        decreases y - x + 2 * ONE,
    {
        if y >= x {
            let (nx, ny, nd) = midpoint_next(x, y, d);
            self.octants(nx, ny) + self.arc(nx, ny, nd)
        } else {
            Seq::empty()
        }
    }

    fn draw_circle(&self, screen: &mut Canvas, px: i64, py: i64)
        requires
            old(screen).wf(),
            in_range(self.center.x as int),
            in_range(self.center.y as int),
            -COORD_LIMIT - 2 * ONE <= px <= COORD_LIMIT + 2 * ONE,
            -COORD_LIMIT - 2 * ONE <= py <= COORD_LIMIT + 2 * ONE,
        ensures
            final(screen).wf(),
            final(screen).width == old(screen).width,
            final(screen).height == old(screen).height,
            final(screen).data@ == apply_all(
                old(screen).data@,
                old(screen).width as int,
                old(screen).height as int,
                self.octants(px as int, py as int),
            ),
    {
        let ghost s0 = screen.data@;
        let ghost w = screen.width as int;
        let ghost h = screen.height as int;
        let ghost ops = self.octants(px as int, py as int);
        let c = self.center;
        assert(ops.take(0) =~= Seq::<Stroke>::empty());
        proof { lemma_apply_next(s0, w, h, ops, 0); }
        screen.write_pixel(c.x + px, c.y + py, self.color);
        proof { lemma_apply_next(s0, w, h, ops, 1); }
        screen.write_pixel(c.x - px, c.y + py, self.color);
        proof { lemma_apply_next(s0, w, h, ops, 2); }
        screen.write_pixel(c.x + px, c.y - py, self.color);
        proof { lemma_apply_next(s0, w, h, ops, 3); }
        screen.write_pixel(c.x - px, c.y - py, self.color);
        proof { lemma_apply_next(s0, w, h, ops, 4); }
        screen.write_pixel(c.x + py, c.y + px, self.color);
        proof { lemma_apply_next(s0, w, h, ops, 5); }
        screen.write_pixel(c.x - py, c.y + px, self.color);
        proof { lemma_apply_next(s0, w, h, ops, 6); }
        screen.write_pixel(c.x + py, c.y - px, self.color);
        proof { lemma_apply_next(s0, w, h, ops, 7); }
        screen.write_pixel(c.x - py, c.y - px, self.color);
        assert(ops.take(8) =~= ops);
    }
}

/// Applying two runs of strokes one after the other is applying their
/// concatenation.
pub proof fn lemma_apply_concat(s: Seq<u8>, width: int, height: int, a: Seq<Stroke>, b: Seq<Stroke>)
    ensures
        apply_all(s, width, height, a + b) == apply_all(apply_all(s, width, height, a), width, height, b),
    decreases b.len(),
{
    if b.len() == 0 {
        assert(a + b =~= a);
    } else {
        assert((a + b).drop_last() =~= a + b.drop_last());
        lemma_apply_concat(s, width, height, a, b.drop_last());
    }
}

impl Drawable for ColorCircle {
    open spec fn ready(&self) -> bool {
        &&& in_range(self.center.x as int)
        &&& in_range(self.center.y as int)
        &&& in_range(self.radius as int)
    }

    /// The start offset `(0, r)`, then each step of the midpoint walk that
    /// starts with `d = 3 − 2r`.
    open spec fn strokes(&self, width: int, height: int) -> Seq<Stroke> {
        let r = self.radius as int;
        self.octants(0, r) + self.arc(0, r, 3 * ONE - 2 * r)
    }

    fn draw(&self, screen: &mut Canvas) {
        let ghost s0 = screen.data@;
        let ghost w = screen.width as int;
        let ghost h = screen.height as int;
        let r = self.radius;
        let mut x: i64 = 0;
        let mut y: i64 = r;
        let mut d: i128 = 3 * ONE as i128 - 2 * r as i128;
        self.draw_circle(screen, x, y);
        let ghost mut done = self.octants(0, r as int);
        while y >= x
            invariant
                screen.wf(),
                screen.width == w,
                screen.height == h,
                self.ready(),
                r == self.radius,
                x >= 0,
                x == 0 || x <= r + ONE,
                y <= r,
                y >= -ONE || y == r,
                -0x2000_0000_0000 - x * 0x4000_0000 <= d <= 0x2000_0000_0000 + x * 0x4000_0000,
                done + self.arc(x as int, y as int, d as int) == self.strokes(w, h),
                screen.data@ == apply_all(s0, w, h, done),
            decreases y - x + 2 * ONE,
        {
            let ghost (nx, ny, nd) = midpoint_next(x as int, y as int, d as int);
            proof {
                assert(done + self.arc(x as int, y as int, d as int) == done + (self.octants(nx, ny)
                    + self.arc(nx, ny, nd)));
                assert(done + (self.octants(nx, ny) + self.arc(nx, ny, nd)) =~= (done + self.octants(nx, ny))
                    + self.arc(nx, ny, nd));
            }
            x = x + ONE;
            if d > 0 {
                y = y - ONE;
                d = d + 4 * (x as i128 - y as i128) + 10 * ONE as i128;
            } else {
                d = d + 4 * x as i128 + 6 * ONE as i128;
            }
            proof {
                lemma_apply_concat(s0, w, h, done, self.octants(nx, ny));
            }
            self.draw_circle(screen, x, y);
            proof {
                done = done + self.octants(nx, ny);
            }
        }
        assert(self.arc(x as int, y as int, d as int) =~= Seq::<Stroke>::empty());
        assert(done + Seq::<Stroke>::empty() =~= done);
    }
}

pub proof fn lemma_arc_len(c: ColorCircle, x: int, y: int, d: int)
    requires
        y >= x - 2 * ONE,
    ensures
        c.arc(x, y, d).len() * ONE <= 8 * (y - x + 2 * ONE),
    decreases y - x + 2 * ONE,
{
    if y >= x {
        let (nx, ny, nd) = midpoint_next(x, y, d);
        lemma_arc_len(c, nx, ny, nd);
    }
}

/// The midpoint walk ends after O(R) steps: a circle of radius `R` (in `ONE`
/// units) is drawn with at most `8·(R + 3)` pixel writes, eight per step.
pub proof fn lemma_circle_steps(c: ColorCircle, width: int, height: int)
    requires
        c.radius >= 0,
    ensures
        c.strokes(width, height).len() * ONE <= 8 * (c.radius + 3 * ONE),
{
    let r = c.radius as int;
    lemma_arc_len(c, 0, r, 3 * ONE - 2 * r);
}

/// The opaque colour of texel `(tx, ty)` of an RGBA texture `tw` texels wide;
/// its alpha byte is not read.
pub open spec fn texel(tex: Seq<u8>, tw: int, tx: int, ty: int) -> Rgb {
    let i = 4 * (tx + ty * tw);
    Rgb { red: tex[i], green: tex[i + 1], blue: tex[i + 2] }
}

/// The texel that pixel `i` (of a box from `x`, `extent` wide) samples along a
/// texture `size` texels across: `floor((i − x) / extent · size)`.
pub open spec fn sample(i: int, x: int, extent: int, size: int) -> int {
    ((i * ONE - x) * size) / extent
}

proof fn lemma_sample_in(i: int, x: int, extent: int, size: int)
    requires
        ceil_spec(x) <= i < ceil_spec(x + extent),
        extent > 0,
        size >= 0,
    ensures
        0 <= sample(i, x, extent, size) < size || size == 0,
        0 <= i * ONE - x < extent,
{
    assert(0 <= i * ONE - x < extent) by (nonlinear_arith)
        requires
            -((-x) / (ONE as int)) <= i < -((-(x + extent)) / (ONE as int)),
            ONE > 0,
    ;
    if size > 0 {
        assert(0 <= ((i * ONE - x) * size) / extent < size) by (nonlinear_arith)
            requires
                0 <= i * ONE - x < extent,
                size > 0,
        ;
    }
}

fn read_texel(tex: &Vec<u8>, tw: usize, th: usize, tx: usize, ty: usize) -> (r: Rgb)
    requires
        tex@.len() >= tw * th * 4,
        tx < tw,
        ty < th,
    ensures
        r == texel(tex@, tw as int, tx as int, ty as int),
{
    proof {
        crate::canvas::lemma_pixel_in_buffer(tw as int, th as int, tx as int, ty as int);
    }
    let len = tex.len();
    assert(4 * (tx + ty * tw) + 2 < len);
    let i = (tx + ty * tw) * 4;
    Rgb { red: tex[i], green: tex[i + 1], blue: tex[i + 2] }
}

/// The texel column (or row) that pixel `i` samples, as an index.
fn sample_index(i: usize, x: i64, extent: i64, size: usize) -> (r: usize)
    requires
        ceil_spec(x as int) <= i < ceil_spec(x + extent),
        in_range(x as int),
        in_range(x + extent),
        extent > 0,
        size > 0,
    ensures
        r == sample(i as int, x as int, extent as int, size as int),
        r < size,
{
    proof {
        lemma_sample_in(i as int, x as int, extent as int, size as int);
    }
    let offset = (i as i128) * (ONE as i128) - x as i128;
    assert(0 <= offset * size <= 0x1_0000_0000_0000 * 0x1_0000_0000_0000_0000) by (nonlinear_arith)
        requires
            0 <= offset < 0x1_0000_0000_0000,
            0 <= size < 0x1_0000_0000_0000_0000,
    ;
    let q = (offset * size as i128) / extent as i128;
    q as usize
}

/// The strokes of a box at `(x, y)`, `w × h` (fixed-point), that stretches a
/// `tw × th` texture: each whole pixel of the box on the canvas, column by
/// column, takes the nearest texel below its position in the stretched
/// texture; an empty texture draws nothing.
pub open spec fn texture_strokes(
    x: int,
    y: int,
    w: int,
    h: int,
    tex: Seq<u8>,
    tw: int,
    th: int,
    width: int,
    height: int,
) -> Seq<Stroke> {
    let xs = clamp_spec(ceil_spec(x), width);
    let xe = clamp_spec(ceil_spec(x + w), width);
    let ys = clamp_spec(ceil_spec(y), height);
    let ye = clamp_spec(ceil_spec(y + h), height);
    if tw == 0 || th == 0 {
        Seq::empty()
    } else {
        grid_strokes(
            xs,
            xe,
            ys,
            ye,
            |i: int, j: int|
                Stroke {
                    x: i * ONE,
                    y: j * ONE,
                    color: texel(tex, tw, sample(i, x, w, tw), sample(j, y, h, th)),
                    weight: None,
                },
        )
    }
}

impl TextureRect {
    pub open spec fn bounds(&self, width: int, height: int) -> (int, int, int, int) {
        (
            clamp_spec(ceil_spec(self.x as int), width),
            clamp_spec(ceil_spec(self.x + self.width), width),
            clamp_spec(ceil_spec(self.y as int), height),
            clamp_spec(ceil_spec(self.y + self.height), height),
        )
    }
}

impl Drawable for TextureRect {
    open spec fn ready(&self) -> bool {
        &&& in_range(self.x as int)
        &&& in_range(self.y as int)
        &&& in_range(self.x + self.width)
        &&& in_range(self.y + self.height)
        &&& self.texture@.len() == self.texture_width * self.texture_height * 4
    }

    open spec fn strokes(&self, width: int, height: int) -> Seq<Stroke> {
        texture_strokes(
            self.x as int,
            self.y as int,
            self.width as int,
            self.height as int,
            self.texture@,
            self.texture_width as int,
            self.texture_height as int,
            width,
            height,
        )
    }

    fn draw(&self, screen: &mut Canvas) {
        let ghost s0 = screen.data@;
        let ghost w = screen.width as int;
        let ghost h = screen.height as int;
        let ghost ops = self.strokes(w, h);
        let xs = clamp_px(ceil_px(self.x), screen.width);
        let xe = clamp_px(ceil_px(self.x + self.width), screen.width);
        let ys = clamp_px(ceil_px(self.y), screen.height);
        let ye = clamp_px(ceil_px(self.y + self.height), screen.height);
        if xs >= xe || ys >= ye || self.texture_width == 0 || self.texture_height == 0 {
            if self.texture_width != 0 && self.texture_height != 0 {
                assert(ops.len() == 0) by (nonlinear_arith)
                    requires
                        ops.len() == 0 || (xe > xs && ye > ys),
                        xs >= xe || ys >= ye,
                ;
            }
            assert(ops =~= Seq::<Stroke>::empty());
            return ;
        }
        let ghost rows = (ye - ys) as int;
        assert(ops.take(0) =~= Seq::<Stroke>::empty());
        let mut i = xs;
        assert((i - xs) * rows == 0) by (nonlinear_arith)
            requires
                i == xs,
        ;
        assert(0 <= (xe - xs) * rows) by (nonlinear_arith)
            requires
                xe > xs,
                rows > 0,
        ;
        while i < xe
            invariant
                self.ready(),
                self.texture_width > 0,
                self.texture_height > 0,
                screen.wf(),
                screen.width == w,
                screen.height == h,
                xs <= i <= xe,
                ys < ye,
                rows == ye - ys,
                xe <= 0x1_0000_0001,
                ye <= 0x1_0000_0001,
                ops == self.strokes(w, h),
                (xs as int, xe as int, ys as int, ye as int) == self.bounds(w, h),
                0 <= (i - xs) * rows <= ops.len(),
                ops.len() == (xe - xs) * rows,
                screen.data@ == apply_all(s0, w, h, ops.take((i - xs) * rows)),
            decreases xe - i,
        {
            let mut j = ys;
            while j < ye
                invariant
                    self.ready(),
                    self.texture_width > 0,
                    self.texture_height > 0,
                    screen.wf(),
                    screen.width == w,
                    screen.height == h,
                    xs <= i < xe,
                    ys <= j <= ye,
                    rows == ye - ys,
                    xe <= 0x1_0000_0001,
                    ye <= 0x1_0000_0001,
                    ops == self.strokes(w, h),
                    (xs as int, xe as int, ys as int, ye as int) == self.bounds(w, h),
                    ops.len() == (xe - xs) * rows,
                    screen.data@ == apply_all(s0, w, h, ops.take((i - xs) * rows + (j - ys))),
                decreases ye - j,
            {
                proof {
                    lemma_grid_index(xs as int, xe as int, ys as int, ye as int, i as int, j as int);
                    lemma_apply_next(s0, w, h, ops, (i - xs) * rows + (j - ys));
                }
                let tx = sample_index(i, self.x, self.width, self.texture_width);
                let ty = sample_index(j, self.y, self.height, self.texture_height);
                let color = read_texel(&self.texture, self.texture_width, self.texture_height, tx, ty);
                screen.write_pixel((i as i64) * ONE, (j as i64) * ONE, color);
                j = j + 1;
            }
            proof {
                lemma_grid_index(xs as int, xe as int, ys as int, ye as int, i as int, ys as int);
            }
            i = i + 1;
        }
        assert(ops.take(ops.len() as int) =~= ops);
    }
}

/// The segment as Wu's algorithm walks it: whether it is steep (then x and y
/// trade places), and its ends `(x0, y0)`, `(x1, y1)` with `x0 <= x1`.
pub struct Walked {
    pub steep: bool,
    pub x0: int,
    pub y0: int,
    pub x1: int,
    pub y1: int,
}

impl ColorLine {
    pub open spec fn walked(&self) -> Walked {
        let (ax, ay, bx, by) = (
            self.start.x as int,
            self.start.y as int,
            self.end.x as int,
            self.end.y as int,
        );
        let steep = abs_int(by - ay) > abs_int(bx - ax);
        let (ax, ay, bx, by) = if steep {
            (ay, ax, by, bx)
        } else {
            (ax, ay, bx, by)
        };
        if ax > bx {
            Walked { steep, x0: bx, y0: by, x1: ax, y1: ay }
        } else {
            Walked { steep, x0: ax, y0: ay, x1: bx, y1: by }
        }
    }

    /// `dy / dx` in `ONE` units, rounded toward zero (0 for a single point).
    pub open spec fn gradient(&self) -> int {
        let l = self.walked();
        if l.x1 - l.x0 == 0 {
            0
        } else {
            div_trunc((l.y1 - l.y0) * ONE, l.x1 - l.x0)
        }
    }

    /// The whole steps along the major axis: from `x0` to `x1`, each rounded
    /// toward zero, cut to `[0, limit]` (steps past the canvas edge draw
    /// nothing).
    pub open spec fn steps(&self, width: int, height: int) -> (int, int) {
        let l = self.walked();
        let limit = if l.steep {
            height
        } else {
            width
        };
        (clamp_spec(trunc_spec(l.x0), limit), clamp_spec(trunc_spec(l.x1), limit))
    }

    /// The two blends of step `k` (major coordinate `xs + k`): at minor
    /// coordinate `y` with weight `1 − fract(y)`, and at `y + 1` with weight
    /// `fract(y)`, where `y = y0 + (k + 1)·gradient`.
    pub open spec fn step_stroke(&self, xs: int, m: int) -> Stroke {
        let l = self.walked();
        let k = m / 2;
        let y = l.y0 + (k + 1) * self.gradient();
        let f = y - trunc_spec(y) * ONE;
        let minor = if m % 2 == 0 {
            y
        } else {
            y + ONE
        };
        let b = if m % 2 == 0 {
            ONE - f
        } else {
            f
        };
        let major = (xs + k) * ONE;
        if l.steep {
            Stroke { x: minor, y: major, color: self.color, weight: Some(b) }
        } else {
            Stroke { x: major, y: minor, color: self.color, weight: Some(b) }
        }
    }
}

impl Drawable for ColorLine {
    open spec fn ready(&self) -> bool {
        &&& in_range(self.start.x as int)
        &&& in_range(self.start.y as int)
        &&& in_range(self.end.x as int)
        &&& in_range(self.end.y as int)
    }

    open spec fn strokes(&self, width: int, height: int) -> Seq<Stroke> {
        let (xs, xe) = self.steps(width, height);
        let n = if xe > xs {
            xe - xs
        } else {
            0
        };
        Seq::new((2 * n) as nat, |m: int| self.step_stroke(xs, m))
    }

    fn draw(&self, screen: &mut Canvas) {
        let ghost s0 = screen.data@;
        let ghost w = screen.width as int;
        let ghost h = screen.height as int;
        let ghost ops = self.strokes(w, h);
        let ghost l = self.walked();
        let (mut x0, mut y0) = (self.start.x, self.start.y);
        let (mut x1, mut y1) = (self.end.x, self.end.y);
        let ady = if y1 >= y0 { y1 - y0 } else { y0 - y1 };
        let adx = if x1 >= x0 { x1 - x0 } else { x0 - x1 };
        let steep = ady > adx;
        if steep {
            let t = x0;
            x0 = y0;
            y0 = t;
            let t = x1;
            x1 = y1;
            y1 = t;
        }
        if x0 > x1 {
            let t = x0;
            x0 = x1;
            x1 = t;
            let t = y0;
            y0 = y1;
            y1 = t;
        }
        assert(l == Walked { steep, x0: x0 as int, y0: y0 as int, x1: x1 as int, y1: y1 as int });
        let dx = x1 - x0;
        let dy = y1 - y0;
        let gradient: i64 = if dx == 0 {
            0
        } else if dy >= 0 {
            (dy * ONE) / dx
        } else {
            -(((-dy) * ONE) / dx)
        };
        assert(-ONE <= gradient <= ONE) by (nonlinear_arith)
            requires
                dx == 0 ==> gradient == 0,
                dx != 0 && dy >= 0 ==> gradient == (dy * ONE) / (dx as int),
                dx != 0 && dy < 0 ==> gradient == -(((-dy) * ONE) / (dx as int)),
                dx >= 0,
                -dx <= dy <= dx,
        ;
        assert(gradient == self.gradient());
        let limit = if steep { screen.height } else { screen.width };
        let xs = clamp_px(trunc_px(x0), limit);
        let xe = clamp_px(trunc_px(x1), limit);
        assert((xs as int, xe as int) == self.steps(w, h));
        let mut y: i64 = y0 + gradient;
        let mut x = xs;
        assert(ops.take(0) =~= Seq::<Stroke>::empty());
        assert(y == y0 + (x - xs + 1) * gradient) by (nonlinear_arith)
            requires
                y == y0 + gradient,
                x == xs,
        ;
        while x < xe
            invariant
                screen.wf(),
                screen.width == w,
                screen.height == h,
                xs <= x <= xe || xe <= xs == x,
                xe <= 0x100_0001,
                in_range(y0 as int),
                -ONE <= gradient <= ONE,
                gradient == self.gradient(),
                l == self.walked(),
                l.steep == steep,
                l.y0 == y0,
                (xs as int, xe as int) == self.steps(w, h),
                ops == self.strokes(w, h),
                y == y0 + (x - xs + 1) * gradient,
                screen.data@ == apply_all(s0, w, h, ops.take(2 * (x - xs))),
            decreases xe - x,
        {
            let ghost k = x - xs;
            assert(-(k + 1) * ONE <= (k + 1) * gradient <= (k + 1) * ONE) by (nonlinear_arith)
                requires
                    k >= 0,
                    -ONE <= gradient <= ONE,
            ;
            let f = y - trunc_px(y) * ONE;
            assert(ops.len() == 2 * (xe - xs));
            proof {
                lemma_apply_next(s0, w, h, ops, 2 * k);
                lemma_apply_next(s0, w, h, ops, 2 * k + 1);
                assert((2 * k) / 2 == k && (2 * k) % 2 == 0);
                assert((2 * k + 1) / 2 == k && (2 * k + 1) % 2 == 1);
            }
            let major = (x as i64) * ONE;
            if steep {
                screen.blend_pixel(y, major, self.color, ONE - f);
                screen.blend_pixel(y + ONE, major, self.color, f);
            } else {
                screen.blend_pixel(major, y, self.color, ONE - f);
                screen.blend_pixel(major, y + ONE, self.color, f);
            }
            assert(2 * (x + 1 - xs) == 2 * k + 2);
            y = y + gradient;
            x = x + 1;
            assert(y == y0 + (x - xs + 1) * gradient) by (nonlinear_arith)
                requires
                    y == y0 + (k + 1) * gradient + gradient,
                    x - xs == k + 1,
            ;
        }
        if xs < xe {
            assert(ops.take(2 * (x - xs)) =~= ops);
        } else {
            assert(ops.take(0) =~= ops);
        }
    }
}

/// A fixed-point value rounded toward zero to whole pixels, negatives to 0.
pub open spec fn whole(v: int) -> int {
    if trunc_spec(v) < 0 {
        0
    } else {
        trunc_spec(v)
    }
}

fn whole_px(v: i64) -> (r: usize)
    requires
        in_range(v as int),
    ensures
        r == whole(v as int),
        r <= 0x100_0001,
{
    let t = trunc_px(v);
    if t < 0 {
        0
    } else {
        t as usize
    }
}

impl Drawable for Sprite {
    open spec fn ready(&self) -> bool {
        &&& in_range(self.rect.x as int)
        &&& in_range(self.rect.y as int)
        &&& in_range(self.rect.width as int)
        &&& in_range(self.rect.height as int)
        &&& self.texture@.len() >= whole(self.rect.width as int) * whole(self.rect.height as int) * 4
    }

    /// Texel `(i, j)` of the sprite goes, opaque, to pixel `(x + i, y + j)`,
    /// column by column, where `x` and `y` are the box's corner in whole pixels.
    open spec fn strokes(&self, width: int, height: int) -> Seq<Stroke> {
        let cols = whole(self.rect.width as int);
        let rows = whole(self.rect.height as int);
        let ox = whole(self.rect.x as int);
        let oy = whole(self.rect.y as int);
        grid_strokes(
            0,
            cols,
            0,
            rows,
            |i: int, j: int|
                Stroke {
                    x: (ox + i) * ONE,
                    y: (oy + j) * ONE,
                    color: texel(self.texture@, cols, i, j),
                    weight: None,
                },
        )
    }

    fn draw(&self, screen: &mut Canvas) {
        let ghost s0 = screen.data@;
        let ghost w = screen.width as int;
        let ghost h = screen.height as int;
        let ghost ops = self.strokes(w, h);
        let cols = whole_px(self.rect.width);
        let rows = whole_px(self.rect.height);
        let ox = whole_px(self.rect.x);
        let oy = whole_px(self.rect.y);
        if cols == 0 || rows == 0 {
            assert(ops =~= Seq::<Stroke>::empty());
            return ;
        }
        assert(ops.take(0) =~= Seq::<Stroke>::empty());
        let mut i: usize = 0;
        assert(0 <= cols * rows) by (nonlinear_arith)
            requires
                cols > 0,
                rows > 0,
        ;
        while i < cols
            invariant
                self.ready(),
                screen.wf(),
                screen.width == w,
                screen.height == h,
                i <= cols,
                rows > 0,
                cols <= 0x100_0001,
                rows <= 0x100_0001,
                ox <= 0x100_0001,
                oy <= 0x100_0001,
                cols == whole(self.rect.width as int),
                rows == whole(self.rect.height as int),
                ox == whole(self.rect.x as int),
                oy == whole(self.rect.y as int),
                ops == self.strokes(w, h),
                0 <= i * rows <= ops.len(),
                ops.len() == cols * rows,
                screen.data@ == apply_all(s0, w, h, ops.take(i * rows)),
            decreases cols - i,
        {
            let mut j: usize = 0;
            while j < rows
                invariant
                    self.ready(),
                    screen.wf(),
                    screen.width == w,
                    screen.height == h,
                    i < cols,
                    j <= rows,
                    cols <= 0x100_0001,
                    rows <= 0x100_0001,
                    ox <= 0x100_0001,
                    oy <= 0x100_0001,
                    cols == whole(self.rect.width as int),
                    rows == whole(self.rect.height as int),
                    ox == whole(self.rect.x as int),
                    oy == whole(self.rect.y as int),
                    ops == self.strokes(w, h),
                    ops.len() == cols * rows,
                    screen.data@ == apply_all(s0, w, h, ops.take(i * rows + j)),
                decreases rows - j,
            {
                proof {
                    lemma_grid_index(0, cols as int, 0, rows as int, i as int, j as int);
                    lemma_apply_next(s0, w, h, ops, i * rows + j);
                }
                let color = read_texel(&self.texture, cols, rows, i, j);
                screen.write_pixel(((ox + i) as i64) * ONE, ((oy + j) as i64) * ONE, color);
                j = j + 1;
            }
            proof {
                lemma_grid_index(0, cols as int, 0, rows as int, i as int, 0);
            }
            i = i + 1;
        }
        assert(ops.take(ops.len() as int) =~= ops);
    }
}

pub proof fn lemma_ceil_whole(p: int)
    ensures
        ceil_spec(p * ONE) == p,
{
    assert((-(p * ONE)) / (ONE as int) == -p) by (nonlinear_arith);
}

/// A box at whole-pixel coordinates, `cols × rows` pixels, lying on the canvas,
/// is drawn as exactly `cols · rows` opaque writes of its colour, one on each of
/// its pixels and none elsewhere; afterwards each of its pixels holds the colour
/// and every other pixel is unchanged.
pub proof fn lemma_aligned_rect(
    r: ColorRect,
    s: Seq<u8>,
    width: int,
    height: int,
    px: int,
    py: int,
    cols: int,
    rows: int,
)
    requires
        r.x == px * ONE,
        r.y == py * ONE,
        r.width == cols * ONE,
        r.height == rows * ONE,
        0 <= px,
        0 <= py,
        0 <= cols,
        0 <= rows,
        px + cols <= width,
        py + rows <= height,
        s.len() == width * height * 4,
    ensures
        ({
            let ops = r.strokes(width, height);
            &&& ops.len() == cols * rows
            &&& forall|n: int|
                0 <= n < ops.len() ==> (#[trigger] ops[n]).weight is None && ops[n].color == r.color
                    && px * ONE <= ops[n].x < (px + cols) * ONE && py * ONE <= ops[n].y < (py + rows)
                    * ONE && ops[n].x % (ONE as int) == 0 && ops[n].y % (ONE as int) == 0
            &&& forall|n: int, m: int|
                0 <= n < m < ops.len() ==> (#[trigger] ops[n].x != #[trigger] ops[m].x || ops[n].y
                    != ops[m].y)
            &&& forall|i: int, j: int|
                px <= i < px + cols && py <= j < py + rows ==> #[trigger] pixel_at(
                    apply_all(s, width, height, ops),
                    width,
                    i,
                    j,
                ) == (r.color.red, r.color.green, r.color.blue, 255u8)
            &&& forall|i: int, j: int|
                0 <= i < width && 0 <= j < height && !(px <= i < px + cols && py <= j < py + rows)
                    ==> #[trigger] pixel_at(apply_all(s, width, height, ops), width, i, j)
                    == pixel_at(s, width, i, j)
        }),
{
    lemma_ceil_whole(px);
    lemma_ceil_whole(py);
    lemma_ceil_whole(px + cols);
    lemma_ceil_whole(py + rows);
    assert((px + cols) * ONE == px * ONE + cols * ONE) by (nonlinear_arith);
    assert((py + rows) * ONE == py * ONE + rows * ONE) by (nonlinear_arith);
    assert(r.bounds(width, height) == (px, px + cols, py, py + rows));
    let ops = r.strokes(width, height);
    assert forall|n: int| 0 <= n < ops.len() implies (#[trigger] ops[n]).weight is None
        && ops[n].color == r.color && px * ONE <= ops[n].x < (px + cols) * ONE && py * ONE
        <= ops[n].y < (py + rows) * ONE && ops[n].x % (ONE as int) == 0 && ops[n].y % (ONE as int)
        == 0 by {
        assert(0 <= n / rows < cols && 0 <= n % rows < rows) by (nonlinear_arith)
            requires
                0 <= n < cols * rows,
                rows > 0,
        ;
        let i = px + n / rows;
        let j = py + n % rows;
        assert(ops[n].x == i * ONE && ops[n].y == j * ONE);
        assert(px * ONE <= i * ONE < (px + cols) * ONE && py * ONE <= j * ONE < (py + rows) * ONE
            && (i * ONE) % (ONE as int) == 0 && (j * ONE) % (ONE as int) == 0) by (nonlinear_arith)
            requires
                px <= i < px + cols,
                py <= j < py + rows,
        ;
    }
    assert forall|n: int, m: int| 0 <= n < m < ops.len() implies (#[trigger] ops[n].x
        != #[trigger] ops[m].x || ops[n].y != ops[m].y) by {
        if ops[n].x == ops[m].x && ops[n].y == ops[m].y {
            assert((px + n / rows) * ONE == (px + m / rows) * ONE);
            assert(n / rows == m / rows) by (nonlinear_arith)
                requires
                    (px + n / rows) * ONE == (px + m / rows) * ONE,
            ;
            assert(n % rows == m % rows) by (nonlinear_arith)
                requires
                    (py + n % rows) * ONE == (py + m % rows) * ONE,
            ;
            assert(n == (n / rows) * rows + n % rows && m == (m / rows) * rows + m % rows)
                by (nonlinear_arith)
                requires
                    rows > 0,
            ;
        }
    }
    assert forall|n: int| 0 <= n < ops.len() implies (#[trigger] ops[n]).weight is None
        && ops[n].color == r.color by {}
    assert forall|i: int, j: int|
        0 <= i < width && 0 <= j < height implies #[trigger] pixel_at(
        apply_all(s, width, height, ops),
        width,
        i,
        j,
    ) == if px <= i < px + cols && py <= j < py + rows {
        (r.color.red, r.color.green, r.color.blue, 255u8)
    } else {
        pixel_at(s, width, i, j)
    } by {
        lemma_uniform_writes(s, width, height, ops, r.color, i, j);
        if px <= i < px + cols && py <= j < py + rows {
            lemma_grid_index(px, px + cols, py, py + rows, i, j);
            let n = (i - px) * rows + (j - py);
            assert(ops[n].x == i * ONE && ops[n].y == j * ONE);
            assert((i * ONE) / (ONE as int) == i && (j * ONE) / (ONE as int) == j) by (nonlinear_arith);
            assert(lands_on(ops[n], width, height, i, j));
        } else {
            if exists|n: int| 0 <= n < ops.len() && #[trigger] lands_on(ops[n], width, height, i, j) {
                let n = choose|n: int| 0 <= n < ops.len() && #[trigger] lands_on(ops[n], width, height, i, j);
                let x = ops[n].x;
                let y = ops[n].y;
                assert(px <= x / (ONE as int) < px + cols && py <= y / (ONE as int) < py + rows)
                    by (nonlinear_arith)
                    requires
                        px * ONE <= x < (px + cols) * ONE,
                        py * ONE <= y < (py + rows) * ONE,
                ;
            }
        }
    }
}

} // verus!

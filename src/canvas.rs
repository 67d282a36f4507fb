use vstd::prelude::*;

use crate::color::{blend_channel, blend_channel_spec, lemma_blend_full, lemma_blend_none, Rgb};
use crate::ONE;
use vstd::arithmetic::div_mod::lemma_fundamental_div_mod_converse;

verus! {

/// A packed RGBA pixel buffer, row-major, four bytes per pixel.
pub struct Canvas {
    pub width: usize,
    pub height: usize,
    pub data: Vec<u8>,
}

/// Whether the fixed-point position `(x, y)` falls on a pixel of a
/// `width × height` canvas.
pub open spec fn covers(width: int, height: int, x: int, y: int) -> bool {
    0 <= x && 0 <= y && x / (ONE as int) < width && y / (ONE as int) < height
}

/// The pixel number of the fixed-point position `(x, y)`.
pub open spec fn spot(width: int, x: int, y: int) -> int {
    x / (ONE as int) + (y / (ONE as int)) * width
}

/// The buffer with pixel `p` set to `c`, fully opaque.
pub open spec fn paint(s: Seq<u8>, p: int, c: Rgb) -> Seq<u8> {
    s.update(4 * p, c.red).update(4 * p + 1, c.green).update(4 * p + 2, c.blue).update(
        4 * p + 3,
        255u8,
    )
}

/// The buffer with pixel `p` mixed towards `c` with weight `b / ONE`, fully opaque.
pub open spec fn mix(s: Seq<u8>, p: int, c: Rgb, b: int) -> Seq<u8> {
    s.update(4 * p, blend_channel_spec(s[4 * p] as int, c.red as int, b) as u8).update(
        4 * p + 1,
        blend_channel_spec(s[4 * p + 1] as int, c.green as int, b) as u8,
    ).update(4 * p + 2, blend_channel_spec(s[4 * p + 2] as int, c.blue as int, b) as u8).update(
        4 * p + 3,
        255u8,
    )
}

/// Byte `k` of an RGBA pixel of colour `c`, fully opaque.
pub open spec fn channel(c: Rgb, k: int) -> u8 {
    if k == 0 {
        c.red
    } else if k == 1 {
        c.green
    } else if k == 2 {
        c.blue
    } else {
        255u8
    }
}

/// A buffer of `len` bytes holding `c`, opaque, in every pixel.
pub open spec fn solid(len: nat, c: Rgb) -> Seq<u8> {
    Seq::new(len, |k: int| channel(c, k % 4))
}

/// A write of `c` at `(x, y)`: dropped where the position is off the canvas.
pub open spec fn plot(s: Seq<u8>, width: int, height: int, x: int, y: int, c: Rgb) -> Seq<u8> {
    if covers(width, height, x, y) {
        paint(s, spot(width, x, y), c)
    } else {
        s
    }
}

/// A blend of `c` at `(x, y)`: dropped where the position is off the canvas.
pub open spec fn plot_blend(
    s: Seq<u8>,
    width: int,
    height: int,
    x: int,
    y: int,
    c: Rgb,
    b: int,
) -> Seq<u8> {
    if covers(width, height, x, y) {
        mix(s, spot(width, x, y), c, b)
    } else {
        s
    }
}

/// The four bytes of pixel `(px, py)`.
pub open spec fn pixel_at(s: Seq<u8>, width: int, px: int, py: int) -> (u8, u8, u8, u8) {
    let i = 4 * (px + py * width);
    (s[i], s[i + 1], s[i + 2], s[i + 3])
}

pub proof fn lemma_pixel_in_buffer(width: int, height: int, px: int, py: int)
    requires
        0 <= px < width,
        0 <= py < height,
    ensures
        0 <= py * width <= px + py * width < width * height,
        4 * (px + py * width) + 3 < width * height * 4,
{
    assert(0 <= py * width <= px + py * width < width * height) by (nonlinear_arith)
        requires
            0 <= px < width,
            0 <= py < height,
    ;
}

pub proof fn lemma_covers_pixel(width: int, height: int, x: int, y: int)
    requires
        covers(width, height, x, y),
    ensures
        0 <= spot(width, x, y) < width * height,
        4 * spot(width, x, y) + 3 < width * height * 4,
{
    lemma_pixel_in_buffer(width, height, x / (ONE as int), y / (ONE as int));
}

/// Reading back a pixel just written gives the written colour, opaque; a write
/// off the canvas (negative, or at or past the width or height) leaves the
/// buffer as it was.
pub proof fn lemma_write_then_read(s: Seq<u8>, width: int, height: int, x: int, y: int, c: Rgb)
    requires
        s.len() == width * height * 4,
    ensures
        covers(width, height, x, y) ==> pixel_at(
            plot(s, width, height, x, y, c),
            width,
            x / (ONE as int),
            y / (ONE as int),
        ) == (c.red, c.green, c.blue, 255u8),
        !covers(width, height, x, y) ==> plot(s, width, height, x, y, c) == s,
{
    if covers(width, height, x, y) {
        lemma_covers_pixel(width, height, x, y);
    }
}

/// Writing the same colour at the same place twice leaves the buffer as one
/// write does.
pub proof fn lemma_write_idempotent(s: Seq<u8>, width: int, height: int, x: int, y: int, c: Rgb)
    requires
        s.len() == width * height * 4,
    ensures
        plot(plot(s, width, height, x, y, c), width, height, x, y, c) == plot(
            s,
            width,
            height,
            x,
            y,
            c,
        ),
{
    if covers(width, height, x, y) {
        lemma_covers_pixel(width, height, x, y);
        let p = spot(width, x, y);
        assert(paint(paint(s, p, c), p, c) =~= paint(s, p, c));
    }
}

/// Blending at full brightness is the same as writing.
pub proof fn lemma_blend_full_is_write(
    s: Seq<u8>,
    width: int,
    height: int,
    x: int,
    y: int,
    c: Rgb,
)
    requires
        s.len() == width * height * 4,
    ensures
        plot_blend(s, width, height, x, y, c, ONE as int) == plot(s, width, height, x, y, c),
{
    if covers(width, height, x, y) {
        lemma_covers_pixel(width, height, x, y);
        let p = spot(width, x, y);
        lemma_blend_full(s[4 * p] as int, c.red as int);
        lemma_blend_full(s[4 * p + 1] as int, c.green as int);
        lemma_blend_full(s[4 * p + 2] as int, c.blue as int);
        assert(mix(s, p, c, ONE as int) =~= paint(s, p, c));
    }
}

/// Blending at zero brightness leaves an opaque pixel, and so the whole
/// buffer, unchanged.
pub proof fn lemma_blend_zero_keeps(s: Seq<u8>, width: int, height: int, x: int, y: int, c: Rgb)
    requires
        s.len() == width * height * 4,
        covers(width, height, x, y) ==> s[4 * spot(width, x, y) + 3] == 255,
    ensures
        plot_blend(s, width, height, x, y, c, 0) == s,
{
    if covers(width, height, x, y) {
        lemma_covers_pixel(width, height, x, y);
        let p = spot(width, x, y);
        lemma_blend_none(s[4 * p] as int, c.red as int);
        lemma_blend_none(s[4 * p + 1] as int, c.green as int);
        lemma_blend_none(s[4 * p + 2] as int, c.blue as int);
        assert(mix(s, p, c, 0) =~= s);
    }
}

/// One write (no weight) or weighted blend of a colour at a fixed-point position.
pub struct Stroke {
    pub x: int,
    pub y: int,
    pub color: Rgb,
    pub weight: Option<int>,
}

pub open spec fn apply(s: Seq<u8>, width: int, height: int, st: Stroke) -> Seq<u8> {
    match st.weight {
        None => plot(s, width, height, st.x, st.y, st.color),
        Some(b) => plot_blend(s, width, height, st.x, st.y, st.color, b),
    }
}

/// The buffer after the strokes, first to last.
pub open spec fn apply_all(s: Seq<u8>, width: int, height: int, ops: Seq<Stroke>) -> Seq<u8>
    decreases ops.len(),
{
    if ops.len() == 0 {
        s
    } else {
        apply(apply_all(s, width, height, ops.drop_last()), width, height, ops.last())
    }
}

pub proof fn lemma_apply_next(s: Seq<u8>, width: int, height: int, ops: Seq<Stroke>, n: int)
    requires
        0 <= n < ops.len(),
    ensures
        apply_all(s, width, height, ops.take(n + 1)) == apply(
            apply_all(s, width, height, ops.take(n)),
            width,
            height,
            ops[n],
        ),
{
    assert(ops.take(n + 1).drop_last() =~= ops.take(n));
}

/// Whether stroke `st` lands on pixel `(px, py)` of a `width × height` canvas.
pub open spec fn lands_on(st: Stroke, width: int, height: int, px: int, py: int) -> bool {
    covers(width, height, st.x, st.y) && st.x / (ONE as int) == px && st.y / (ONE as int) == py
}

pub proof fn lemma_apply_len(s: Seq<u8>, width: int, height: int, ops: Seq<Stroke>)
    requires
        s.len() == width * height * 4,
    ensures
        apply_all(s, width, height, ops).len() == s.len(),
    decreases ops.len(),
{
    if ops.len() > 0 {
        lemma_apply_len(s, width, height, ops.drop_last());
        let st = ops.last();
        if covers(width, height, st.x, st.y) {
            lemma_covers_pixel(width, height, st.x, st.y);
        }
    }
}

/// After opaque writes that all carry colour `c`, a pixel that some write
/// lands on holds `c`; any other pixel is as it was.
pub proof fn lemma_uniform_writes(
    s: Seq<u8>,
    width: int,
    height: int,
    ops: Seq<Stroke>,
    c: Rgb,
    px: int,
    py: int,
)
    requires
        s.len() == width * height * 4,
        0 <= px < width,
        0 <= py < height,
        forall|n: int| 0 <= n < ops.len() ==> (#[trigger] ops[n]).weight is None && ops[n].color == c,
    ensures
        pixel_at(apply_all(s, width, height, ops), width, px, py) == if exists|n: int|
            0 <= n < ops.len() && #[trigger] lands_on(ops[n], width, height, px, py) {
            (c.red, c.green, c.blue, 255u8)
        } else {
            pixel_at(s, width, px, py)
        },
    decreases ops.len(),
{
    if ops.len() > 0 {
        let rest = ops.drop_last();
        assert forall|n: int| 0 <= n < rest.len() implies (#[trigger] rest[n]).weight is None
            && rest[n].color == c by {
            assert(rest[n] == ops[n]);
        }
        lemma_uniform_writes(s, width, height, rest, c, px, py);
        lemma_apply_len(s, width, height, rest);
        lemma_pixel_in_buffer(width, height, px, py);
        let t = apply_all(s, width, height, rest);
        let st = ops.last();
        assert(st == ops[ops.len() - 1]);
        assert(apply_all(s, width, height, ops) == plot(t, width, height, st.x, st.y, c));
        let here = exists|n: int| 0 <= n < ops.len() && #[trigger] lands_on(ops[n], width, height, px, py);
        let before = exists|n: int| 0 <= n < rest.len() && #[trigger] lands_on(rest[n], width, height, px, py);
        if lands_on(st, width, height, px, py) {
            lemma_covers_pixel(width, height, st.x, st.y);
            assert(lands_on(ops[ops.len() - 1], width, height, px, py));
            assert(here);
        } else {
            if covers(width, height, st.x, st.y) {
                lemma_covers_pixel(width, height, st.x, st.y);
                lemma_pixel_distinct(
                    width,
                    height,
                    px,
                    py,
                    st.x / (ONE as int),
                    st.y / (ONE as int),
                );
            }
            assert(pixel_at(apply_all(s, width, height, ops), width, px, py) == pixel_at(t, width, px, py));
            if before {
                let n = choose|n: int| 0 <= n < rest.len() && #[trigger] lands_on(rest[n], width, height, px, py);
                assert(ops[n] == rest[n]);
                assert(here);
            }
            if here {
                let n = choose|n: int| 0 <= n < ops.len() && #[trigger] lands_on(ops[n], width, height, px, py);
                assert(n < rest.len());
                assert(rest[n] == ops[n]);
                assert(before);
            }
        }
    }
}

/// Two different pixels have different pixel numbers.
pub proof fn lemma_pixel_distinct(width: int, height: int, px: int, py: int, qx: int, qy: int)
    requires
        0 <= px < width,
        0 <= py < height,
        0 <= qx < width,
        0 <= qy < height,
        px != qx || py != qy,
    ensures
        px + py * width != qx + qy * width,
{
    if px + py * width == qx + qy * width {
        lemma_fundamental_div_mod_converse(px + py * width, width, py, px);
        lemma_fundamental_div_mod_converse(qx + qy * width, width, qy, qx);
    }
}

impl Canvas {
    pub open spec fn wf(&self) -> bool {
        &&& self.data@.len() == self.width * self.height * 4
        &&& self.width * self.height * 4 <= usize::MAX
    }

    /// A canvas of the given size with every byte zero.
    pub fn new(width: usize, height: usize) -> (r: Canvas)
        requires
            width * height * 4 <= usize::MAX,
        ensures
            r.wf(),
            r.width == width,
            r.height == height,
            forall|i: int| 0 <= i < r.data@.len() ==> r.data@[i] == 0,
    {
        let n: usize = width * height * 4;
        let mut data: Vec<u8> = Vec::with_capacity(n);
        let mut i: usize = 0;
        while i < n
            invariant
                i <= n,
                data@.len() == i,
                forall|k: int| 0 <= k < i ==> data@[k] == 0,
            decreases n - i,
        {
            data.push(0);
            i = i + 1;
        }
        Canvas { width, height, data }
    }

    /// Wraps an existing frame buffer; `None` where its length is not
    /// `width * height * 4`.
    pub fn from_bytes(width: usize, height: usize, data: Vec<u8>) -> (r: Option<Canvas>)
        ensures
            r is Some <==> data@.len() == width * height * 4,
            r matches Some(c) ==> c.wf() && c.width == width && c.height == height && c.data@ == data@,
    {
        let actual = data.len();
        match width.checked_mul(height) {
            Some(n) => match n.checked_mul(4) {
                Some(len) => {
                    if actual == len {
                        Some(Canvas { width, height, data })
                    } else {
                        None
                    }
                },
                None => None,
            },
            None => {
                assert(width * height * 4 >= width * height) by (nonlinear_arith);
                None
            },
        }
    }

    /// The red, green, blue and alpha bytes of pixel `(px, py)`.
    pub fn pixel(&self, px: usize, py: usize) -> (r: (u8, u8, u8, u8))
        requires
            self.wf(),
            px < self.width,
            py < self.height,
        ensures
            r == pixel_at(self.data@, self.width as int, px as int, py as int),
    {
        proof {
            lemma_pixel_in_buffer(self.width as int, self.height as int, px as int, py as int);
        }
        let i = (px + py * self.width) * 4;
        (self.data[i], self.data[i + 1], self.data[i + 2], self.data[i + 3])
    }

    /// Sets every pixel to `color`, opaque.
    pub fn clear(&mut self, color: Rgb)
        requires
            old(self).wf(),
        ensures
            final(self).wf(),
            final(self).width == old(self).width,
            final(self).height == old(self).height,
            final(self).data@ == solid(old(self).data@.len(), color),
    {
        let n: usize = self.data.len();
        let mut k: usize = 0;
        while k < n
            invariant
                self.wf(),
                self.width == old(self).width,
                self.height == old(self).height,
                n == self.data@.len(),
                n == old(self).data@.len(),
                k <= n,
                forall|q: int| 0 <= q < k ==> #[trigger] self.data@[q] == channel(color, q % 4),
            decreases n - k,
        {
            let v = if k % 4 == 0 {
                color.red
            } else if k % 4 == 1 {
                color.green
            } else if k % 4 == 2 {
                color.blue
            } else {
                255
            };
            self.data[k] = v;
            k = k + 1;
        }
        assert(self.data@ =~= solid(n as nat, color));
    }

    /// The pixel number of `(x, y)` where the position is on the canvas.
    fn locate(&self, x: i64, y: i64) -> (r: Option<usize>)
        requires
            self.wf(),
        ensures
            r is Some <==> covers(self.width as int, self.height as int, x as int, y as int),
            r matches Some(p) ==> p == spot(self.width as int, x as int, y as int) && 4 * p + 3
                < self.data@.len(),
    {
        if x < 0 || y < 0 {
            return None;
        }
        let px = x / ONE;
        let py = y / ONE;
        if (px as u64) < (self.width as u64) && (py as u64) < (self.height as u64) {
            proof {
                lemma_covers_pixel(self.width as int, self.height as int, x as int, y as int);
            }
            Some(px as usize + py as usize * self.width)
        } else {
            None
        }
    }

    /// Writes `color`, opaque, at `(x, y)`; off-canvas positions are dropped.
    pub fn write_pixel(&mut self, x: i64, y: i64, color: Rgb)
        requires
            old(self).wf(),
        ensures
            final(self).wf(),
            final(self).width == old(self).width,
            final(self).height == old(self).height,
            final(self).data@ == plot(
                old(self).data@,
                old(self).width as int,
                old(self).height as int,
                x as int,
                y as int,
                color,
            ),
    {
        match self.locate(x, y) {
            Some(p) => {
                let i = 4 * p;
                self.data[i] = color.red;
                self.data[i + 1] = color.green;
                self.data[i + 2] = color.blue;
                self.data[i + 3] = 255;
            },
            None => {},
        }
    }

    /// Mixes `color` into the pixel at `(x, y)` with weight `brightness / ONE`;
    /// off-canvas positions are dropped.
    pub fn blend_pixel(&mut self, x: i64, y: i64, color: Rgb, brightness: i64)
        requires
            old(self).wf(),
        ensures
            final(self).wf(),
            final(self).width == old(self).width,
            final(self).height == old(self).height,
            final(self).data@ == plot_blend(
                old(self).data@,
                old(self).width as int,
                old(self).height as int,
                x as int,
                y as int,
                color,
                brightness as int,
            ),
    {
        match self.locate(x, y) {
            Some(p) => {
                let i = 4 * p;
                let r = blend_channel(self.data[i], color.red, brightness);
                self.data[i] = r;
                let g = blend_channel(self.data[i + 1], color.green, brightness);
                self.data[i + 1] = g;
                let b = blend_channel(self.data[i + 2], color.blue, brightness);
                self.data[i + 2] = b;
                self.data[i + 3] = 255;
            },
            None => {},
        }
    }
}

} // verus!

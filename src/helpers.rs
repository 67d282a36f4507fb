use vstd::prelude::*;
use vstd::string::StringExecFns;

use crate::canvas::{channel, plot, plot_blend, solid, Canvas};
use crate::color::Rgb;
use crate::fixed::{in_range, trunc_spec};
use crate::geo::Point;
use crate::ONE;

verus! {

/// Sets every pixel of the frame to `color`, opaque.
pub fn clear_frame(frame: &mut Canvas, color: Rgb)
    requires
        old(frame).wf(),
    ensures
        final(frame).wf(),
        final(frame).width == old(frame).width,
        final(frame).height == old(frame).height,
        final(frame).data@ == solid(old(frame).data@.len(), color),
{
    frame.clear(color);
}

/// Writes `color`, opaque, at the fixed-point position `(x, y)`; positions off
/// the canvas are dropped.
pub fn draw_pixel_raw(screen: &mut Canvas, x: i64, y: i64, color: Rgb)
    requires
        old(screen).wf(),
    ensures
        final(screen).wf(),
        final(screen).width == old(screen).width,
        final(screen).height == old(screen).height,
        final(screen).data@ == plot(
            old(screen).data@,
            old(screen).width as int,
            old(screen).height as int,
            x as int,
            y as int,
            color,
        ),
{
    screen.write_pixel(x, y, color);
}

/// Mixes `color` into the pixel at `(x, y)` with weight `brightness / ONE`;
/// positions off the canvas are dropped.
pub fn draw_pixel_brightness_raw(screen: &mut Canvas, x: i64, y: i64, color: Rgb, brightness: i64)
    requires
        old(screen).wf(),
    ensures
        final(screen).wf(),
        final(screen).width == old(screen).width,
        final(screen).height == old(screen).height,
        final(screen).data@ == plot_blend(
            old(screen).data@,
            old(screen).width as int,
            old(screen).height as int,
            x as int,
            y as int,
            color,
            brightness as int,
        ),
{
    screen.blend_pixel(x, y, color, brightness);
}

/// The index of the fixed-point position `(x, y)` in a buffer of colours
/// `width` per row and `len` in all; `None` off the buffer (or `y` at or past
/// `width` rows).
pub open spec fn rgb_index(len: int, width: int, x: int, y: int) -> Option<int> {
    let px = x / (ONE as int);
    let py = y / (ONE as int);
    if 0 <= x && 0 <= y && px < width && py < width && px + py * width < len {
        Some(px + py * width)
    } else {
        None
    }
}

fn find_rgb_index(len: usize, width: usize, x: i64, y: i64) -> (r: Option<usize>)
    ensures
        r matches Some(i) ==> rgb_index(len as int, width as int, x as int, y as int) == Some(
            i as int,
        ),
        r is None ==> rgb_index(len as int, width as int, x as int, y as int) is None,
{
    if x < 0 || y < 0 {
        return None;
    }
    let px = (x / ONE) as u128;
    let py = (y / ONE) as u128;
    if px >= width as u128 || py >= width as u128 {
        return None;
    }
    assert(py * width <= 0x1_0000_0000_0000 * 0x1_0000_0000_0000_0000) by (nonlinear_arith)
        requires
            py <= 0x1_0000_0000_0000,
            width <= 0x1_0000_0000_0000_0000,
    ;
    let i = px + py * width as u128;
    if i < len as u128 {
        Some(i as usize)
    } else {
        None
    }
}

/// Sets the colour at `(x, y)` in a buffer of colours `width` per row; off the
/// buffer nothing changes.
pub fn draw_pixel_rgb(screen: &mut Vec<Rgb>, width: usize, x: i64, y: i64, color: Rgb)
    ensures
        final(screen)@ == match rgb_index(old(screen)@.len() as int, width as int, x as int, y as int) {
            Some(i) => old(screen)@.update(i, color),
            None => old(screen)@,
        },
{
    match find_rgb_index(screen.len(), width, x, y) {
        Some(i) => {
            screen[i] = color;
        },
        None => {},
    }
}

/// `old + new · b`, clamped to a channel's range and truncated.
pub open spec fn add_channel_spec(old: int, new: int, b: int) -> int {
    let v = old * ONE + new * b;
    if v < 0 {
        0
    } else if v > 255 * ONE {
        255
    } else {
        v / (ONE as int)
    }
}

fn add_channel(old: u8, new: u8, b: i64) -> (r: u8)
    ensures
        r == add_channel_spec(old as int, new as int, b as int),
{
    assert(-0x100 * 0x8000_0000_0000_0000 <= new as i128 * b as i128 <= 0x100
        * 0x8000_0000_0000_0000) by (nonlinear_arith)
        requires
            0 <= new <= 255,
            -0x8000_0000_0000_0000 <= b <= 0x8000_0000_0000_0000,
    ;
    let kept64: i64 = (old as i64) * ONE;
    let kept: i128 = kept64 as i128;
    let added: i128 = new as i128 * b as i128;
    let v: i128 = kept + added;
    if v < 0 {
        0
    } else if v > 255 * ONE as i128 {
        255
    } else {
        assert((v as int) / (ONE as int) <= 255) by (nonlinear_arith)
            requires
                0 <= v <= 255 * ONE,
        ;
        (v / ONE as i128) as u8
    }
}

/// Adds `color` with weight `brightness / ONE` to the colour at `(x, y)` in a
/// buffer of colours `width` per row, each channel clamped; off the buffer
/// nothing changes.
pub fn draw_pixel_brightness_rgb(
    screen: &mut Vec<Rgb>,
    width: usize,
    x: i64,
    y: i64,
    color: Rgb,
    brightness: i64,
)
    ensures
        final(screen)@ == match rgb_index(old(screen)@.len() as int, width as int, x as int, y as int) {
            Some(i) => old(screen)@.update(
                i,
                Rgb {
                    red: add_channel_spec(old(screen)@[i].red as int, color.red as int, brightness as int) as u8,
                    green: add_channel_spec(old(screen)@[i].green as int, color.green as int, brightness as int) as u8,
                    blue: add_channel_spec(old(screen)@[i].blue as int, color.blue as int, brightness as int) as u8,
                },
            ),
            None => old(screen)@,
        },
{
    match find_rgb_index(screen.len(), width, x, y) {
        Some(i) => {
            let c = screen[i];
            let mixed = Rgb {
                red: add_channel(c.red, color.red, brightness),
                green: add_channel(c.green, color.green, brightness),
                blue: add_channel(c.blue, color.blue, brightness),
            };
            screen[i] = mixed;
        },
        None => {},
    }
}

/// The colours of a frame's whole pixels, alpha dropped.
pub fn frame_to_rgb(frame: &Vec<u8>) -> (r: Vec<Rgb>)
    ensures
        r@.len() == frame@.len() / 4,
        forall|i: int|
            0 <= i < r@.len() ==> #[trigger] r@[i] == (Rgb {
                red: frame@[4 * i],
                green: frame@[4 * i + 1],
                blue: frame@[4 * i + 2],
            }),
{
    let len = frame.len();
    let n = len / 4;
    let mut r: Vec<Rgb> = Vec::new();
    let mut i: usize = 0;
    while i < n
        invariant
            n == frame@.len() / 4,
            len == frame@.len(),
            i <= n,
            r@.len() == i,
            forall|k: int|
                0 <= k < i ==> #[trigger] r@[k] == (Rgb {
                    red: frame@[4 * k],
                    green: frame@[4 * k + 1],
                    blue: frame@[4 * k + 2],
                }),
        decreases n - i,
    {
        let b = 4 * i;
        r.push(Rgb { red: frame[b], green: frame[b + 1], blue: frame[b + 2] });
        i = i + 1;
    }
    r
}

/// A frame holding the given colours, opaque, one pixel each.
pub fn rgb_to_frame(rgb: &Vec<Rgb>) -> (r: Vec<u8>)
    requires
        rgb@.len() * 4 <= usize::MAX,
    ensures
        r@.len() == rgb@.len() * 4,
        forall|k: int| 0 <= k < r@.len() ==> #[trigger] r@[k] == channel(rgb@[k / 4], k % 4),
{
    let mut r: Vec<u8> = Vec::new();
    let mut i: usize = 0;
    while i < rgb.len()
        invariant
            rgb@.len() * 4 <= usize::MAX,
            i <= rgb@.len(),
            r@.len() == 4 * i,
            forall|k: int| 0 <= k < 4 * i ==> #[trigger] r@[k] == channel(rgb@[k / 4], k % 4),
        decreases rgb@.len() - i,
    {
        let c = rgb[i];
        r.push(c.red);
        r.push(c.green);
        r.push(c.blue);
        r.push(255);
        i = i + 1;
    }
    r
}

pub open spec fn min_int(a: int, b: int) -> int {
    if a < b {
        a
    } else {
        b
    }
}

pub open spec fn max_int(a: int, b: int) -> int {
    if a > b {
        a
    } else {
        b
    }
}

/// The least of `s`, or `i64::MAX` for an empty sequence.
pub open spec fn seq_min(s: Seq<int>) -> int
    decreases s.len(),
{
    if s.len() == 0 {
        i64::MAX as int
    } else {
        min_int(seq_min(s.drop_last()), s.last())
    }
}

/// The greatest of `s`, or `i64::MIN` for an empty sequence.
pub open spec fn seq_max(s: Seq<int>) -> int
    decreases s.len(),
{
    if s.len() == 0 {
        i64::MIN as int
    } else {
        max_int(seq_max(s.drop_last()), s.last())
    }
}

/// The least and greatest of a non-empty sequence lie within any bounds that
/// hold of all its elements.
pub proof fn lemma_seq_bounds(s: Seq<int>, lo: int, hi: int)
    requires
        s.len() > 0,
        i64::MIN <= lo <= hi <= i64::MAX,
        forall|i: int| 0 <= i < s.len() ==> lo <= #[trigger] s[i] <= hi,
    ensures
        lo <= seq_min(s) <= hi,
        lo <= seq_max(s) <= hi,
    decreases s.len(),
{
    assert(lo <= s[s.len() - 1] <= hi);
    if s.len() > 1 {
        let t = s.drop_last();
        assert forall|i: int| 0 <= i < t.len() implies lo <= #[trigger] t[i] <= hi by {
            assert(t[i] == s[i]);
        }
        lemma_seq_bounds(t, lo, hi);
    } else {
        assert(s.drop_last().len() == 0);
        assert(seq_min(s.drop_last()) == i64::MAX);
        assert(seq_max(s.drop_last()) == i64::MIN);
    }
}

pub open spec fn xs_of(points: Seq<Point>) -> Seq<int> {
    points.map_values(|p: Point| p.x as int)
}

pub open spec fn ys_of(points: Seq<Point>) -> Seq<int> {
    points.map_values(|p: Point| p.y as int)
}

/// The bounds `(min_x, max_x, min_y, max_y)` of the points.
pub fn min_max_points(points: &Vec<Point>) -> (r: (i64, i64, i64, i64))
    ensures
        r.0 == seq_min(xs_of(points@)),
        r.1 == seq_max(xs_of(points@)),
        r.2 == seq_min(ys_of(points@)),
        r.3 == seq_max(ys_of(points@)),
{
    let mut min_x = i64::MAX;
    let mut max_x = i64::MIN;
    let mut min_y = i64::MAX;
    let mut max_y = i64::MIN;
    let mut i: usize = 0;
    while i < points.len()
        invariant
            i <= points@.len(),
            min_x == seq_min(xs_of(points@.take(i as int))),
            max_x == seq_max(xs_of(points@.take(i as int))),
            min_y == seq_min(ys_of(points@.take(i as int))),
            max_y == seq_max(ys_of(points@.take(i as int))),
        decreases points@.len() - i,
    {
        let p = points[i];
        proof {
            let s = points@.take(i as int + 1);
            assert(xs_of(s).drop_last() =~= xs_of(points@.take(i as int)));
            assert(ys_of(s).drop_last() =~= ys_of(points@.take(i as int)));
        }
        if p.x < min_x {
            min_x = p.x;
        }
        if p.x > max_x {
            max_x = p.x;
        }
        if p.y < min_y {
            min_y = p.y;
        }
        if p.y > max_y {
            max_y = p.y;
        }
        i = i + 1;
    }
    assert(points@.take(points@.len() as int) =~= points@);
    (min_x, max_x, min_y, max_y)
}

/// Whether `p` lies strictly inside the circle about `center` of `radius`.
pub fn is_in_circle(p: Point, center: Point, radius: i64) -> (r: bool)
    requires
        in_range(p.x as int),
        in_range(p.y as int),
        in_range(center.x as int),
        in_range(center.y as int),
        in_range(radius as int),
    ensures
        r == ((p.x - center.x) * (p.x - center.x) + (p.y - center.y) * (p.y - center.y) < radius
            * radius),
{
    let dx = p.x as i128 - center.x as i128;
    let dy = p.y as i128 - center.y as i128;
    let r = radius as i128;
    assert(0 <= dx * dx <= 0x4_0000_0000_0000_0000_0000 && 0 <= dy * dy
        <= 0x4_0000_0000_0000_0000_0000 && 0 <= r * r <= 0x4_0000_0000_0000_0000_0000)
        by (nonlinear_arith)
        requires
            -0x200_0000_0000 <= dx <= 0x200_0000_0000,
            -0x200_0000_0000 <= dy <= 0x200_0000_0000,
            -0x200_0000_0000 <= r <= 0x200_0000_0000,
    ;
    dx * dx + dy * dy < r * r
}

/// The map cell `(x / W · map_width, y / W · map_height)` of a screen
/// position, where `W` is the screen width (both axes scale by the width),
/// rounded toward zero, negatives taken as 0 and too large values as the
/// largest index.
pub open spec fn screen_to_map_spec(
    x: int,
    y: int,
    screen_width: int,
    map_width: int,
    map_height: int,
) -> (int, int) {
    let cx = trunc_spec(x * map_width / screen_width);
    let cy = trunc_spec(y * map_height / screen_width);
    (if x < 0 {
        0
    } else if cx > usize::MAX {
        usize::MAX as int
    } else {
        cx
    }, if y < 0 {
        0
    } else if cy > usize::MAX {
        usize::MAX as int
    } else {
        cy
    })
}

pub fn screen_to_map(x: i64, y: i64, screen_width: u32, map_width: u32, map_height: u32) -> (r: (
    usize,
    usize,
))
    requires
        screen_width > 0,
    ensures
        (r.0 as int, r.1 as int) == screen_to_map_spec(
            x as int,
            y as int,
            screen_width as int,
            map_width as int,
            map_height as int,
        ),
{
    let sw = screen_width as i128;
    let cx: usize = if x < 0 {
        0
    } else {
        assert(0 <= (x as int) * map_width <= 0x8000_0000_0000_0000 * 0x1_0000_0000)
            by (nonlinear_arith)
            requires
                0 <= x <= 0x8000_0000_0000_0000,
                0 <= map_width <= 0x1_0000_0000,
        ;
        let v = (x as i128 * map_width as i128) / sw / ONE as i128;
        if v > usize::MAX as i128 {
            usize::MAX
        } else {
            v as usize
        }
    };
    let cy: usize = if y < 0 {
        0
    } else {
        assert(0 <= (y as int) * map_height <= 0x8000_0000_0000_0000 * 0x1_0000_0000)
            by (nonlinear_arith)
            requires
                0 <= y <= 0x8000_0000_0000_0000,
                0 <= map_height <= 0x1_0000_0000,
        ;
        let v = (y as i128 * map_height as i128) / sw / ONE as i128;
        if v > usize::MAX as i128 {
            usize::MAX
        } else {
            v as usize
        }
    };
    (cx, cy)
}

/// The lines that report a failed call: `"<method>() failed: <error>"`, then
/// one `"  Caused by: <cause>"` for each cause in the chain, in order.
pub fn log_error(method_name: &str, error: &str, causes: &Vec<String>) -> (r: Vec<String>)
    ensures
        r@.len() == causes@.len() + 1,
        r@[0]@ == method_name@ + "() failed: "@ + error@,
        forall|i: int| 0 <= i < causes@.len() ==> #[trigger] r@[i + 1]@ == "  Caused by: "@ + causes@[i]@,
{
    let mut lines: Vec<String> = Vec::new();
    let mut first = String::from_str(method_name);
    first.append("() failed: ");
    first.append(error);
    lines.push(first);
    let mut i: usize = 0;
    while i < causes.len()
        invariant
            i <= causes@.len(),
            lines@.len() == i + 1,
            lines@[0]@ == method_name@ + "() failed: "@ + error@,
            forall|k: int| 0 <= k < i ==> #[trigger] lines@[k + 1]@ == "  Caused by: "@ + causes@[k]@,
        decreases causes@.len() - i,
    {
        let mut line = String::from_str("  Caused by: ");
        line.append(causes[i].as_str());
        lines.push(line);
        i = i + 1;
    }
    lines
}

} // verus!

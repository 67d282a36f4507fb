use vstd::prelude::*;

use crate::canvas::{apply_all, solid, Canvas, Stroke};
use crate::color::Rgb;
use crate::fixed::{
    ceil_spec, clamp_spec,
    abs_int, div_trunc, in_range, is_root, isqrt, rem_fx, rem_trunc, root, scale_fx, COORD_LIMIT,
};
use crate::geo::{ColorRect, Point, TextureRect};
use crate::graphics::{lemma_apply_concat, lemma_ceil_whole, texture_strokes, Drawable};
use crate::raycast::{lemma_tile_under_in, lemma_trace_hit, GridMap, RayHit};
use crate::ONE;
use vstd::arithmetic::div_mod::lemma_div_denominator;

verus! {

/// π in `ONE` units.
pub const PI: i64 = 205887;

/// A full turn, 2π, in `ONE` units.
pub const TAU: i64 = 411775;

/// The largest screen side, in pixels, that the projector takes. It is an
/// overflow limit of the fixed-point arithmetic: strip heights (up to
/// `side · WALL_SCALE` pixels) and column positions then stay within
/// `COORD_LIMIT`.
pub const MAX_SCREEN: usize = 0x1_0000;

/// How tall a wall one pixel away is drawn, in screen heights.
pub const WALL_SCALE: i64 = 50;

/// The movement and turning commands held during one update.
#[derive(Clone, Copy, Debug, Default, PartialEq, Eq, Structural)]
pub struct Controls {
    pub forward: bool,
    pub backward: bool,
    pub left: bool,
    pub right: bool,
    pub strafe_left: bool,
    pub strafe_right: bool,
}

/// The viewpoint and what it looks at: position and heading (in `ONE` units,
/// the heading in radians), field of view (degrees, in `ONE` units), speeds,
/// the map, and for each wall tile id `t` the texture columns `textures[t - 1]`.
pub struct World {
    pub speed: i64,
    pub rotation_speed: i64,
    pub x: i64,
    pub y: i64,
    pub theta: i64,
    pub fov: i64,
    pub textures: Vec<Vec<Vec<u8>>>,
    pub map: GridMap,
}

impl World {
    pub open spec fn wf(&self) -> bool {
        &&& self.map.wf()
        &&& in_range(self.x as int)
        &&& in_range(self.y as int)
        &&& in_range(self.theta as int)
        &&& in_range(self.speed as int)
        &&& in_range(self.rotation_speed as int)
        &&& in_range(self.fov as int)
        &&& forall|i: int|
            0 <= i < self.map.tiles@.len() ==> #[trigger] self.map.tiles@[i] as int
                <= self.textures@.len()
        &&& forall|t: int|
            0 <= t < self.textures@.len() ==> #[trigger] self.textures@[t]@.len() > 0
        &&& forall|t: int, c: int|
            0 <= t < self.textures@.len() && 0 <= c < self.textures@[t]@.len() ==> (
            #[trigger] self.textures@[t]@[c])@.len() % 4 == 0
    }

    /// A world on `map` seen from the middle of a `width × height` pixel view,
    /// facing up the screen (heading −π/2), with a 60° field of view, a speed
    /// of 2 pixels and a turn of 0.05 radians per update.
    pub fn new(textures: Vec<Vec<Vec<u8>>>, map: GridMap, width: u32, height: u32) -> (r: World)
        ensures
            r.x == width as int * ONE / 2,
            r.y == height as int * ONE / 2,
            r.theta == -(PI / 2),
            r.speed == 2 * ONE,
            r.rotation_speed == 3277,
            r.fov == 60 * ONE,
            r.textures@ == textures@,
            r.map == map,
    {
        World {
            x: (width as i64 * ONE) / 2,
            y: (height as i64 * ONE) / 2,
            theta: -(PI / 2),
            speed: 2 * ONE,
            rotation_speed: 3277,
            fov: 60 * ONE,
            textures,
            map,
        }
    }

    /// What stands at a position: `Some(0)` off the map, `Some(t)` on a wall
    /// tile `t`, `None` on open floor.
    pub open spec fn obstacle(&self, x: int, y: int) -> Option<u8> {
        if !self.map.inside(x, y) {
            Some(0u8)
        } else if self.map.tile_under(x, y) != 0 {
            Some(self.map.tile_under(x, y))
        } else {
            None
        }
    }

    pub fn will_hit_obstacle(&self, x: i64, y: i64) -> (r: Option<u8>)
        requires
            self.map.wf(),
        ensures
            r == self.obstacle(x as int, y as int),
    {
        match self.map.cell_of(x, y) {
            None => Some(0),
            Some((col, row)) => {
                let t = self.map.tile_at(col, row);
                if t != 0 {
                    Some(t)
                } else {
                    None
                }
            },
        }
    }

    /// The position after trying to move by `(dx, dy)`: the move is made only
    /// where it lands on open floor.
    pub open spec fn try_move(&self, p: (int, int), dx: int, dy: int) -> (int, int) {
        if self.obstacle(p.0 + dx, p.1 + dy) is None {
            (p.0 + dx, p.1 + dy)
        } else {
            p
        }
    }

    /// One unit of `v` (a heading component) at the world's speed.
    pub open spec fn pace(&self, v: int) -> int {
        div_trunc(v * self.speed, ONE as int)
    }

    /// The position after one update: forward, backward, strafe right and
    /// strafe left, in that order, each along the heading `(hx, hy)` turned as
    /// the command asks.
    pub open spec fn moved(&self, c: Controls, hx: int, hy: int) -> (int, int) {
        let here = (self.x as int, self.y as int);
        let ahead = if c.forward {
            self.try_move(here, self.pace(hx), self.pace(hy))
        } else {
            here
        };
        let behind = if c.backward {
            self.try_move(ahead, self.pace(-hx), self.pace(-hy))
        } else {
            ahead
        };
        let rightward = if c.strafe_right {
            self.try_move(behind, self.pace(-hy), self.pace(hx))
        } else {
            behind
        };
        if c.strafe_left {
            self.try_move(rightward, self.pace(hy), self.pace(-hx))
        } else {
            rightward
        }
    }

    /// The heading after one update, kept within one turn.
    pub open spec fn turned(&self, c: Controls) -> int {
        let t = self.theta + (if c.right {
            self.rotation_speed as int
        } else {
            0
        }) - (if c.left {
            self.rotation_speed as int
        } else {
            0
        });
        rem_trunc(t, TAU as int)
    }

    fn step(&mut self, dx: i64, dy: i64)
        requires
            old(self).wf(),
            in_range(dx as int),
            in_range(dy as int),
        ensures
            final(self).wf(),
            (final(self).x as int, final(self).y as int) == old(self).try_move(
                (old(self).x as int, old(self).y as int),
                dx as int,
                dy as int,
            ),
            final(self).theta == old(self).theta,
            final(self).speed == old(self).speed,
            final(self).rotation_speed == old(self).rotation_speed,
            final(self).fov == old(self).fov,
            final(self).map == old(self).map,
            final(self).textures@ == old(self).textures@,
    {
        let nx = self.x + dx;
        let ny = self.y + dy;
        if self.will_hit_obstacle(nx, ny).is_none() {
            self.x = nx;
            self.y = ny;
        }
    }

    /// Applies the commands held for one update, given the heading as a unit
    /// vector `(cos θ, sin θ)` in `ONE` units.
    #[verifier::rlimit(40)]
    pub fn update(&mut self, controls: &Controls, heading: Point)
        requires
            old(self).wf(),
            -ONE <= heading.x <= ONE,
            -ONE <= heading.y <= ONE,
        ensures
            final(self).wf(),
            (final(self).x as int, final(self).y as int) == old(self).moved(
                *controls,
                heading.x as int,
                heading.y as int,
            ),
            final(self).theta == old(self).turned(*controls),
            final(self).speed == old(self).speed,
            final(self).rotation_speed == old(self).rotation_speed,
            final(self).fov == old(self).fov,
            final(self).map == old(self).map,
            final(self).textures@ == old(self).textures@,
    {
        let hx = heading.x;
        let hy = heading.y;
        if controls.forward {
            let dx = scale_fx(hx, self.speed);
            let dy = scale_fx(hy, self.speed);
            self.step(dx, dy);
        }
        if controls.backward {
            let dx = scale_fx(-hx, self.speed);
            let dy = scale_fx(-hy, self.speed);
            self.step(dx, dy);
        }
        if controls.strafe_right {
            let dx = scale_fx(-hy, self.speed);
            let dy = scale_fx(hx, self.speed);
            self.step(dx, dy);
        }
        if controls.strafe_left {
            let dx = scale_fx(hy, self.speed);
            let dy = scale_fx(-hx, self.speed);
            self.step(dx, dy);
        }
        let mut t = self.theta;
        if controls.right {
            t = t + self.rotation_speed;
        }
        if controls.left {
            t = t - self.rotation_speed;
        }
        self.theta = rem_fx(t, TAU);
    }
}

/// The fixed-point `v / 2`, rounded down.
fn half_floor(v: i64) -> (r: i64)
    requires
        v > -0x4000_0000_0000_0000,
    ensures
        r == v / 2,
{
    if v >= 0 {
        v / 2
    } else {
        -((-v + 1) / 2)
    }
}

impl World {
    /// The ray angle of screen column `i` of `columns`: the heading plus
    /// `(i − columns/2)` steps of `fov / columns` degrees, turned into radians
    /// (rounded toward zero).
    pub open spec fn column_angle(&self, i: int, columns: int) -> int {
        self.theta + div_trunc((2 * i - columns) * self.fov * PI, 2 * columns * 180 * ONE)
    }

    pub fn column_angles(&self, columns: usize) -> (r: Vec<i64>)
        requires
            self.wf(),
            0 < columns <= MAX_SCREEN,
        ensures
            r@.len() == columns,
            forall|i: int| 0 <= i < columns ==> r@[i] == self.column_angle(i, columns as int),
    {
        let mut r: Vec<i64> = Vec::new();
        let den: i128 = 2 * columns as i128 * 180 * ONE as i128;
        let mut i: usize = 0;
        while i < columns
            invariant
                self.wf(),
                0 < columns <= MAX_SCREEN,
                den == 2 * columns * 180 * ONE,
                i <= columns,
                r@.len() == i,
                forall|k: int| 0 <= k < i ==> r@[k] == self.column_angle(k, columns as int),
            decreases columns - i,
        {
            let off: i128 = 2 * i as i128 - columns as i128;
            assert(-0x2_0000 * COORD_LIMIT * PI <= off * self.fov * PI <= 0x2_0000 * COORD_LIMIT * PI)
                by (nonlinear_arith)
                requires
                    -0x2_0000 <= off <= 0x2_0000,
                    -COORD_LIMIT <= self.fov <= COORD_LIMIT,
            ;
            let num: i128 = off * self.fov as i128 * PI as i128;
            let q: i128 = if num >= 0 {
                num / den
            } else {
                -((-num) / den)
            };
            assert(-0x10_0000_0000_0000 <= q <= 0x10_0000_0000_0000) by (nonlinear_arith)
                requires
                    num >= 0 ==> q == (num as int) / (den as int),
                    num < 0 ==> q == -((-num) / (den as int)),
                    -0x2_0000 * COORD_LIMIT * PI <= num <= 0x2_0000 * COORD_LIMIT * PI,
                    den >= 2 * 180 * ONE,
            ;
            r.push(self.theta + q as i64);
            i = i + 1;
        }
        r
    }

    /// The straight-line distance from the viewpoint to a hit, rounded down.
    pub open spec fn distance(&self, hit: RayHit) -> int {
        let dx = hit.point.x - self.x;
        let dy = hit.point.y - self.y;
        root(dx * dx + dy * dy)
    }

    /// The on-screen height of a wall strip at distance `dist`:
    /// `screen height / dist · WALL_SCALE`.
    pub open spec fn strip_height(screen_height: int, dist: int) -> int {
        screen_height * WALL_SCALE * ONE * ONE / dist
    }

    /// Which of `n` texture columns a hit shows: its position along the wall
    /// face (x for side 1, y for side 0) within a cell width, scaled to `n` and
    /// kept below `n`.
    pub open spec fn texture_column(&self, hit: RayHit, n: int) -> int {
        let along = if hit.side == 1 {
            hit.point.x as int
        } else {
            hit.point.y as int
        };
        let c = (along % (self.map.cell_width as int)) * n / (self.map.cell_width as int);
        if c < n - 1 {
            c
        } else {
            n - 1
        }
    }

    /// What column `i` draws for the ray along `dir`: nothing on a miss, else a
    /// one-pixel-wide strip of the hit texture column, centred vertically.
    pub open spec fn column_strokes(&self, i: int, dir: Point, width: int, height: int) -> Seq<
        Stroke,
    > {
        match self.map.cast_spec(Point { x: self.x, y: self.y }, dir) {
            None => Seq::empty(),
            Some(hit) => {
                let h = Self::strip_height(height, self.distance(hit));
                let set = self.textures@[hit.tile - 1]@;
                let tex = set[self.texture_column(hit, set.len() as int)]@;
                texture_strokes(
                    i * ONE,
                    strip_top(height, h),
                    ONE as int,
                    h,
                    tex,
                    1,
                    tex.len() as int / 4,
                    width,
                    height,
                )
            },
        }
    }

    /// The strokes of the first `k` columns, left to right.
    pub open spec fn rays_strokes(&self, dirs: Seq<Point>, k: int, width: int, height: int) -> Seq<
        Stroke,
    >
        decreases k,
    {
        if k <= 0 {
            Seq::empty()
        } else {
            self.rays_strokes(dirs, k - 1, width, height) + self.column_strokes(
                k - 1,
                dirs[k - 1],
                width,
                height,
            )
        }
    }

    /// Draws column `i` for the ray along `dir`.
    fn draw_column(&self, frame: &mut Canvas, i: usize, dir: Point)
        requires
            self.wf(),
            old(frame).wf(),
            old(frame).width <= MAX_SCREEN,
            old(frame).height <= MAX_SCREEN,
            i < old(frame).width,
            -ONE <= dir.x <= ONE,
            -ONE <= dir.y <= ONE,
        ensures
            final(frame).wf(),
            final(frame).width == old(frame).width,
            final(frame).height == old(frame).height,
            final(frame).data@ == apply_all(
                old(frame).data@,
                old(frame).width as int,
                old(frame).height as int,
                self.column_strokes(i as int, dir, old(frame).width as int, old(frame).height as int),
            ),
    {
        let origin = Point { x: self.x, y: self.y };
        match self.map.ray_hits(origin, dir) {
            None => {},
            Some(hit) => {
                proof {
                    lemma_trace_hit(
                        self.map,
                        GridMap::start_walk(origin, dir),
                        GridMap::abs(dir.x as int),
                        GridMap::abs(dir.y as int),
                        GridMap::sign(dir.x as int),
                        GridMap::sign(dir.y as int),
                    );
                    lemma_tile_under_in(self.map, hit.point.x as int, hit.point.y as int);
                }
                let dx: i128 = hit.point.x as i128 - self.x as i128;
                let dy: i128 = hit.point.y as i128 - self.y as i128;
                assert(dx * dx <= 0x4_0000_0000_0000_0000_0000 && dy * dy <= 0x4_0000_0000_0000_0000_0000)
                    by (nonlinear_arith)
                    requires
                        -0x200_0000_0000 <= dx <= 0x200_0000_0000,
                        -0x200_0000_0000 <= dy <= 0x200_0000_0000,
                ;
                assert(dx * dx >= ONE * ONE || dy * dy >= ONE * ONE) by (nonlinear_arith)
                    requires
                        abs_int(dx as int) >= ONE || abs_int(dy as int) >= ONE,
                ;
                assert(dx * dx >= 0 && dy * dy >= 0) by (nonlinear_arith);
                let sq = dx * dx + dy * dy;
                let dist = isqrt(sq as u128);
                assert(dist >= ONE) by (nonlinear_arith)
                    requires
                        is_root(sq as int, dist as int),
                        sq >= ONE * ONE,
                ;
                assert(dist <= 0x400_0000_0000) by (nonlinear_arith)
                    requires
                        is_root(sq as int, dist as int),
                        sq <= 0x8_0000_0000_0000_0000_0000,
                ;
                let scaled: i128 = frame.height as i128 * WALL_SCALE as i128 * ONE as i128 * ONE as i128;
                let h: i128 = scaled / dist as i128;
                assert(0 <= h <= 0x1_0000 * WALL_SCALE * ONE) by (nonlinear_arith)
                    requires
                        h == (scaled as int) / (dist as int),
                        scaled == frame.height * WALL_SCALE * ONE * ONE,
                        frame.height <= MAX_SCREEN,
                        dist >= ONE,
                ;
                let h = h as i64;
                let set = &self.textures[hit.tile as usize - 1];
                let n = set.len();
                let along: i64 = if hit.side == 1 {
                    hit.point.x
                } else {
                    hit.point.y
                };
                let cw = self.map.cell_width;
                assert(0 <= along);
                let rel = along % cw;
                assert(0 <= rel < cw);
                assert(0 <= rel * n < 0x7fff_ffff_ffff_ffff_ffff_ffff_ffff_ffff) by (nonlinear_arith)
                    requires
                        0 <= rel < 0x8000_0000_0000_0000,
                        0 <= n < 0x1_0000_0000_0000_0000,
                ;
                assert(0 <= rel * n / (cw as int) <= n) by (nonlinear_arith)
                    requires
                        0 <= rel < cw,
                        n > 0,
                ;
                let c0 = ((rel as i128 * n as i128) / cw as i128) as usize;
                let c = if c0 < n - 1 {
                    c0
                } else {
                    n - 1
                };
                let tex = &set[c];
                let th = tex.len() / 4;
                let pixels = tex.clone();
                assert(pixels@ =~= tex@);
                let top = half_floor(frame.height as i64 * ONE - h);
                let strip = TextureRect::new((i as i64) * ONE, top, ONE, h, pixels, 1, th);
                strip.draw(frame);
            },
        }
    }

    /// Draws one textured wall strip per screen column, for the rays along
    /// `dirs[i]` (the unit vectors of `column_angles`); columns past the end of
    /// `dirs` or of the frame are left alone. Frame sides are at most
    /// `MAX_SCREEN`, an overflow limit.
    pub fn draw_rays(&self, frame: &mut Canvas, dirs: &Vec<Point>)
        requires
            self.wf(),
            old(frame).wf(),
            old(frame).width <= MAX_SCREEN,
            old(frame).height <= MAX_SCREEN,
            forall|i: int|
                0 <= i < dirs@.len() ==> -ONE <= #[trigger] dirs@[i].x <= ONE && -ONE
                    <= dirs@[i].y <= ONE,
        ensures
            final(frame).wf(),
            final(frame).width == old(frame).width,
            final(frame).height == old(frame).height,
            final(frame).data@ == apply_all(
                old(frame).data@,
                old(frame).width as int,
                old(frame).height as int,
                self.rays_strokes(
                    dirs@,
                    if dirs@.len() < old(frame).width {
                        dirs@.len() as int
                    } else {
                        old(frame).width as int
                    },
                    old(frame).width as int,
                    old(frame).height as int,
                ),
            ),
    {
        let ghost s0 = frame.data@;
        let ghost w = frame.width as int;
        let ghost hh = frame.height as int;
        let n = if dirs.len() < frame.width {
            dirs.len()
        } else {
            frame.width
        };
        let mut i: usize = 0;
        while i < n
            invariant
                self.wf(),
                frame.wf(),
                frame.width == w,
                frame.height == hh,
                w <= MAX_SCREEN,
                hh <= MAX_SCREEN,
                n <= dirs@.len(),
                n <= w,
                i <= n,
                forall|k: int|
                    0 <= k < dirs@.len() ==> -ONE <= #[trigger] dirs@[k].x <= ONE && -ONE
                        <= dirs@[k].y <= ONE,
                frame.data@ == apply_all(s0, w, hh, self.rays_strokes(dirs@, i as int, w, hh)),
            decreases n - i,
        {
            proof {
                lemma_apply_concat(
                    s0,
                    w,
                    hh,
                    self.rays_strokes(dirs@, i as int, w, hh),
                    self.column_strokes(i as int, dirs@[i as int], w, hh),
                );
            }
            self.draw_column(frame, i, dirs[i]);
            i = i + 1;
        }
    }
}

/// The minimap colour of a tile: black floor; blue, green, red, yellow and
/// magenta for tiles 1 to 5; white for any other.
pub open spec fn tile_color_spec(t: u8) -> Rgb {
    if t == 0 {
        Rgb { red: 0, green: 0, blue: 0 }
    } else if t == 1 {
        Rgb { red: 0, green: 0, blue: 255 }
    } else if t == 2 {
        Rgb { red: 0, green: 255, blue: 0 }
    } else if t == 3 {
        Rgb { red: 255, green: 0, blue: 0 }
    } else if t == 4 {
        Rgb { red: 255, green: 255, blue: 0 }
    } else if t == 5 {
        Rgb { red: 255, green: 0, blue: 255 }
    } else {
        Rgb { red: 255, green: 255, blue: 255 }
    }
}

pub fn tile_color(t: u8) -> (r: Rgb)
    ensures
        r == tile_color_spec(t),
{
    match t {
        0 => Rgb { red: 0, green: 0, blue: 0 },
        1 => Rgb { red: 0, green: 0, blue: 255 },
        2 => Rgb { red: 0, green: 255, blue: 0 },
        3 => Rgb { red: 255, green: 0, blue: 0 },
        4 => Rgb { red: 255, green: 255, blue: 0 },
        5 => Rgb { red: 255, green: 0, blue: 255 },
        _ => Rgb { red: 255, green: 255, blue: 255 },
    }
}

impl World {
    /// The minimap box of cell number `k` (row-major).
    pub open spec fn cell_rect(&self, k: int) -> ColorRect {
        let cw = self.map.cell_width;
        let ch = self.map.cell_height;
        ColorRect {
            x: ((k % self.map.columns as int) * cw) as i64,
            y: ((k / self.map.columns as int) * ch) as i64,
            width: cw,
            height: ch,
            color: tile_color_spec(self.map.tiles@[k]),
        }
    }

    /// The strokes of the first `k` minimap cells, row by row.
    pub open spec fn minimap_strokes(&self, k: int, width: int, height: int) -> Seq<Stroke>
        decreases k,
    {
        if k <= 0 {
            Seq::empty()
        } else {
            self.minimap_strokes(k - 1, width, height) + self.cell_rect(k - 1).strokes(width, height)
        }
    }

    /// Draws every map cell as a box of its tile's colour.
    pub fn draw_minimap(&self, frame: &mut Canvas)
        requires
            self.wf(),
            old(frame).wf(),
        ensures
            final(frame).wf(),
            final(frame).width == old(frame).width,
            final(frame).height == old(frame).height,
            final(frame).data@ == apply_all(
                old(frame).data@,
                old(frame).width as int,
                old(frame).height as int,
                self.minimap_strokes(
                    self.map.tiles@.len() as int,
                    old(frame).width as int,
                    old(frame).height as int,
                ),
            ),
    {
        let ghost s0 = frame.data@;
        let ghost w = frame.width as int;
        let ghost h = frame.height as int;
        let n = self.map.tiles.len();
        let cols = self.map.columns;
        let cw = self.map.cell_width;
        let ch = self.map.cell_height;
        let mut k: usize = 0;
        while k < n
            invariant
                self.wf(),
                frame.wf(),
                frame.width == w,
                frame.height == h,
                n == self.map.tiles@.len(),
                n == self.map.columns * self.map.rows,
                cols == self.map.columns,
                cw == self.map.cell_width,
                ch == self.map.cell_height,
                k <= n,
                frame.data@ == apply_all(s0, w, h, self.minimap_strokes(k as int, w, h)),
            decreases n - k,
        {
            assert(cols > 0) by (nonlinear_arith)
                requires
                    k < cols * self.map.rows,
                    cols >= 0,
            ;
            let col = k % cols;
            let row = k / cols;
            proof {
                assert(row < self.map.rows) by (nonlinear_arith)
                    requires
                        row == k / cols,
                        k < cols * self.map.rows,
                        cols > 0,
                ;
                assert((col + 1) * cw <= cols * cw && (row + 1) * ch <= self.map.rows * ch)
                    by (nonlinear_arith)
                    requires
                        col < cols,
                        row < self.map.rows,
                        cw > 0,
                        ch > 0,
                ;
                assert(col * cw + cw <= COORD_LIMIT && row * ch + ch <= COORD_LIMIT)
                    by (nonlinear_arith)
                    requires
                        col < cols,
                        row < self.map.rows,
                        cols * cw <= COORD_LIMIT,
                        self.map.rows * ch <= COORD_LIMIT,
                        cw > 0,
                        ch > 0,
                ;
                assert(0 <= col * cw && 0 <= row * ch && col <= col * cw && row <= row * ch)
                    by (nonlinear_arith)
                    requires
                        cw > 0,
                        ch > 0,
                ;
                lemma_apply_concat(
                    s0,
                    w,
                    h,
                    self.minimap_strokes(k as int, w, h),
                    self.cell_rect(k as int).strokes(w, h),
                );
            }
            let t = self.map.tiles[k];
            let cell = ColorRect::new(col as i64 * cw, row as i64 * ch, cw, ch, tile_color(t));
            assert(cell == self.cell_rect(k as int));
            cell.draw(frame);
            k = k + 1;
        }
    }

    /// The viewpoint's marker: a white box 4 pixels wide centred on it.
    pub open spec fn player_rect(&self) -> ColorRect {
        ColorRect {
            x: (self.x - 2 * ONE) as i64,
            y: (self.y - 2 * ONE) as i64,
            width: (4 * ONE) as i64,
            height: (4 * ONE) as i64,
            color: Rgb { red: 255, green: 255, blue: 255 },
        }
    }

    pub fn draw_player(&self, frame: &mut Canvas)
        requires
            self.wf(),
            old(frame).wf(),
            -COORD_LIMIT + 2 * ONE <= self.x <= COORD_LIMIT - 2 * ONE,
            -COORD_LIMIT + 2 * ONE <= self.y <= COORD_LIMIT - 2 * ONE,
        ensures
            final(frame).wf(),
            final(frame).width == old(frame).width,
            final(frame).height == old(frame).height,
            final(frame).data@ == apply_all(
                old(frame).data@,
                old(frame).width as int,
                old(frame).height as int,
                self.player_rect().strokes(old(frame).width as int, old(frame).height as int),
            ),
    {
        let marker = ColorRect::new(
            self.x - 2 * ONE,
            self.y - 2 * ONE,
            4 * ONE,
            4 * ONE,
            Rgb::new(255, 255, 255),
        );
        marker.draw(frame);
    }

    /// Draws one frame: clears it to black, then draws the wall columns. Frame
    /// sides are at most `MAX_SCREEN`, an overflow limit.
    pub fn draw(&self, frame: &mut Canvas, dirs: &Vec<Point>)
        requires
            self.wf(),
            old(frame).wf(),
            old(frame).width <= MAX_SCREEN,
            old(frame).height <= MAX_SCREEN,
            forall|i: int|
                0 <= i < dirs@.len() ==> -ONE <= #[trigger] dirs@[i].x <= ONE && -ONE
                    <= dirs@[i].y <= ONE,
        ensures
            final(frame).wf(),
            final(frame).width == old(frame).width,
            final(frame).height == old(frame).height,
            final(frame).data@ == apply_all(
                solid(old(frame).data@.len(), Rgb { red: 0, green: 0, blue: 0 }),
                old(frame).width as int,
                old(frame).height as int,
                self.rays_strokes(
                    dirs@,
                    if dirs@.len() < old(frame).width {
                        dirs@.len() as int
                    } else {
                        old(frame).width as int
                    },
                    old(frame).width as int,
                    old(frame).height as int,
                ),
            ),
    {
        frame.clear(Rgb::new(0, 0, 0));
        self.draw_rays(frame, dirs);
    }
}

/// A wall twice as far away is drawn half as tall (rounded down).
pub proof fn lemma_strip_halves(screen_height: int, dist: int)
    requires
        screen_height >= 0,
        dist > 0,
    ensures
        World::strip_height(screen_height, 2 * dist) == World::strip_height(screen_height, dist) / 2,
{
    let n = screen_height * WALL_SCALE * ONE * ONE;
    assert(n >= 0) by (nonlinear_arith)
        requires
            n == screen_height * WALL_SCALE * ONE * ONE,
            screen_height >= 0,
    ;
    lemma_div_denominator(n, dist, 2);
    assert(dist * 2 == 2 * dist);
}

/// The top of the strip drawn for a hit: centred on the screen, rounded down.
pub open spec fn strip_top(screen_height: int, h: int) -> int {
    (screen_height * ONE - h) / 2
}

/// A column whose ray hits a wall draws one strip and nothing else: opaque
/// writes in its own pixel column only, in the whole rows from the strip's top
/// to its bottom (cut to the screen), where the strip is
/// `strip_height(height, distance)` tall and centred vertically. A column whose
/// ray misses draws nothing.
pub proof fn lemma_column_strip(w: World, i: int, dir: Point, width: int, height: int)
    requires
        0 <= i < width,
    ensures
        w.map.cast_spec(Point { x: w.x, y: w.y }, dir) is None ==> w.column_strokes(
            i,
            dir,
            width,
            height,
        ).len() == 0,
        w.map.cast_spec(Point { x: w.x, y: w.y }, dir) matches Some(hit) ==> {
            let h = World::strip_height(height, w.distance(hit));
            let top = strip_top(height, h);
            let ops = w.column_strokes(i, dir, width, height);
            &&& 2 * top <= height * ONE - h <= 2 * top + 1
            &&& forall|n: int|
                0 <= n < ops.len() ==> (#[trigger] ops[n]).x == i * ONE && ops[n].weight is None
                    && clamp_spec(ceil_spec(top), height) * ONE <= ops[n].y < clamp_spec(
                    ceil_spec(top + h),
                    height,
                ) * ONE && ops[n].y % (ONE as int) == 0
        },
{
    lemma_ceil_whole(i);
    lemma_ceil_whole(i + 1);
    assert((i + 1) * ONE == i * ONE + ONE) by (nonlinear_arith);
    match w.map.cast_spec(Point { x: w.x, y: w.y }, dir) {
        None => {},
        Some(hit) => {
            let h = World::strip_height(height, w.distance(hit));
            let top = strip_top(height, h);
            let ops = w.column_strokes(i, dir, width, height);
            let ys = clamp_spec(ceil_spec(top), height);
            let ye = clamp_spec(ceil_spec(top + h), height);
            assert forall|n: int| 0 <= n < ops.len() implies (#[trigger] ops[n]).x == i * ONE
                && ops[n].weight is None && ys * ONE <= ops[n].y < ye * ONE && ops[n].y % (
            ONE as int) == 0 by {
                let rows = ye - ys;
                assert(clamp_spec(ceil_spec(i * ONE), width) == i);
                assert(clamp_spec(ceil_spec(i * ONE + ONE), width) == i + 1);
                let cols: int = 1;
                assert(ops.len() == 0 || (ye > ys && ops.len() == cols * rows));
                assert(cols * rows == rows);
                assert(rows > 0 && n < rows);
                assert(n / rows == 0 && 0 <= n % rows < rows) by (nonlinear_arith)
                    requires
                        0 <= n < rows,
                ;
                let j = ys + n % rows;
                assert(ys * ONE <= j * ONE < ye * ONE && (j * ONE) % (ONE as int) == 0)
                    by (nonlinear_arith)
                    requires
                        ys <= j < ye,
                ;
            }
        },
    }
}

/// Of two strips whose hits lie at distances `d` and `2d`, the farther is half
/// as tall (rounded down).
pub proof fn lemma_far_strip_halves(
    w1: World,
    dir1: Point,
    w2: World,
    dir2: Point,
    screen_height: int,
)
    requires
        screen_height >= 0,
        w1.map.cast_spec(Point { x: w1.x, y: w1.y }, dir1) is Some,
        w2.map.cast_spec(Point { x: w2.x, y: w2.y }, dir2) is Some,
        w1.distance(w1.map.cast_spec(Point { x: w1.x, y: w1.y }, dir1).unwrap()) > 0,
        w2.distance(w2.map.cast_spec(Point { x: w2.x, y: w2.y }, dir2).unwrap()) == 2 * w1.distance(
            w1.map.cast_spec(Point { x: w1.x, y: w1.y }, dir1).unwrap(),
        ),
    ensures
        World::strip_height(
            screen_height,
            w2.distance(w2.map.cast_spec(Point { x: w2.x, y: w2.y }, dir2).unwrap()),
        ) == World::strip_height(
            screen_height,
            w1.distance(w1.map.cast_spec(Point { x: w1.x, y: w1.y }, dir1).unwrap()),
        ) / 2,
{
    lemma_strip_halves(
        screen_height,
        w1.distance(w1.map.cast_spec(Point { x: w1.x, y: w1.y }, dir1).unwrap()),
    );
}

} // verus!

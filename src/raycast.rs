use vstd::prelude::*;

use crate::fixed::{abs_int, in_range, trunc_px, trunc_spec, COORD_LIMIT};
use crate::geo::Point;
use crate::ONE;

verus! {

/// A grid of tiles, row-major: 0 is open floor, any other value a wall. Each
/// cell spans `cell_width × cell_height` fixed-point units of world space.
pub struct GridMap {
    pub columns: usize,
    pub rows: usize,
    pub tiles: Vec<u8>,
    pub cell_width: i64,
    pub cell_height: i64,
}

/// Where a ray stopped: the wall tile, the stepped position, and the face
/// crossed (0 after a step along x, 1 after a step along y).
#[derive(Clone, Copy, Debug, PartialEq, Eq, Structural)]
pub struct RayHit {
    pub tile: u8,
    pub point: Point,
    pub side: u8,
}

/// The state of a grid walk: position, and the distances (in `ONE` units along
/// each axis) to the next grid line.
pub struct Walk {
    pub x: int,
    pub y: int,
    pub tx: int,
    pub ty: int,
}

impl GridMap {
    pub open spec fn wf(&self) -> bool {
        &&& self.tiles@.len() == self.columns * self.rows
        &&& self.cell_width > 0
        &&& self.cell_height > 0
        &&& self.columns * self.cell_width <= COORD_LIMIT
        &&& self.rows * self.cell_height <= COORD_LIMIT
    }

    pub open spec fn extent_x(&self) -> int {
        self.columns * self.cell_width
    }

    pub open spec fn extent_y(&self) -> int {
        self.rows * self.cell_height
    }

    /// Whether the fixed-point position lies on the map.
    pub open spec fn inside(&self, x: int, y: int) -> bool {
        0 <= x < self.extent_x() && 0 <= y < self.extent_y()
    }

    pub open spec fn tile_spec(&self, col: int, row: int) -> u8 {
        self.tiles@[col + row * self.columns]
    }

    /// The tile under a fixed-point position on the map.
    pub open spec fn tile_under(&self, x: int, y: int) -> u8 {
        self.tile_spec(x / (self.cell_width as int), y / (self.cell_height as int))
    }

    /// How many more steps along each axis can stay on the map.
    pub open spec fn room(&self, w: Walk, sx: int, sy: int) -> int {
        let rx = if sx > 0 {
            self.extent_x() - w.x
        } else {
            w.x + ONE
        };
        let ry = if sy > 0 {
            self.extent_y() - w.y
        } else {
            w.y + ONE
        };
        (if rx > 0 {
            rx
        } else {
            0
        }) + (if ry > 0 {
            ry
        } else {
            0
        })
    }

    /// One step of the walk: along x where the next x line is strictly nearer
    /// (`tx / adx < ty / ady`), else along y.
    pub open spec fn advance(w: Walk, adx: int, ady: int, sx: int, sy: int) -> (Walk, u8) {
        if w.tx * ady < w.ty * adx {
            (Walk { x: w.x + sx * ONE, tx: w.tx + ONE, ..w }, 0u8)
        } else {
            (Walk { y: w.y + sy * ONE, ty: w.ty + ONE, ..w }, 1u8)
        }
    }

    /// The grid walk from `w`: the first wall reached, or `None` once the walk
    /// leaves the map.
    pub open spec fn trace(&self, w: Walk, adx: int, ady: int, sx: int, sy: int) -> Option<RayHit>
        decreases self.room(w, sx, sy),
    {
        let (n, side) = Self::advance(w, adx, ady, sx, sy);
        if !self.inside(n.x, n.y) {
            None
        } else if self.tile_under(n.x, n.y) != 0 {
            Some(
                RayHit {
                    tile: self.tile_under(n.x, n.y),
                    point: Point { x: n.x as i64, y: n.y as i64 },
                    side,
                },
            )
        } else if (sx == 1 || sx == -1) && (sy == 1 || sy == -1) {
            self.trace(n, adx, ady, sx, sy)
        } else {
            None
        }
    }

    /// The walk's first state for a ray from `start` along `dir`.
    pub open spec fn start_walk(start: Point, dir: Point) -> Walk {
        let x = start.x as int;
        let y = start.y as int;
        Walk {
            x,
            y,
            tx: if dir.x < 0 {
                x - trunc_spec(x) * ONE
            } else {
                (trunc_spec(x) + 1) * ONE - x
            },
            ty: if dir.y < 0 {
                y - trunc_spec(y) * ONE
            } else {
                (trunc_spec(y) + 1) * ONE - y
            },
        }
    }

    pub open spec fn abs(v: int) -> int {
        if v < 0 {
            -v
        } else {
            v
        }
    }

    pub open spec fn sign(v: int) -> int {
        if v < 0 {
            -1
        } else {
            1
        }
    }

    /// The ray cast from `start` along `dir`.
    pub open spec fn cast_spec(&self, start: Point, dir: Point) -> Option<RayHit> {
        self.trace(
            Self::start_walk(start, dir),
            Self::abs(dir.x as int),
            Self::abs(dir.y as int),
            Self::sign(dir.x as int),
            Self::sign(dir.y as int),
        )
    }
}

impl GridMap {
    /// The tile at column `col`, row `row`.
    pub fn tile_at(&self, col: usize, row: usize) -> (r: u8)
        requires
            self.wf(),
            col < self.columns,
            row < self.rows,
        ensures
            r == self.tile_spec(col as int, row as int),
    {
        proof {
            lemma_cell_index(self.columns as int, self.rows as int, col as int, row as int);
        }
        let len = self.tiles.len();
        assert(col + row * self.columns < len);
        self.tiles[col + row * self.columns]
    }

    /// The cell under a fixed-point position, where it lies on the map.
    pub fn cell_of(&self, x: i64, y: i64) -> (r: Option<(usize, usize)>)
        requires
            self.wf(),
        ensures
            r is Some <==> self.inside(x as int, y as int),
            r matches Some((col, row)) ==> col == x / self.cell_width && row == y
                / self.cell_height && col < self.columns && row < self.rows,
    {
        if x < 0 || y < 0 {
            return None;
        }
        assert(self.columns <= COORD_LIMIT && self.rows <= COORD_LIMIT) by (nonlinear_arith)
            requires
                self.columns * self.cell_width <= COORD_LIMIT,
                self.rows * self.cell_height <= COORD_LIMIT,
                self.cell_width > 0,
                self.cell_height > 0,
        ;
        let ex = self.columns as i64 * self.cell_width;
        let ey = self.rows as i64 * self.cell_height;
        if x >= ex || y >= ey {
            return None;
        }
        let col = x / self.cell_width;
        let row = y / self.cell_height;
        proof {
            lemma_div_below(x as int, self.cell_width as int, self.columns as int);
            lemma_div_below(y as int, self.cell_height as int, self.rows as int);
        }
        Some((col as usize, row as usize))
    }

    /// Casts a ray from `start` along `dir` (each component at most one unit),
    /// stepping one pixel line at a time, and returns the first wall met, or
    /// `None` once the ray leaves the map.
    pub fn ray_hits(&self, start: Point, dir: Point) -> (r: Option<RayHit>)
        requires
            self.wf(),
            in_range(start.x as int),
            in_range(start.y as int),
            -ONE <= dir.x <= ONE,
            -ONE <= dir.y <= ONE,
        ensures
            r == self.cast_spec(start, dir),
    {
        let adx: i128 = if dir.x < 0 {
            -(dir.x as i128)
        } else {
            dir.x as i128
        };
        let ady: i128 = if dir.y < 0 {
            -(dir.y as i128)
        } else {
            dir.y as i128
        };
        let sx: i64 = if dir.x < 0 {
            -1
        } else {
            1
        };
        let sy: i64 = if dir.y < 0 {
            -1
        } else {
            1
        };
        let mut x: i64 = start.x;
        let mut y: i64 = start.y;
        let mut tx: i128 = if dir.x < 0 {
            (x - trunc_px(x) * ONE) as i128
        } else {
            ((trunc_px(x) + 1) * ONE - x) as i128
        };
        let mut ty: i128 = if dir.y < 0 {
            (y - trunc_px(y) * ONE) as i128
        } else {
            ((trunc_px(y) + 1) * ONE - y) as i128
        };
        let ghost tx0 = tx as int;
        let ghost ty0 = ty as int;
        assert(-2 * ONE <= tx0 <= 2 * ONE && -2 * ONE <= ty0 <= 2 * ONE);
        loop
            invariant
                self.wf(),
                adx == Self::abs(dir.x as int),
                ady == Self::abs(dir.y as int),
                sx == Self::sign(dir.x as int),
                sy == Self::sign(dir.y as int),
                0 <= adx <= ONE,
                0 <= ady <= ONE,
                in_range(x as int),
                in_range(y as int),
                in_range(start.x as int),
                in_range(start.y as int),
                -2 * ONE <= tx0 <= 2 * ONE,
                -2 * ONE <= ty0 <= 2 * ONE,
                sx == 1 ==> tx == tx0 + (x - start.x),
                sx == -1 ==> tx == tx0 + (start.x - x),
                sy == 1 ==> ty == ty0 + (y - start.y),
                sy == -1 ==> ty == ty0 + (start.y - y),
                self.trace(Walk { x: x as int, y: y as int, tx: tx as int, ty: ty as int }, adx as int, ady as int, sx as int, sy as int)
                    == self.cast_spec(start, dir),
            decreases self.room(Walk { x: x as int, y: y as int, tx: tx as int, ty: ty as int }, sx as int, sy as int),
        {
            assert(sx == 1 || sx == -1);
            assert(sy == 1 || sy == -1);
            assert(-0x1000_0000_0000 <= tx <= 0x1000_0000_0000);
            assert(-0x1000_0000_0000 <= ty <= 0x1000_0000_0000);
            assert(-0x1000_0000_0000_0000 <= tx * ady <= 0x1000_0000_0000_0000) by (nonlinear_arith)
                requires
                    -0x1000_0000_0000 <= tx <= 0x1000_0000_0000,
                    0 <= ady <= ONE,
            ;
            assert(-0x1000_0000_0000_0000 <= ty * adx <= 0x1000_0000_0000_0000) by (nonlinear_arith)
                requires
                    -0x1000_0000_0000 <= ty <= 0x1000_0000_0000,
                    0 <= adx <= ONE,
            ;
            let side: u8;
            if tx * ady < ty * adx {
                x = x + sx * ONE;
                tx = tx + ONE as i128;
                side = 0;
            } else {
                y = y + sy * ONE;
                ty = ty + ONE as i128;
                side = 1;
            }
            match self.cell_of(x, y) {
                None => {
                    return None;
                },
                Some((col, row)) => {
                    let t = self.tile_at(col, row);
                    if t != 0 {
                        return Some(RayHit { tile: t, point: Point { x, y }, side });
                    }
                },
            }
        }
    }
}

pub proof fn lemma_cell_index(columns: int, rows: int, col: int, row: int)
    requires
        0 <= col < columns,
        0 <= row < rows,
    ensures
        0 <= row * columns <= col + row * columns < columns * rows,
{
    assert(0 <= row * columns <= col + row * columns < columns * rows) by (nonlinear_arith)
        requires
            0 <= col < columns,
            0 <= row < rows,
    ;
}

pub proof fn lemma_div_below(x: int, d: int, n: int)
    requires
        0 <= x < n * d,
        d > 0,
    ensures
        0 <= x / d < n,
{
    assert(0 <= x / d < n) by (nonlinear_arith)
        requires
            0 <= x < n * d,
            d > 0,
    ;
}

/// Every step of a walk over a map with no wall comes back empty.
pub proof fn lemma_trace_open(map: GridMap, w: Walk, adx: int, ady: int, sx: int, sy: int)
    requires
        map.wf(),
        forall|i: int| 0 <= i < map.tiles@.len() ==> map.tiles@[i] == 0,
    ensures
        map.trace(w, adx, ady, sx, sy) is None,
    decreases map.room(w, sx, sy),
{
    let (n, side) = GridMap::advance(w, adx, ady, sx, sy);
    if map.inside(n.x, n.y) {
        let col = n.x / (map.cell_width as int);
        let row = n.y / (map.cell_height as int);
        lemma_div_below(n.x, map.cell_width as int, map.columns as int);
        lemma_div_below(n.y, map.cell_height as int, map.rows as int);
        lemma_cell_index(map.columns as int, map.rows as int, col, row);
        if (sx == 1 || sx == -1) && (sy == 1 || sy == -1) {
            lemma_trace_open(map, n, adx, ady, sx, sy);
        }
    }
}

/// On a map with no wall tile, every ray leaves the map without a hit.
pub proof fn lemma_open_map_no_hit(map: GridMap, start: Point, dir: Point)
    requires
        map.wf(),
        forall|i: int| 0 <= i < map.tiles@.len() ==> map.tiles@[i] == 0,
    ensures
        map.cast_spec(start, dir) is None,
{
    lemma_trace_open(
        map,
        GridMap::start_walk(start, dir),
        GridMap::abs(dir.x as int),
        GridMap::abs(dir.y as int),
        GridMap::sign(dir.x as int),
        GridMap::sign(dir.y as int),
    );
}

/// When the distances to the next x line and the next y line are exactly equal,
/// the walk steps along y; so where that cell is a wall, the hit is on side 1.
pub proof fn lemma_tie_steps_y(map: GridMap, start: Point, dir: Point)
    requires
        map.wf(),
        ({
            let w = GridMap::start_walk(start, dir);
            w.tx * GridMap::abs(dir.y as int) == w.ty * GridMap::abs(dir.x as int)
        }),
    ensures
        ({
            let w = GridMap::start_walk(start, dir);
            let ny = w.y + GridMap::sign(dir.y as int) * ONE;
            &&& GridMap::advance(
                w,
                GridMap::abs(dir.x as int),
                GridMap::abs(dir.y as int),
                GridMap::sign(dir.x as int),
                GridMap::sign(dir.y as int),
            ).1 == 1
            &&& (map.inside(w.x, ny) && map.tile_under(w.x, ny) != 0) ==> map.cast_spec(
                start,
                dir,
            ) == Some(
                RayHit {
                    tile: map.tile_under(w.x, ny),
                    point: Point { x: start.x, y: ny as i64 },
                    side: 1,
                },
            )
        }),
{
}

/// A hit is a wall on the map, reached after at least one whole step: the
/// stepped position lies at least one pixel along x or along y from the start,
/// on the side the ray points to.
pub proof fn lemma_trace_hit(map: GridMap, w: Walk, adx: int, ady: int, sx: int, sy: int)
    requires
        map.wf(),
        sx == 1 || sx == -1,
        sy == 1 || sy == -1,
    ensures
        map.trace(w, adx, ady, sx, sy) matches Some(h) ==> {
            &&& h.tile != 0
            &&& map.inside(h.point.x as int, h.point.y as int)
            &&& h.tile == map.tile_under(h.point.x as int, h.point.y as int)
            &&& (sx == 1 ==> h.point.x >= w.x)
            &&& (sx == -1 ==> h.point.x <= w.x)
            &&& (sy == 1 ==> h.point.y >= w.y)
            &&& (sy == -1 ==> h.point.y <= w.y)
            &&& (abs_int(h.point.x - w.x) >= ONE || abs_int(h.point.y - w.y) >= ONE)
        },
    decreases map.room(w, sx, sy),
{
    let (n, side) = GridMap::advance(w, adx, ady, sx, sy);
    if map.inside(n.x, n.y) && map.tile_under(n.x, n.y) == 0 {
        lemma_trace_hit(map, n, adx, ady, sx, sy);
    }
}

/// The cell under a position on the map is one of the map's tiles.
pub proof fn lemma_tile_under_in(map: GridMap, x: int, y: int)
    requires
        map.wf(),
        map.inside(x, y),
    ensures
        ({
            let i = x / (map.cell_width as int) + (y / (map.cell_height as int)) * map.columns;
            0 <= i < map.tiles@.len() && map.tile_under(x, y) == map.tiles@[i]
        }),
{
    lemma_div_below(x, map.cell_width as int, map.columns as int);
    lemma_div_below(y, map.cell_height as int, map.rows as int);
    lemma_cell_index(
        map.columns as int,
        map.rows as int,
        x / (map.cell_width as int),
        y / (map.cell_height as int),
    );
}

} // verus!

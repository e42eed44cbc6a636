//! The tile grid of a level and the choice of tiles that a viewport shows.
use vstd::prelude::*;
use crate::geom::{Rect, Vec2};

verus! {

/// One cell of the grid.
#[derive(Debug)]
pub struct Tile {
    /// World rectangle covered by the tile.
    pub shape: Rect,
    /// Name of the sprite in the atlas.
    pub texture: String,
    /// Rotation in degrees.
    pub rotation: i64,
    /// Draw depth.
    pub z: i8,
    /// Whether the tile can be travelled over (kept, not used by movement).
    pub travel: bool,
}

/// What a tile holds, with its texture name as characters.
pub struct TileView {
    pub shape: Rect,
    pub texture: Seq<char>,
    pub rotation: i64,
    pub z: i8,
    pub travel: bool,
}

impl View for Tile {
    type V = TileView;

    open spec fn view(&self) -> TileView {
        TileView {
            shape: self.shape,
            texture: self.texture@,
            rotation: self.rotation,
            z: self.z,
            travel: self.travel,
        }
    }
}

impl Tile {
    pub fn new(position: Vec2, tile_size: Vec2, rotation: i64, texture: String, z: i8, travel: bool) -> (r: Tile)
        ensures
            r.shape == (Rect { pos: position, size: tile_size }),
            r.texture == texture,
            r.rotation == rotation,
            r.z == z,
            r.travel == travel,
    {
        let shape = Rect::new(position, tile_size);
        Tile { shape, texture, rotation, z, travel }
    }
}

/// A level's grid of tiles, stored row by row.
#[derive(Debug)]
pub struct TileMap {
    pub tiles: Vec<Tile>,
    /// Number of columns (`x`) and rows (`y`).
    pub size: Vec2,
    /// Pixels by which neighbouring tiles overlap.
    pub overlap: Vec2,
    pub tile_size: Vec2,
}

/// The mathematical content of a map.
pub struct TileMapView {
    pub tiles: Seq<TileView>,
    pub size: Vec2,
    pub overlap: Vec2,
    pub tile_size: Vec2,
}

impl View for TileMap {
    type V = TileMapView;

    open spec fn view(&self) -> TileMapView {
        TileMapView {
            tiles: self.tiles@.map_values(|t: Tile| t@),
            size: self.size,
            overlap: self.overlap,
            tile_size: self.tile_size,
        }
    }
}

/// Euclidean division; for a positive divisor it rounds down.
pub open spec fn floor_div(a: int, b: int) -> int {
    a / b
}

/// Division rounding up, for a positive divisor.
pub open spec fn ceil_div(a: int, b: int) -> int {
    if a % b == 0 {
        a / b
    } else {
        a / b + 1
    }
}

pub open spec fn clamp0(a: int) -> int {
    if a < 0 {
        0
    } else {
        a
    }
}

pub open spec fn min_int(a: int, b: int) -> int {
    if a < b {
        a
    } else {
        b
    }
}

/// First cell index on one axis that a view starting at `pos` reaches;
/// a view that starts before the grid starts at cell 0.
pub open spec fn axis_start(pos: int, stride: int) -> int {
    if stride <= 0 {
        0
    } else {
        clamp0(floor_div(pos, stride))
    }
}

/// One past the last cell index on one axis that a view of length `len`
/// reaches: the cells that the view spans plus one, and never past the grid.
pub open spec fn axis_end(pos: int, len: int, stride: int, count: int) -> int {
    if stride <= 0 {
        0
    } else {
        min_int(count, axis_start(pos, stride) + clamp0(ceil_div(len, stride)) + 1)
    }
}

/// A rectangle of grid cells: columns `col_start..col_end`, rows `row_start..row_end`.
#[derive(Clone, Copy, Debug, PartialEq, Eq, Structural)]
pub struct TileRange {
    pub col_start: i64,
    pub col_end: i64,
    pub row_start: i64,
    pub row_end: i64,
}

impl TileRange {
    pub open spec fn width(self) -> int {
        clamp0(self.col_end - self.col_start)
    }

    pub open spec fn height(self) -> int {
        clamp0(self.row_end - self.row_start)
    }
}

/// The cells of the grid that the view `view` shows.
pub open spec fn visible_range_spec(m: TileMapView, view: Rect) -> TileRange {
    let sx = m.tile_size.x - m.overlap.x;
    let sy = m.tile_size.y - m.overlap.y;
    TileRange {
        col_start: axis_start(view.pos.x as int, sx) as i64,
        col_end: axis_end(view.pos.x as int, view.size.x as int, sx, m.size.x as int) as i64,
        row_start: axis_start(view.pos.y as int, sy) as i64,
        row_end: axis_end(view.pos.y as int, view.size.y as int, sy, m.size.y as int) as i64,
    }
}

/// Row-major index of cell `(row, col)` in a grid of `cols` columns.
pub open spec fn cell_index(row: int, col: int, cols: int) -> int {
    row * cols + col
}

/// The indices of the cells of `r`, row by row, each row from left to right.
pub open spec fn range_indices(r: TileRange, cols: int) -> Seq<int> {
    Seq::new(
        (r.width() * r.height()) as nat,
        |k: int| cell_index(r.row_start + k / r.width(), r.col_start + k % r.width(), cols),
    )
}

/// The row-major indices of the tiles that `view` shows over `m`.
pub open spec fn visible_indices_spec(m: TileMapView, view: Rect) -> Seq<int> {
    range_indices(visible_range_spec(m, view), m.size.x as int)
}

/// What a map's grid needs to be indexed: counts that are not negative and one
/// tile for each cell.
pub open spec fn map_wf(m: TileMapView) -> bool {
    &&& 0 <= m.size.x <= i32::MAX
    &&& 0 <= m.size.y <= i32::MAX
    &&& i32::MIN <= m.overlap.x <= i32::MAX
    &&& i32::MIN <= m.overlap.y <= i32::MAX
    &&& i32::MIN <= m.tile_size.x <= i32::MAX
    &&& i32::MIN <= m.tile_size.y <= i32::MAX
    &&& m.tiles.len() == m.size.x * m.size.y
}

/// `view` lies inside the grid of `m` and covers some area.
pub open spec fn view_inside_grid(m: TileMapView, view: Rect) -> bool {
    let sx = m.tile_size.x - m.overlap.x;
    let sy = m.tile_size.y - m.overlap.y;
    &&& sx > 0
    &&& sy > 0
    &&& 0 <= view.pos.x
    &&& 0 <= view.pos.y
    &&& 0 < view.size.x
    &&& 0 < view.size.y
    &&& view.pos.x + view.size.x <= m.size.x * sx
    &&& view.pos.y + view.size.y <= m.size.y * sy
}

proof fn lemma_axis_bounds(pos: int, len: int, stride: int, count: int)
    requires
        i64::MIN <= pos <= i64::MAX,
        0 <= count,
    ensures
        0 <= axis_start(pos, stride) <= i64::MAX,
        axis_end(pos, len, stride, count) <= count,
        stride > 0 && 0 <= pos < count * stride ==> axis_start(pos, stride) < axis_end(
            pos,
            len,
            stride,
            count,
        ),
{
    if stride > 0 {
        vstd::arithmetic::div_mod::lemma_fundamental_div_mod(pos, stride);
        let q = pos / stride;
        let r = pos % stride;
        assert(q <= i64::MAX) by (nonlinear_arith)
            requires
                pos == stride * q + r,
                0 <= r < stride,
                pos <= i64::MAX,
                stride >= 1,
        ;
        if 0 <= pos < count * stride {
            assert(q < count) by (nonlinear_arith)
                requires
                    pos == stride * q + r,
                    0 <= r,
                    pos < count * stride,
                    stride >= 1,
            ;
        }
    }
}

/// Culling never leaves the grid: wherever the view stands (also partly
/// above or left of the origin), the chosen cells lie within the grid's
/// columns and rows, so every index is neither negative nor past the last
/// tile; and a view that lies inside the grid shows at least one cell.
pub proof fn lemma_culling_bounds(m: TileMapView, view: Rect)
    requires
        map_wf(m),
    ensures
        0 <= visible_range_spec(m, view).col_start,
        visible_range_spec(m, view).col_end <= m.size.x,
        0 <= visible_range_spec(m, view).row_start,
        visible_range_spec(m, view).row_end <= m.size.y,
        forall|k: int|
            0 <= k < visible_indices_spec(m, view).len() ==> 0 <= #[trigger] visible_indices_spec(
                m,
                view,
            )[k] < m.tiles.len(),
        view_inside_grid(m, view) ==> visible_range_spec(m, view).width() > 0
            && visible_range_spec(m, view).height() > 0,
{
    let sx = m.tile_size.x - m.overlap.x;
    let sy = m.tile_size.y - m.overlap.y;
    lemma_axis_bounds(view.pos.x as int, view.size.x as int, sx, m.size.x as int);
    lemma_axis_bounds(view.pos.y as int, view.size.y as int, sy, m.size.y as int);
    let r = visible_range_spec(m, view);
    let w = r.width();
    let h = r.height();
    let cols = m.size.x as int;
    let rows = m.size.y as int;
    assert forall|k: int| 0 <= k < visible_indices_spec(m, view).len() implies 0
        <= #[trigger] visible_indices_spec(m, view)[k] < m.tiles.len() by {
        assert(k < w * h);
        assert(w > 0) by (nonlinear_arith)
            requires
                0 <= k < w * h,
                h >= 0,
        ;
        vstd::arithmetic::div_mod::lemma_fundamental_div_mod(k, w);
        let q = k / w;
        let c = k % w;
        assert(0 <= q < h) by (nonlinear_arith)
            requires
                k == w * q + c,
                0 <= c < w,
                0 <= k < w * h,
        ;
        let row = r.row_start + q;
        let col = r.col_start + c;
        assert(0 <= row < rows && 0 <= col < cols);
        assert(0 <= row * cols + col < rows * cols) by (nonlinear_arith)
            requires
                0 <= row < rows,
                0 <= col < cols,
        ;
        assert(m.tiles.len() == rows * cols) by (nonlinear_arith)
            requires
                m.tiles.len() == cols * rows,
        ;
    }
}

/// A sprite for the renderer: the atlas entry `texture` drawn over `shape`,
/// rotated by `rotation` degrees, at depth `z`.
#[derive(Debug)]
pub struct SpriteDraw {
    pub shape: Rect,
    pub texture: String,
    pub rotation: i64,
    pub z: i8,
}

/// Quotient and remainder of Euclidean division by a positive divisor.
fn div_rem_floor(a: i64, b: i64) -> (r: (i64, i64))
    requires
        b > 0,
    ensures
        r.0 == a as int / b as int,
        r.1 == a as int % b as int,
{
    proof {
        vstd::arithmetic::div_mod::lemma_fundamental_div_mod(a as int, b as int);
        let q = a as int / b as int;
        let m = a as int % b as int;
        assert(i64::MIN <= q <= i64::MAX) by (nonlinear_arith)
            requires
                a as int == b * q + m,
                0 <= m < b,
                i64::MIN <= a <= i64::MAX,
                b >= 1,
        ;
    }
    let q = match a.checked_div_euclid(b) {
        Some(q) => q,
        None => 0,
    };
    let m = match a.checked_rem_euclid(b) {
        Some(m) => m,
        None => 0,
    };
    (q, m)
}

/// First cell of an axis reached by a view starting at `pos`.
fn start_cell(pos: i64, stride: i64) -> (r: i64)
    ensures
        r == axis_start(pos as int, stride as int),
        r >= 0,
{
    if stride <= 0 {
        return 0;
    }
    let (q, _) = div_rem_floor(pos, stride);
    if q < 0 {
        0
    } else {
        q
    }
}

/// One past the last cell of an axis reached by a view.
fn end_cell(pos: i64, len: i64, stride: i64, count: i64) -> (r: i64)
    requires
        count >= 0,
    ensures
        r == axis_end(pos as int, len as int, stride as int, count as int),
        r <= count,
{
    if stride <= 0 {
        return 0;
    }
    let start = start_cell(pos, stride);
    let (q, rem) = div_rem_floor(len, stride);
    proof {
        vstd::arithmetic::div_mod::lemma_fundamental_div_mod(len as int, stride as int);
        if rem > 0 {
            assert(q < i64::MAX) by (nonlinear_arith)
                requires
                    len <= i64::MAX,
                    stride >= 2,
                    len as int == stride * q + rem,
                    0 <= rem < stride,
            ;
        }
    }
    let c = if rem == 0 {
        q
    } else {
        q + 1
    };
    let span = if c < 0 {
        0
    } else {
        c
    };
    if start >= count {
        count
    } else if span >= count - start - 1 {
        count
    } else {
        start + span + 1
    }
}

impl TileMap {
    /// An empty map: no tiles, every size zero.
    pub fn new() -> (r: TileMap)
        ensures
            r@.tiles.len() == 0,
            r.size == (Vec2 { x: 0, y: 0 }),
            r.overlap == (Vec2 { x: 0, y: 0 }),
            r.tile_size == (Vec2 { x: 0, y: 0 }),
            map_wf(r@),
    {
        TileMap {
            tiles: Vec::new(),
            size: Vec2::new(0, 0),
            overlap: Vec2::new(0, 0),
            tile_size: Vec2::new(0, 0),
        }
    }

    /// The rectangle of cells that `view` shows, clamped to the grid.
    pub fn visible_range(&self, view: &Rect) -> (r: TileRange)
        requires
            map_wf(self@),
        ensures
            r == visible_range_spec(self@, *view),
            0 <= r.col_start,
            r.col_end <= self.size.x,
            0 <= r.row_start,
            r.row_end <= self.size.y,
    {
        let sx = self.tile_size.x - self.overlap.x;
        let sy = self.tile_size.y - self.overlap.y;
        TileRange {
            col_start: start_cell(view.pos.x, sx),
            col_end: end_cell(view.pos.x, view.size.x, sx, self.size.x),
            row_start: start_cell(view.pos.y, sy),
            row_end: end_cell(view.pos.y, view.size.y, sy, self.size.y),
        }
    }

    /// Row-major indices (`row * columns + column`) of the tiles that `view`
    /// shows, row by row and each row from left to right.
    pub fn visible_tiles(&self, view: &Rect) -> (r: Vec<usize>)
        requires
            map_wf(self@),
        ensures
            r@.len() == visible_indices_spec(self@, *view).len(),
            forall|k: int|
                0 <= k < r@.len() ==> r@[k] as int == #[trigger] visible_indices_spec(self@, *view)[k],
            forall|k: int| 0 <= k < r@.len() ==> #[trigger] r@[k] < self@.tiles.len(),
    {
        let range = self.visible_range(view);
        let cols = self.size.x;
        let rs = range.row_start;
        let cs = range.col_start;
        let w: i64 = if range.col_end > cs {
            range.col_end - cs
        } else {
            0
        };
        assert(w == range.width());
        let mut out: Vec<usize> = Vec::new();
        let mut row: i64 = rs;
        while row < range.row_end
            invariant
                map_wf(self@),
                range == visible_range_spec(self@, *view),
                cols == self.size.x,
                rs == range.row_start,
                cs == range.col_start,
                w == range.width(),
                0 <= rs <= row,
                0 <= cs,
                range.col_end <= cols,
                range.row_end <= self.size.y,
                row <= range.row_end || row == rs,
                out@.len() == (row - rs) * w,
                forall|k: int|
                    0 <= k < out@.len() ==> #[trigger] out@[k] as int == cell_index(
                        rs + k / (w as int),
                        cs + k % (w as int),
                        cols as int,
                    ),
                forall|k: int| 0 <= k < out@.len() ==> #[trigger] out@[k] < self@.tiles.len(),
            decreases range.row_end - row,
        {
            let mut col: i64 = cs;
            while col < range.col_end
                invariant
                    map_wf(self@),
                    range == visible_range_spec(self@, *view),
                    cols == self.size.x,
                    rs == range.row_start,
                    cs == range.col_start,
                    w == range.width(),
                    0 <= rs <= row < range.row_end,
                    0 <= cs <= col,
                    range.col_end <= cols,
                    range.row_end <= self.size.y,
                    col <= range.col_end || col == cs,
                    out@.len() == (row - rs) * w + (col - cs),
                    forall|k: int|
                        0 <= k < out@.len() ==> #[trigger] out@[k] as int == cell_index(
                            rs + k / (w as int),
                            cs + k % (w as int),
                            cols as int,
                        ),
                    forall|k: int| 0 <= k < out@.len() ==> #[trigger] out@[k] < self@.tiles.len(),
                decreases range.col_end - col,
            {
                proof {
                    let rows = self.size.y as int;
                    assert(row * cols + col < rows * cols) by (nonlinear_arith)
                        requires
                            0 <= row < rows,
                            0 <= col < cols,
                    ;
                    assert(row * cols >= 0) by (nonlinear_arith)
                        requires
                            0 <= row,
                            0 <= cols,
                    ;
                    assert(rows * cols <= 0x7fff_ffff * 0x7fff_ffff) by (nonlinear_arith)
                        requires
                            0 <= rows <= 0x7fff_ffff,
                            0 <= cols <= 0x7fff_ffff,
                    ;
                    assert(self@.tiles.len() == rows * cols) by (nonlinear_arith)
                        requires
                            self@.tiles.len() == cols * rows,
                    ;
                    let k = (row - rs) * w + (col - cs);
                    vstd::arithmetic::div_mod::lemma_fundamental_div_mod_converse(
                        k,
                        w as int,
                        row - rs,
                        col - cs,
                    );
                }
                let idx = row * cols + col;
                let n = self.tiles.len();
                assert(idx < n);
                let ghost k = out@.len() as int;
                out.push(idx as usize);
                assert(k / (w as int) == row - rs && k % (w as int) == col - cs);
                col = col + 1;
            }
            proof {
                assert((row - rs) * w + w == (row + 1 - rs) * w) by (nonlinear_arith);
            }
            row = row + 1;
        }
        proof {
            let v = visible_indices_spec(self@, *view);
            assert(out@.len() == v.len()) by (nonlinear_arith)
                requires
                    out@.len() == (row - rs) * w,
                    v.len() == (w * range.height()) as nat,
                    range.height() == (if range.row_end - rs < 0 { 0 } else { range.row_end - rs }),
                    row == range.row_end || (row == rs && range.row_end < rs),
                    w >= 0,
            ;
        }
        out
    }

    /// Draw commands for the tiles that `view` shows, in the order of
    /// `visible_tiles`, each with the tile's rectangle, texture, rotation and depth.
    pub fn draw_map(&self, view: &Rect) -> (r: Vec<SpriteDraw>)
        requires
            map_wf(self@),
        ensures
            r@.len() == visible_indices_spec(self@, *view).len(),
            forall|k: int|
                0 <= k < r@.len() ==> {
                    let t = self@.tiles[#[trigger] visible_indices_spec(self@, *view)[k]];
                    &&& r@[k].shape == t.shape
                    &&& r@[k].texture@ == t.texture
                    &&& r@[k].rotation == t.rotation
                    &&& r@[k].z == t.z
                },
    {
        let idx = self.visible_tiles(view);
        let mut out: Vec<SpriteDraw> = Vec::new();
        let mut i: usize = 0;
        while i < idx.len()
            invariant
                map_wf(self@),
                i <= idx@.len(),
                out@.len() == i,
                idx@.len() == visible_indices_spec(self@, *view).len(),
                forall|k: int|
                    0 <= k < idx@.len() ==> idx@[k] as int == #[trigger] visible_indices_spec(
                        self@,
                        *view,
                    )[k],
                forall|k: int| 0 <= k < idx@.len() ==> #[trigger] idx@[k] < self@.tiles.len(),
                forall|k: int|
                    0 <= k < i ==> {
                        let t = self@.tiles[#[trigger] visible_indices_spec(self@, *view)[k]];
                        &&& out@[k].shape == t.shape
                        &&& out@[k].texture@ == t.texture
                        &&& out@[k].rotation == t.rotation
                        &&& out@[k].z == t.z
                    },
            decreases idx@.len() - i,
        {
            let j = idx[i];
            assert(idx@[i as int] < self@.tiles.len());
            let tile = &self.tiles[j];
            out.push(
                SpriteDraw {
                    shape: tile.shape,
                    texture: tile.texture.clone(),
                    rotation: tile.rotation,
                    z: tile.z,
                },
            );
            i = i + 1;
        }
        out
    }
}

} // verus!

//! Static collision surfaces: rectangular grids of tiles, each cell solid or not.

use crate::rect::{floor_div, floor_div_i64, lemma_floor_div_bounds, IntRect};
use vstd::prelude::*;

verus! {

/// The mathematical model of a tile grid. Cell `i` sits in column `i % width` of row
/// `i / width`; the top-left cell has its corner at `(x, y)`.
pub struct TileGrid {
    pub x: int,
    pub y: int,
    pub tile_size: int,
    pub width: int,
    pub tiles: Seq<u16>,
    pub solid: Seq<bool>,
}

impl TileGrid {
    /// The grid has cells of positive size in complete rows, each with a solidity flag.
    pub open spec fn wf(self) -> bool {
        &&& self.width > 0
        &&& self.tile_size > 0
        &&& self.tiles.len() == self.solid.len()
        &&& self.solid.len() % (self.width as nat) == 0
    }

    /// The number of rows.
    pub open spec fn height(self) -> int {
        self.solid.len() as int / self.width
    }

    /// The world x of the left edge of cell `i`.
    pub open spec fn cell_x(self, i: int) -> int {
        self.x + (i % self.width) * self.tile_size
    }

    /// The world y of the top edge of cell `i`.
    pub open spec fn cell_y(self, i: int) -> int {
        self.y + (i / self.width) * self.tile_size
    }

    /// The rectangle `r` overlaps the square that cell `i` occupies.
    pub open spec fn cell_overlaps(self, i: int, r: IntRect) -> bool {
        r.overlaps_box(self.cell_x(i), self.cell_y(i), self.tile_size, self.tile_size)
    }

    /// Some solid cell of the grid overlaps `r`. What lies beyond the grid is not solid.
    pub open spec fn collides(self, r: IntRect) -> bool {
        exists|i: int| 0 <= i < self.solid.len() && self.solid[i] && #[trigger] self.cell_overlaps(i, r)
    }

    /// The width of the whole grid in world units.
    pub open spec fn extent_x(self) -> int {
        self.width * self.tile_size
    }

    /// The height of the whole grid in world units.
    pub open spec fn extent_y(self) -> int {
        self.height() * self.tile_size
    }

    /// The extents of the grid fit the machine integer of a rectangle.
    pub open spec fn bounded(self) -> bool {
        self.extent_x() <= i32::MAX && self.extent_y() <= i32::MAX
    }

    /// The rectangle that the grid covers, where its extents fit one.
    pub open spec fn bounds(self) -> IntRect
        recommends
            self.bounded(),
    {
        IntRect {
            x: self.x as i32,
            y: self.y as i32,
            w: self.extent_x() as i32,
            h: self.extent_y() as i32,
        }
    }

    /// The first and last column that `r` overlaps, before clamping to the grid.
    pub open spec fn column_span(self, r: IntRect) -> (int, int) {
        (floor_div(r.x - self.x, self.tile_size), floor_div(r.right() - 1 - self.x, self.tile_size))
    }

    /// The first and last row that `r` overlaps, before clamping to the grid.
    pub open spec fn row_span(self, r: IntRect) -> (int, int) {
        (floor_div(r.y - self.y, self.tile_size), floor_div(r.bottom() - 1 - self.y, self.tile_size))
    }

    /// The flag of the cell in column `col` of row `row`.
    pub open spec fn solid_at(self, col: int, row: int) -> bool {
        self.solid[row * self.width + col]
    }
}

/// The part of the span `(lo, hi)` that lies within `0 .. limit`.
pub open spec fn clamped(span: (int, int), limit: int) -> (int, int) {
    (
        if span.0 < 0 {
            0
        } else {
            span.0
        },
        if span.1 >= limit {
            limit - 1
        } else {
            span.1
        },
    )
}

/// A cell overlaps `r` exactly when its column and its row lie within the spans of `r`.
pub proof fn lemma_cell_overlaps_iff_in_span(g: TileGrid, i: int, r: IntRect)
    requires
        g.wf(),
    ensures
        g.cell_overlaps(i, r) <==> {
            &&& g.column_span(r).0 <= i % g.width <= g.column_span(r).1
            &&& g.row_span(r).0 <= i / g.width <= g.row_span(r).1
        },
{
    let col = i % g.width;
    let row = i / g.width;
    lemma_floor_div_bounds(r.x - g.x, g.tile_size, col);
    lemma_floor_div_bounds(r.right() - 1 - g.x, g.tile_size, col);
    lemma_floor_div_bounds(r.y - g.y, g.tile_size, row);
    lemma_floor_div_bounds(r.bottom() - 1 - g.y, g.tile_size, row);
    assert((col + 1) * g.tile_size == col * g.tile_size + g.tile_size) by (nonlinear_arith);
    assert((row + 1) * g.tile_size == row * g.tile_size + g.tile_size) by (nonlinear_arith);
}

/// In a grid of `width` columns, the cell in column `col` of row `row` has index
/// `row * width + col`, and that index is within the grid.
pub proof fn lemma_cell_index(g: TileGrid, col: int, row: int)
    requires
        g.wf(),
        0 <= col < g.width,
        0 <= row < g.height(),
    ensures
        0 <= row * g.width + col < g.solid.len(),
        (row * g.width + col) % g.width == col,
        (row * g.width + col) / g.width == row,
{
    let len = g.solid.len() as int;
    vstd::arithmetic::div_mod::lemma_fundamental_div_mod(len, g.width);
    assert(len == g.width * g.height());
    assert(row * g.width + col < g.width * g.height()) by (nonlinear_arith)
        requires
            0 <= col < g.width,
            0 <= row < g.height(),
    ;
    assert(0 <= row * g.width) by (nonlinear_arith)
        requires
            0 <= row,
            0 < g.width,
    ;
    assert(row * g.width + col == g.width * row + col) by (nonlinear_arith);
    vstd::arithmetic::div_mod::lemma_fundamental_div_mod_converse(
        row * g.width + col,
        g.width,
        row,
        col,
    );
}

/// A grid has complete rows: as many cells as its height times its width.
pub proof fn lemma_rows(g: TileGrid)
    requires
        g.wf(),
    ensures
        g.height() >= 0,
        g.height() * g.width == g.solid.len(),
{
    vstd::arithmetic::div_mod::lemma_fundamental_div_mod(g.solid.len() as int, g.width);
    assert(g.width * g.height() == g.height() * g.width) by (nonlinear_arith);
    assert(g.height() >= 0) by (nonlinear_arith)
        requires
            g.height() * g.width == g.solid.len(),
            g.width > 0,
    ;
}

/// Every cell index splits into a column and a row within the grid.
pub proof fn lemma_index_cell(g: TileGrid, i: int)
    requires
        g.wf(),
        0 <= i < g.solid.len(),
    ensures
        0 <= i % g.width < g.width,
        0 <= i / g.width < g.height(),
        i == (i / g.width) * g.width + i % g.width,
{
    let len = g.solid.len() as int;
    vstd::arithmetic::div_mod::lemma_fundamental_div_mod(len, g.width);
    vstd::arithmetic::div_mod::lemma_fundamental_div_mod(i, g.width);
    vstd::arithmetic::div_mod::lemma_mod_bound(i, g.width);
    let row = i / g.width;
    assert(g.width * row == row * g.width) by (nonlinear_arith);
    assert(0 <= row) by (nonlinear_arith)
        requires
            g.width * row + i % g.width == i,
            0 <= i,
            0 <= i % g.width < g.width,
    ;
    assert(row < g.height()) by (nonlinear_arith)
        requires
            g.width * row + i % g.width == i,
            i < g.width * g.height(),
            0 <= i % g.width,
            g.width > 0,
    ;
}

/// Every cell lies within the extents of its grid.
pub proof fn lemma_cell_within_extents(g: TileGrid, i: int)
    requires
        g.wf(),
        0 <= i < g.solid.len(),
    ensures
        g.x <= g.cell_x(i),
        g.cell_x(i) + g.tile_size <= g.x + g.extent_x(),
        g.y <= g.cell_y(i),
        g.cell_y(i) + g.tile_size <= g.y + g.extent_y(),
{
    lemma_index_cell(g, i);
    let col = i % g.width;
    let row = i / g.width;
    let ts = g.tile_size;
    assert(0 <= col * ts) by (nonlinear_arith)
        requires
            0 <= col,
            0 < ts,
    ;
    assert(col * ts + ts <= g.width * ts) by (nonlinear_arith)
        requires
            col + 1 <= g.width,
            0 < ts,
    ;
    assert(0 <= row * ts) by (nonlinear_arith)
        requires
            0 <= row,
            0 < ts,
    ;
    assert(row * ts + ts <= g.height() * ts) by (nonlinear_arith)
        requires
            row + 1 <= g.height(),
            0 < ts,
    ;
}

/// Why a grid was turned down at construction.
#[derive(Clone, Copy, Debug, PartialEq, Eq, Structural)]
pub enum GridError {
    /// The grid has no columns.
    ZeroWidth,
    /// The tiles have no extent.
    ZeroTileSize,
    /// There is not one solidity flag for each tile.
    LengthMismatch,
    /// The last row is incomplete.
    RaggedRows,
}

/// A rectangular grid of tiles anchored at an integer origin. Its shape is fixed for its
/// lifetime; the identity of a tile may change.
pub struct TileBody {
    x: i32,
    y: i32,
    tile_size: u32,
    width: u32,
    tiles: Vec<u16>,
    solid: Vec<bool>,
}

impl View for TileBody {
    type V = TileGrid;

    closed spec fn view(&self) -> TileGrid {
        TileGrid {
            x: self.x as int,
            y: self.y as int,
            tile_size: self.tile_size as int,
            width: self.width as int,
            tiles: self.tiles@,
            solid: self.solid@,
        }
    }
}

impl TileBody {
    #[verifier::type_invariant]
    spec fn inv(self) -> bool {
        self@.wf()
    }

    /// The error, if any, with which a grid of these dimensions is turned down. The checks
    /// are made in the order of the variants.
    pub open spec fn rejection(tile_size: u32, width: u32, tiles: Seq<u16>, solid: Seq<bool>) -> Option<
        GridError,
    > {
        if width == 0 {
            Some(GridError::ZeroWidth)
        } else if tile_size == 0 {
            Some(GridError::ZeroTileSize)
        } else if tiles.len() != solid.len() {
            Some(GridError::LengthMismatch)
        } else if solid.len() % (width as nat) != 0 {
            Some(GridError::RaggedRows)
        } else {
            None
        }
    }

    /// A grid of `width` columns of square tiles of side `tile_size`, with its top-left corner
    /// at `(x, y)`. A grid without columns, with tiles without extent, with flags that do not
    /// match the tiles or with an incomplete last row is turned down.
    pub fn new(x: i32, y: i32, tile_size: u32, width: u32, tiles: Vec<u16>, solid: Vec<bool>) -> (res:
        Result<TileBody, GridError>)
        ensures
            match res {
                Ok(body) => Self::rejection(tile_size, width, tiles@, solid@) is None && body@ == (
                TileGrid {
                    x: x as int,
                    y: y as int,
                    tile_size: tile_size as int,
                    width: width as int,
                    tiles: tiles@,
                    solid: solid@,
                }) && body@.wf(),
                Err(e) => Self::rejection(tile_size, width, tiles@, solid@) == Some(e),
            },
    {
        if width == 0 {
            return Err(GridError::ZeroWidth);
        }
        if tile_size == 0 {
            return Err(GridError::ZeroTileSize);
        }
        if tiles.len() != solid.len() {
            return Err(GridError::LengthMismatch);
        }
        if solid.len() % (width as usize) != 0 {
            return Err(GridError::RaggedRows);
        }
        Ok(TileBody { x, y, tile_size, width, tiles, solid })
    }

    /// The world x of the left edge of the grid.
    pub fn x(&self) -> (v: i32)
        ensures
            v == self@.x,
    {
        self.x
    }

    /// The world y of the top edge of the grid.
    pub fn y(&self) -> (v: i32)
        ensures
            v == self@.y,
    {
        self.y
    }

    /// The side of one tile.
    pub fn tile_size(&self) -> (v: u32)
        ensures
            v == self@.tile_size,
            v > 0,
    {
        proof {
            use_type_invariant(self);
        }
        self.tile_size
    }

    /// The number of columns.
    pub fn width(&self) -> (v: u32)
        ensures
            v == self@.width,
            v > 0,
    {
        proof {
            use_type_invariant(self);
        }
        self.width
    }

    /// The number of rows.
    pub fn height(&self) -> (v: usize)
        ensures
            v == self@.height(),
    {
        proof {
            use_type_invariant(self);
        }
        self.solid.len() / (self.width as usize)
    }

    /// The identities of the tiles, row by row.
    pub fn tiles(&self) -> (v: &Vec<u16>)
        ensures
            v@ == self@.tiles,
    {
        &self.tiles
    }

    /// The solidity flags of the tiles, row by row.
    pub fn solid(&self) -> (v: &Vec<bool>)
        ensures
            v@ == self@.solid,
    {
        &self.solid
    }

    /// The rectangle that the grid covers; `None` where an extent of the grid is beyond what
    /// a rectangle can hold.
    pub fn bounds(&self) -> (b: Option<IntRect>)
        ensures
            self@.wf(),
            match b {
                Some(r) => self@.bounded() && r == self@.bounds(),
                None => !self@.bounded(),
            },
    {
        proof {
            use_type_invariant(self);
        }
        let ghost g = self@;
        let height: usize = self.solid.len() / (self.width as usize);
        proof {
            lemma_rows(g);
        }
        let limit: u64 = 0x7fff_ffff;
        proof {
            assert(g.width * g.tile_size <= 0xffff_ffff * 0xffff_ffff) by (nonlinear_arith)
                requires
                    0 <= g.width <= 0xffff_ffff,
                    0 <= g.tile_size <= 0xffff_ffff,
            ;
        }
        let w: u64 = self.width as u64 * self.tile_size as u64;
        if w > limit {
            return None;
        }
        if height as u64 > limit {
            proof {
                assert(g.height() * g.tile_size >= g.height()) by (nonlinear_arith)
                    requires
                        g.height() >= 0,
                        g.tile_size >= 1,
                ;
            }
            return None;
        }
        proof {
            assert(g.height() * g.tile_size <= 0x7fff_ffff * 0xffff_ffff) by (nonlinear_arith)
                requires
                    0 <= g.height() <= 0x7fff_ffff,
                    0 <= g.tile_size <= 0xffff_ffff,
            ;
        }
        let h: u64 = height as u64 * self.tile_size as u64;
        if h > limit {
            return None;
        }
        Some(IntRect { x: self.x, y: self.y, w: w as i32, h: h as i32 })
    }

    /// Whether `rect` overlaps a solid cell of this grid. Only the cells within the spans of
    /// `rect`, clamped to the grid, are looked at; what lies beyond the grid is not solid.
    pub fn collide(&self, rect: &IntRect) -> (hit: bool)
        ensures
            hit == self@.collides(*rect),
    {
        proof {
            use_type_invariant(self);
        }
        let ghost g = self@;
        let ts: i64 = self.tile_size as i64;
        let width: usize = self.width as usize;
        let height: usize = self.solid.len() / width;
        let dx: i64 = rect.x as i64 - self.x as i64;
        let dy: i64 = rect.y as i64 - self.y as i64;
        let c0: i64 = floor_div_i64(dx, ts);
        let c1: i64 = floor_div_i64(dx + rect.w as i64 - 1, ts);
        let r0: i64 = floor_div_i64(dy, ts);
        let r1: i64 = floor_div_i64(dy + rect.h as i64 - 1, ts);
        proof {
            lemma_rows(g);
        }
        if c1 < 0 || r1 < 0 || c0 > c1 || r0 > r1 || height == 0 {
            proof {
                assert forall|i: int| 0 <= i < g.solid.len() implies !#[trigger] g.cell_overlaps(
                    i,
                    *rect,
                ) by {
                    lemma_cell_overlaps_iff_in_span(g, i, *rect);
                    lemma_index_cell(g, i);
                }
            }
            return false;
        }
        let col_lo: u64 = if c0 < 0 {
            0
        } else {
            c0 as u64
        };
        let row_lo: u64 = if r0 < 0 {
            0
        } else {
            r0 as u64
        };
        if col_lo >= width as u64 || row_lo >= height as u64 {
            proof {
                assert forall|i: int| 0 <= i < g.solid.len() implies !#[trigger] g.cell_overlaps(
                    i,
                    *rect,
                ) by {
                    lemma_cell_overlaps_iff_in_span(g, i, *rect);
                    lemma_index_cell(g, i);
                }
            }
            return false;
        }
        let col_hi: u64 = if c1 as u64 >= width as u64 {
            width as u64 - 1
        } else {
            c1 as u64
        };
        let row_hi: u64 = if r1 as u64 >= height as u64 {
            height as u64 - 1
        } else {
            r1 as u64
        };
        let mut row: usize = row_lo as usize;
        while row <= row_hi as usize
            invariant
                g == self@,
                g.wf(),
                width == g.width,
                height == g.height(),
                0 <= col_lo <= col_hi < width,
                0 <= row_lo <= row <= row_hi + 1,
                row_hi < height,
                clamped(g.column_span(*rect), g.width) == (col_lo as int, col_hi as int),
                clamped(g.row_span(*rect), g.height()) == (row_lo as int, row_hi as int),
                forall|cc: int, rr: int|
                    col_lo <= cc <= col_hi && row_lo <= rr < row ==> !#[trigger] g.solid_at(cc, rr),
                self.solid@ == g.solid,
                g.solid.len() <= usize::MAX,
            decreases row_hi + 1 - row,
        {
            let mut col: usize = col_lo as usize;
            while col <= col_hi as usize
                invariant
                    g == self@,
                    g.wf(),
                    width == g.width,
                    height == g.height(),
                    0 <= col_lo <= col <= col_hi + 1,
                    col_hi < width,
                    0 <= row_lo <= row <= row_hi < height,
                    clamped(g.column_span(*rect), g.width) == (col_lo as int, col_hi as int),
                    clamped(g.row_span(*rect), g.height()) == (row_lo as int, row_hi as int),
                    forall|cc: int, rr: int|
                        col_lo <= cc <= col_hi && row_lo <= rr < row ==> !#[trigger] g.solid_at(
                            cc,
                            rr,
                        ),
                    forall|cc: int| col_lo <= cc < col ==> !#[trigger] g.solid_at(cc, row as int),
                    self.solid@ == g.solid,
                    g.solid.len() <= usize::MAX,
                g.solid.len() <= usize::MAX,
                decreases col_hi + 1 - col,
            {
                proof {
                    lemma_cell_index(g, col as int, row as int);
                    assert(row as int * g.width == row * width);
                    assert(row * width + col < self.solid@.len());
                    assert(0 <= row * width) by (nonlinear_arith)
                        requires
                            0 <= row,
                            0 <= width,
                    ;
                }
                let at: usize = row * width + col;
                if self.solid[at] {
                    proof {
                        lemma_cell_overlaps_iff_in_span(g, at as int, *rect);
                        assert(g.solid[at as int] && g.cell_overlaps(at as int, *rect));
                    }
                    return true;
                }
                assert(!g.solid_at(col as int, row as int));
                col = col + 1;
            }
            row = row + 1;
        }
        proof {
            assert forall|i: int| 0 <= i < g.solid.len() && g.solid[i] implies !#[trigger] g.cell_overlaps(
                i,
                *rect,
            ) by {
                lemma_cell_overlaps_iff_in_span(g, i, *rect);
                lemma_index_cell(g, i);
                if g.cell_overlaps(i, *rect) {
                    assert(g.solid_at(i % g.width, i / g.width));
                }
            }
        }
        false
    }
}

/// The origin of a grid is held in machine integers, and so are its tile size and its width.
pub proof fn lemma_grid_fits(body: TileBody)
    ensures
        i32::MIN <= body@.x <= i32::MAX,
        i32::MIN <= body@.y <= i32::MAX,
        0 <= body@.tile_size <= u32::MAX,
        0 <= body@.width <= u32::MAX,
{
}

/// Some grid among `bodies` collides with `r`.
pub open spec fn any_collides(bodies: Seq<TileBody>, r: IntRect) -> bool {
    exists|i: int| 0 <= i < bodies.len() && (#[trigger] bodies[i])@.collides(r)
}

/// Whether `rect` collides with any of the tile grids, by a scan over all of them.
pub fn collide_any(bodies: &Vec<TileBody>, rect: &IntRect) -> (hit: bool)
    ensures
        hit == any_collides(bodies@, *rect),
{
    let mut i: usize = 0;
    while i < bodies.len()
        invariant
            i <= bodies.len(),
            forall|j: int| 0 <= j < i ==> !(#[trigger] bodies@[j])@.collides(*rect),
        decreases bodies.len() - i,
    {
        if bodies[i].collide(rect) {
            return true;
        }
        i = i + 1;
    }
    false
}

} // verus!

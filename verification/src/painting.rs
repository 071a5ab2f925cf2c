//! How a canvas fills up while the tiles of a stream are painted onto it.
//!
//! Both de-swizzling decoders walk the same grid and differ only in what a
//! tile holds. The bookkeeping of their loops lives here: which tiles are
//! done, what the canvas holds then, and that painting one more tile keeps
//! the account right.

use vstd::prelude::*;
use crate::color::black;
use crate::raster::Raster;
use crate::tiling::{
    lemma_slot_in_grid, lemma_slot_of_tile_pixel, lemma_slot_starts_before, slot_of, slot_origin,
    tile_column, tile_rank,
};

verus! {

/// `after` is `before` with one rectangle painted over: the pixel `dx`
/// columns and `dy` rows into the `w` by `h` rectangle at `(x0, y0)` holds
/// `cell(dx, dy)`, and every pixel outside it is as it was.
pub(crate) open spec fn repainted(
    before: Raster,
    after: Raster,
    x0: int,
    y0: int,
    w: int,
    h: int,
    cell: spec_fn(int, int) -> (u8, u8, u8),
) -> bool {
    &&& after.spec_width() == before.spec_width()
    &&& after.spec_height() == before.spec_height()
    &&& forall|x: int, y: int|
        #[trigger] after.pixel(x, y) == (if x0 <= x < x0 + w && y0 <= y < y0 + h {
            cell(x - x0, y - y0)
        } else {
            before.pixel(x, y)
        })
}

/// A part of a larger rectangle: where it lies within the whole, how large
/// it is, and what it holds.
pub(crate) struct Part {
    pub(crate) x: int,
    pub(crate) y: int,
    pub(crate) w: int,
    pub(crate) h: int,
    pub(crate) cell: spec_fn(int, int) -> (u8, u8, u8),
}

impl Part {
    /// Whether the place `(dx, dy)` of the whole lies in this part.
    pub(crate) open spec fn holds(self, dx: int, dy: int) -> bool {
        self.x <= dx < self.x + self.w && self.y <= dy < self.y + self.h
    }

    /// Whether this part lies inside a `w` by `h` whole and holds there
    /// what the whole holds.
    pub(crate) open spec fn agrees(
        self,
        w: int,
        h: int,
        whole: spec_fn(int, int) -> (u8, u8, u8),
    ) -> bool {
        forall|dx: int, dy: int| #[trigger]
            self.holds(dx, dy) ==> 0 <= dx < w && 0 <= dy < h && whole(dx, dy) == (self.cell)(
                dx - self.x,
                dy - self.y,
            )
    }

    /// Whether painting this part at its place in the whole at `(x0, y0)`
    /// turns `before` into `after`.
    pub(crate) open spec fn painted(self, before: Raster, after: Raster, x0: int, y0: int) -> bool {
        repainted(before, after, x0 + self.x, y0 + self.y, self.w, self.h, self.cell)
    }
}

/// Four parts painted one after another make the whole rectangle painted,
/// when each part holds what the whole holds there and no place of the
/// whole is left out.
pub(crate) proof fn lemma_four_parts_painted(
    states: (Raster, Raster, Raster, Raster, Raster),
    parts: (Part, Part, Part, Part),
    x0: int,
    y0: int,
    w: int,
    h: int,
    whole: spec_fn(int, int) -> (u8, u8, u8),
)
    requires
        parts.0.painted(states.0, states.1, x0, y0),
        parts.1.painted(states.1, states.2, x0, y0),
        parts.2.painted(states.2, states.3, x0, y0),
        parts.3.painted(states.3, states.4, x0, y0),
        parts.0.agrees(w, h, whole),
        parts.1.agrees(w, h, whole),
        parts.2.agrees(w, h, whole),
        parts.3.agrees(w, h, whole),
        forall|dx: int, dy: int|
            0 <= dx < w && 0 <= dy < h ==> #[trigger] parts.0.holds(dx, dy) || parts.1.holds(
                dx,
                dy,
            ) || parts.2.holds(dx, dy) || parts.3.holds(dx, dy),
    ensures
        repainted(states.0, states.4, x0, y0, w, h, whole),
{
    assert forall|x: int, y: int| #[trigger]
        states.4.pixel(x, y) == (if x0 <= x < x0 + w && y0 <= y < y0 + h {
            whole(x - x0, y - y0)
        } else {
            states.0.pixel(x, y)
        }) by {
        let dx = x - x0;
        let dy = y - y0;
        assert(parts.0.holds(dx, dy) ==> whole(dx, dy) == (parts.0.cell)(
            dx - parts.0.x,
            dy - parts.0.y,
        ));
        assert(parts.1.holds(dx, dy) ==> whole(dx, dy) == (parts.1.cell)(
            dx - parts.1.x,
            dy - parts.1.y,
        ));
        assert(parts.2.holds(dx, dy) ==> whole(dx, dy) == (parts.2.cell)(
            dx - parts.2.x,
            dy - parts.2.y,
        ));
        assert(parts.3.holds(dx, dy) ==> whole(dx, dy) == (parts.3.cell)(
            dx - parts.3.x,
            dy - parts.3.y,
        ));
    }
}

/// The geometry of a tile grid on its canvas.
pub(crate) struct TileGrid {
    /// The pitch of the grid, in source pixels.
    pub(crate) tilesize: int,
    /// Source pixels per canvas pixel, along one axis.
    pub(crate) shrink: int,
    /// The side of a tile on the canvas.
    pub(crate) extent: int,
    /// Tiles in a row.
    pub(crate) tiles_x: int,
    /// Rows of tiles.
    pub(crate) tiles_y: int,
}

impl TileGrid {
    /// A tile fits its slot, unless the grid has no tiles at all.
    pub(crate) open spec fn wf(self) -> bool {
        &&& self.shrink > 0
        &&& self.extent > 0
        &&& self.tiles_x >= 0
        &&& self.tiles_y >= 0
        &&& self.tilesize >= 0
        &&& self.tiles_x > 0 && self.tiles_y > 0 ==> self.tilesize >= self.extent * self.shrink
    }

    pub(crate) open spec fn origin(self, k: int) -> int {
        slot_origin(k, self.tilesize, self.shrink)
    }

    pub(crate) open spec fn slot(self, x: int) -> int {
        slot_of(x, self.tilesize, self.shrink)
    }

    pub(crate) open spec fn width(self) -> int {
        self.origin(self.tiles_x)
    }

    pub(crate) open spec fn height(self) -> int {
        self.origin(self.tiles_y)
    }
}

/// What a finished canvas holds at `(x, y)`: inside a tile the colour that
/// `cell` gives for the tile's rank, the place in the tile and the parity
/// of the tile row; in the padding of a slot, black.
pub(crate) open spec fn grid_pixel(
    grid: TileGrid,
    cell: spec_fn(int, int, int, bool) -> (u8, u8, u8),
    x: int,
    y: int,
) -> (u8, u8, u8) {
    let tx = grid.slot(x);
    let ty = grid.slot(y);
    let dx = x - grid.origin(tx);
    let dy = y - grid.origin(ty);
    if dx < grid.extent && dy < grid.extent {
        cell(tile_rank(tx, ty, grid.tiles_x), dx, dy, ty % 2 == 1)
    } else {
        black()
    }
}

/// Whether tile `(tx, ty)` is among the tiles painted once `row` whole rows
/// and `count` tiles of the next are done.
pub(crate) open spec fn tile_done(tx: int, ty: int, tiles_x: int, row: int, count: int) -> bool {
    ty < row || (ty == row && tile_column(tx, ty, tiles_x) < count)
}

/// What the canvas holds at `(x, y)` after `row` whole tile rows and `count`
/// tiles of the next: its final colour where a painted tile lies, and
/// black elsewhere.
pub(crate) open spec fn painted_pixel(
    grid: TileGrid,
    cell: spec_fn(int, int, int, bool) -> (u8, u8, u8),
    row: int,
    count: int,
    x: int,
    y: int,
) -> (u8, u8, u8) {
    if tile_done(grid.slot(x), grid.slot(y), grid.tiles_x, row, count) {
        grid_pixel(grid, cell, x, y)
    } else {
        black()
    }
}

/// The canvas after `row` whole tile rows and `count` tiles of the next:
/// painted tiles hold their pixels, everything else is still black.
pub(crate) open spec fn painted_so_far(
    img: Raster,
    grid: TileGrid,
    cell: spec_fn(int, int, int, bool) -> (u8, u8, u8),
    row: int,
    count: int,
) -> bool {
    &&& img.spec_width() == grid.width()
    &&& img.spec_height() == grid.height()
    &&& forall|x: int, y: int|
        0 <= x < grid.width() && 0 <= y < grid.height() ==> #[trigger] img.pixel(x, y)
            == painted_pixel(grid, cell, row, count, x, y)
}

/// On a fresh canvas no tile is painted yet.
pub(crate) proof fn lemma_nothing_painted(
    img: Raster,
    grid: TileGrid,
    cell: spec_fn(int, int, int, bool) -> (u8, u8, u8),
)
    requires
        grid.wf(),
        img.spec_width() == grid.width(),
        img.spec_height() == grid.height(),
        forall|x: int, y: int| img.contains(x, y) ==> #[trigger] img.pixel(x, y) == black(),
    ensures
        painted_so_far(img, grid, cell, 0, 0),
{
    assert forall|x: int, y: int|
        0 <= x < grid.width() && 0 <= y < grid.height() implies !tile_done(
        grid.slot(x),
        grid.slot(y),
        grid.tiles_x,
        0,
        0,
    ) by {
        lemma_canvas_has_tiles(grid, x, y);
    }
}

/// Painting the next tile in stream order moves the canvas one tile on.
pub(crate) proof fn lemma_tile_painted(
    before: Raster,
    after: Raster,
    grid: TileGrid,
    cell: spec_fn(int, int, int, bool) -> (u8, u8, u8),
    row: int,
    count: int,
)
    requires
        grid.wf(),
        0 <= row < grid.tiles_y,
        0 <= count < grid.tiles_x,
        painted_so_far(before, grid, cell, row, count),
        after.spec_width() == before.spec_width(),
        after.spec_height() == before.spec_height(),
        forall|x: int, y: int|
            #[trigger] after.pixel(x, y) == ({
                let dx = x - grid.origin(tile_column(count, row, grid.tiles_x));
                let dy = y - grid.origin(row);
                if 0 <= dx < grid.extent && 0 <= dy < grid.extent {
                    cell(row * grid.tiles_x + count, dx, dy, row % 2 == 1)
                } else {
                    before.pixel(x, y)
                }
            }),
    ensures
        painted_so_far(after, grid, cell, row, count + 1),
{
    let tx_now = tile_column(count, row, grid.tiles_x);
    assert(grid.tilesize > 0) by (nonlinear_arith)
        requires
            grid.shrink > 0,
            grid.extent > 0,
            grid.tilesize >= grid.extent * grid.shrink,
    ;
    assert forall|x: int, y: int|
        0 <= x < grid.width() && 0 <= y < grid.height() implies #[trigger] after.pixel(x, y)
        == painted_pixel(grid, cell, row, count + 1, x, y) by {
        let dx = x - grid.origin(tx_now);
        let dy = y - grid.origin(row);
        lemma_slot_starts_before(x, grid.tilesize, grid.shrink);
        lemma_slot_starts_before(y, grid.tilesize, grid.shrink);
        if 0 <= dx < grid.extent && 0 <= dy < grid.extent {
            lemma_slot_of_tile_pixel(tx_now, dx, grid.tilesize, grid.shrink, grid.extent);
            lemma_slot_of_tile_pixel(row, dy, grid.tilesize, grid.shrink, grid.extent);
            assert(grid.slot(x) == tx_now);
            assert(grid.slot(y) == row);
        } else {
            assert(after.pixel(x, y) == before.pixel(x, y));
        }
    }
}

/// A tile row with all its tiles painted is a whole row done.
pub(crate) proof fn lemma_row_painted(
    img: Raster,
    grid: TileGrid,
    cell: spec_fn(int, int, int, bool) -> (u8, u8, u8),
    row: int,
)
    requires
        grid.wf(),
        0 <= row < grid.tiles_y,
        painted_so_far(img, grid, cell, row, grid.tiles_x),
    ensures
        painted_so_far(img, grid, cell, row + 1, 0),
{
    assert forall|x: int, y: int|
        0 <= x < grid.width() && 0 <= y < grid.height() implies #[trigger] img.pixel(x, y)
        == painted_pixel(grid, cell, row + 1, 0, x, y) by {
        lemma_canvas_has_tiles(grid, x, y);
    }
}

/// A canvas with a pixel in it has tiles, and the pixel lies in the slot
/// of one of them.
pub(crate) proof fn lemma_canvas_has_tiles(grid: TileGrid, x: int, y: int)
    requires
        grid.wf(),
        0 <= x < grid.width(),
        0 <= y < grid.height(),
    ensures
        grid.tilesize > 0,
        0 <= grid.slot(x) < grid.tiles_x,
        0 <= grid.slot(y) < grid.tiles_y,
{
    assert(0 * grid.tilesize / grid.shrink == 0 && grid.tiles_x * 0 / grid.shrink == 0
        && grid.tiles_y * 0 / grid.shrink == 0) by (nonlinear_arith)
        requires
            grid.shrink > 0,
    ;
    assert(grid.tilesize > 0 && grid.tiles_x > 0 && grid.tiles_y > 0);
    lemma_slot_in_grid(x, grid.tiles_x, grid.tilesize, grid.shrink);
    lemma_slot_in_grid(y, grid.tiles_y, grid.tilesize, grid.shrink);
}

/// Once every row is done, each pixel of the canvas holds what the grid
/// says.
pub(crate) proof fn lemma_all_painted(
    img: Raster,
    grid: TileGrid,
    cell: spec_fn(int, int, int, bool) -> (u8, u8, u8),
)
    requires
        grid.wf(),
        painted_so_far(img, grid, cell, grid.tiles_y, 0),
    ensures
        forall|x: int, y: int|
            0 <= x < grid.width() && 0 <= y < grid.height() ==> #[trigger] img.pixel(x, y)
                == grid_pixel(grid, cell, x, y),
{
    assert forall|x: int, y: int|
        0 <= x < grid.width() && 0 <= y < grid.height() implies #[trigger] img.pixel(x, y)
        == grid_pixel(grid, cell, x, y) by {
        lemma_canvas_has_tiles(grid, x, y);
    }
}

} // verus!

//! De-swizzling of 32x32-pixel tiles, copied pixel for pixel.
//!
//! The source is a flat stream of four-byte pixels, blue first. Tiles follow
//! one another in serpentine order; within a tile come four 16x16 quadrants,
//! within a quadrant four bands of 16x4 pixels from top to bottom, within a
//! band four 4x4 blocks from left to right, and each block is stored row by
//! row.

use vstd::arithmetic::div_mod::{
    lemma_fundamental_div_mod, lemma_fundamental_div_mod_converse, lemma_mod_mod,
};
use vstd::prelude::*;
use crate::color::black;
use crate::error::DecodeError;
use crate::painting::{
    grid_pixel, lemma_all_painted, lemma_four_parts_painted, lemma_nothing_painted,
    lemma_row_painted, lemma_tile_painted, painted_so_far, repainted, Part, TileGrid,
};
use crate::raster::{image_crop, image_new, image_put_pixel, raster_fits, Raster};
use crate::tiling::{
    block_index, lemma_quadrant_order, quadrant_at, quadrant_rank, tile_column, tile_rank,
    TILE_SIDE,
};

verus! {

/// The colour of pixel `n` of the stream: its bytes 2, 1 and 0.
pub open spec fn direct_sample(src: Seq<u8>, n: int) -> (u8, u8, u8) {
    (src[4 * n + 2], src[4 * n + 1], src[4 * n])
}

/// The place of a pixel within its band of four blocks, 16 wide and 4 high.
pub open spec fn band_index(dx: int, dy: int) -> int {
    16 * (dx / 4) + block_index(dx % 4, dy)
}

/// The place of a pixel within its 16x16 quadrant of four bands.
pub open spec fn quadrant_index(dx: int, dy: int) -> int {
    64 * (dy / 4) + band_index(dx, dy % 4)
}

/// The place of a pixel within its 32x32 tile.
pub open spec fn direct_tile_index(dx: int, dy: int, odd_row: bool) -> int {
    256 * quadrant_rank(dx / 16, dy / 16, odd_row) + quadrant_index(dx % 16, dy % 16)
}

/// Whether `count` pixels of the stream, from pixel `n` on, can be read.
spec fn stream_holds(src: Seq<u8>, n: int, count: int) -> bool {
    4 * (n + count) - 1 <= src.len() <= usize::MAX
}

/// Copies pixel `n` of the stream to `(x, y)`.
fn copy_px(img: &mut Raster, src: &[u8], n: usize, x: u32, y: u32)
    requires
        stream_holds(src@, n as int, 1),
        old(img).contains(x as int, y as int),
    ensures
        repainted(
            *old(img),
            *final(img),
            x as int,
            y as int,
            1,
            1,
            |dx: int, dy: int| direct_sample(src@, n as int),
        ),
{
    let i: usize = 4 * n;
    let color: (u8, u8, u8) = (src[i + 2], src[i + 1], src[i]);
    image_put_pixel(img, x, y, color);
}

/// Copies four pixels of the stream to a row starting at `(x, y)`.
fn copy_4_px(img: &mut Raster, src: &[u8], n: usize, x: u32, y: u32)
    requires
        stream_holds(src@, n as int, 4),
        x + 4 <= old(img).spec_width() <= u32::MAX,
        y < old(img).spec_height(),
    ensures
        repainted(
            *old(img),
            *final(img),
            x as int,
            y as int,
            4,
            1,
            |dx: int, dy: int| direct_sample(src@, n + dx),
        ),
{
    let ghost s0 = *img;
    copy_px(img, src, n, x, y);
    let ghost s1 = *img;
    copy_px(img, src, n + 1, x + 1, y);
    let ghost s2 = *img;
    copy_px(img, src, n + 2, x + 2, y);
    let ghost s3 = *img;
    copy_px(img, src, n + 3, x + 3, y);
    proof {
        let whole = |dx: int, dy: int| direct_sample(src@, n + dx);
        let part = |k: int|
            Part { x: k, y: 0, w: 1, h: 1, cell: |dx: int, dy: int| direct_sample(src@, n + k) };
        lemma_four_parts_painted(
            (s0, s1, s2, s3, *img),
            (part(0), part(1), part(2), part(3)),
            x as int,
            y as int,
            4,
            1,
            whole,
        );
    }
}

/// Copies a 4x4 block, stored row by row.
fn copy_4x4_px(img: &mut Raster, src: &[u8], n: usize, x: u32, y: u32)
    requires
        stream_holds(src@, n as int, 16),
        x + 4 <= old(img).spec_width() <= u32::MAX,
        y + 4 <= old(img).spec_height() <= u32::MAX,
    ensures
        repainted(
            *old(img),
            *final(img),
            x as int,
            y as int,
            4,
            4,
            |dx: int, dy: int| direct_sample(src@, n + block_index(dx, dy)),
        ),
{
    let ghost s0 = *img;
    copy_4_px(img, src, n, x, y);
    let ghost s1 = *img;
    copy_4_px(img, src, n + 4, x, y + 1);
    let ghost s2 = *img;
    copy_4_px(img, src, n + 8, x, y + 2);
    let ghost s3 = *img;
    copy_4_px(img, src, n + 12, x, y + 3);
    proof {
        let whole = |dx: int, dy: int| direct_sample(src@, n + block_index(dx, dy));
        let part = |k: int|
            Part {
                x: 0,
                y: k,
                w: 4,
                h: 1,
                cell: |dx: int, dy: int| direct_sample(src@, n + 4 * k + dx),
            };
        lemma_four_parts_painted(
            (s0, s1, s2, s3, *img),
            (part(0), part(1), part(2), part(3)),
            x as int,
            y as int,
            4,
            4,
            whole,
        );
    }
}

/// Copies a band of four blocks, left to right.
fn copy_16x4_px(img: &mut Raster, src: &[u8], n: usize, x: u32, y: u32)
    requires
        stream_holds(src@, n as int, 64),
        x + 16 <= old(img).spec_width() <= u32::MAX,
        y + 4 <= old(img).spec_height() <= u32::MAX,
    ensures
        repainted(
            *old(img),
            *final(img),
            x as int,
            y as int,
            16,
            4,
            |dx: int, dy: int| direct_sample(src@, n + band_index(dx, dy)),
        ),
{
    let ghost s0 = *img;
    copy_4x4_px(img, src, n, x, y);
    let ghost s1 = *img;
    copy_4x4_px(img, src, n + 16, x + 4, y);
    let ghost s2 = *img;
    copy_4x4_px(img, src, n + 32, x + 8, y);
    let ghost s3 = *img;
    copy_4x4_px(img, src, n + 48, x + 12, y);
    proof {
        let whole = |dx: int, dy: int| direct_sample(src@, n + band_index(dx, dy));
        let part = |k: int|
            Part {
                x: 4 * k,
                y: 0,
                w: 4,
                h: 4,
                cell: |dx: int, dy: int| direct_sample(src@, n + 16 * k + block_index(dx, dy)),
            };
        lemma_four_parts_painted(
            (s0, s1, s2, s3, *img),
            (part(0), part(1), part(2), part(3)),
            x as int,
            y as int,
            16,
            4,
            whole,
        );
    }
}

/// Copies a quadrant of four bands, top to bottom.
fn copy_16x16_px(img: &mut Raster, src: &[u8], n: usize, x: u32, y: u32)
    requires
        stream_holds(src@, n as int, 256),
        x + 16 <= old(img).spec_width() <= u32::MAX,
        y + 16 <= old(img).spec_height() <= u32::MAX,
    ensures
        repainted(
            *old(img),
            *final(img),
            x as int,
            y as int,
            16,
            16,
            |dx: int, dy: int| direct_sample(src@, n + quadrant_index(dx, dy)),
        ),
{
    let ghost s0 = *img;
    copy_16x4_px(img, src, n, x, y);
    let ghost s1 = *img;
    copy_16x4_px(img, src, n + 64, x, y + 4);
    let ghost s2 = *img;
    copy_16x4_px(img, src, n + 128, x, y + 8);
    let ghost s3 = *img;
    copy_16x4_px(img, src, n + 192, x, y + 12);
    proof {
        let whole = |dx: int, dy: int| direct_sample(src@, n + quadrant_index(dx, dy));
        let part = |k: int|
            Part {
                x: 0,
                y: 4 * k,
                w: 16,
                h: 4,
                cell: |dx: int, dy: int| direct_sample(src@, n + 64 * k + band_index(dx, dy)),
            };
        lemma_four_parts_painted(
            (s0, s1, s2, s3, *img),
            (part(0), part(1), part(2), part(3)),
            x as int,
            y as int,
            16,
            16,
            whole,
        );
    }
}

/// The pixels of the quadrant stored in place `k` of a tile follow one
/// another from place `256 * k` of the tile on.
proof fn lemma_quadrant_of_tile(k: int, dx: int, dy: int, odd_row: bool)
    requires
        0 <= k < 4,
        16 * quadrant_at(k, odd_row).0 <= dx < 16 * quadrant_at(k, odd_row).0 + 16,
        16 * quadrant_at(k, odd_row).1 <= dy < 16 * quadrant_at(k, odd_row).1 + 16,
    ensures
        0 <= dx < 32,
        0 <= dy < 32,
        direct_tile_index(dx, dy, odd_row) == 256 * k + quadrant_index(
            dx - 16 * quadrant_at(k, odd_row).0,
            dy - 16 * quadrant_at(k, odd_row).1,
        ),
{
    let (qx, qy) = quadrant_at(k, odd_row);
    lemma_quadrant_order(k, 0, 0, odd_row);
    lemma_fundamental_div_mod_converse(dx, 16, qx, dx - 16 * qx);
    lemma_fundamental_div_mod_converse(dy, 16, qy, dy - 16 * qy);
}

/// Whether painting the quadrant stored in place `k` of the tile at
/// `(x, y)` turns `before` into `after`.
spec fn quadrant_painted(
    before: Raster,
    after: Raster,
    src: Seq<u8>,
    n: int,
    x: int,
    y: int,
    k: int,
    odd_row: bool,
) -> bool {
    repainted(
        before,
        after,
        x + 16 * quadrant_at(k, odd_row).0,
        y + 16 * quadrant_at(k, odd_row).1,
        16,
        16,
        |dx: int, dy: int| direct_sample(src, n + 256 * k + quadrant_index(dx, dy)),
    )
}

/// Four quadrants painted in the order of their tile row make the tile.
proof fn lemma_tile_assembled(
    states: (Raster, Raster, Raster, Raster, Raster),
    src: Seq<u8>,
    n: int,
    x: int,
    y: int,
    odd_row: bool,
)
    requires
        quadrant_painted(states.0, states.1, src, n, x, y, 0, odd_row),
        quadrant_painted(states.1, states.2, src, n, x, y, 1, odd_row),
        quadrant_painted(states.2, states.3, src, n, x, y, 2, odd_row),
        quadrant_painted(states.3, states.4, src, n, x, y, 3, odd_row),
    ensures
        repainted(
            states.0,
            states.4,
            x,
            y,
            32,
            32,
            |dx: int, dy: int| direct_sample(src, n + direct_tile_index(dx, dy, odd_row)),
        ),
{
    let whole = |dx: int, dy: int| direct_sample(src, n + direct_tile_index(dx, dy, odd_row));
    let part = |k: int|
        Part {
            x: 16 * quadrant_at(k, odd_row).0,
            y: 16 * quadrant_at(k, odd_row).1,
            w: 16,
            h: 16,
            cell: |dx: int, dy: int| direct_sample(src, n + 256 * k + quadrant_index(dx, dy)),
        };
    assert forall|k: int, dx: int, dy: int| 0 <= k < 4 && #[trigger] part(k).holds(
        dx,
        dy,
    ) implies 0 <= dx < 32 && 0 <= dy < 32 && whole(dx, dy) == (part(k).cell)(
        dx - part(k).x,
        dy - part(k).y,
    ) by {
        lemma_quadrant_of_tile(k, dx, dy, odd_row);
    }
    assert forall|dx: int, dy: int| 0 <= dx < 32 && 0 <= dy < 32 implies #[trigger] part(0).holds(
        dx,
        dy,
    ) || part(1).holds(dx, dy) || part(2).holds(dx, dy) || part(3).holds(dx, dy) by {
        lemma_quadrant_order(0, dx / 16, dy / 16, odd_row);
        assert(part(quadrant_rank(dx / 16, dy / 16, odd_row)).holds(dx, dy));
    }
    lemma_four_parts_painted(states, (part(0), part(1), part(2), part(3)), x, y, 32, 32, whole);
}

/// Copies a tile of four quadrants, in the order of its tile row.
fn copy_tile(img: &mut Raster, src: &[u8], n: usize, x: u32, y: u32, odd_row: bool)
    requires
        stream_holds(src@, n as int, 1024),
        x + 32 <= old(img).spec_width() <= u32::MAX,
        y + 32 <= old(img).spec_height() <= u32::MAX,
    ensures
        repainted(
            *old(img),
            *final(img),
            x as int,
            y as int,
            32,
            32,
            |dx: int, dy: int| direct_sample(src@, n + direct_tile_index(dx, dy, odd_row)),
        ),
{
    let ghost s0 = *img;
    let ghost s1;
    let ghost s2;
    let ghost s3;
    if odd_row {
        copy_16x16_px(img, src, n, x + 16, y + 16);
        proof {
            s1 = *img;
        }
        copy_16x16_px(img, src, n + 256, x + 16, y);
        proof {
            s2 = *img;
        }
        copy_16x16_px(img, src, n + 512, x, y);
        proof {
            s3 = *img;
        }
        copy_16x16_px(img, src, n + 768, x, y + 16);
    } else {
        copy_16x16_px(img, src, n, x, y);
        proof {
            s1 = *img;
        }
        copy_16x16_px(img, src, n + 256, x, y + 16);
        proof {
            s2 = *img;
        }
        copy_16x16_px(img, src, n + 512, x + 16, y + 16);
        proof {
            s3 = *img;
        }
        copy_16x16_px(img, src, n + 768, x + 16, y);
    }
    proof {
        lemma_tile_assembled((s0, s1, s2, s3, *img), src@, n as int, x as int, y as int, odd_row);
    }
}

/// The number of pixels in one tile.
pub const TILE_PIXELS: usize = 1024;

/// The place in the stream of the pixel that lands on `(x, y)` of the
/// canvas, for a pixel inside a tile.
pub open spec fn direct_source_index(tilesize: int, tiles_x: int, x: int, y: int) -> int {
    let ty = y / tilesize;
    1024 * tile_rank(x / tilesize, ty, tiles_x) + direct_tile_index(
        x % tilesize,
        y % tilesize,
        ty % 2 == 1,
    )
}

/// Whether canvas pixel `(x, y)` lies inside a tile rather than in the
/// part of a slot that its tile leaves free. Slots are as long as the tile
/// pitch.
pub open spec fn direct_covered(tilesize: int, x: int, y: int) -> bool {
    x % tilesize < 32 && y % tilesize < 32
}

/// What the canvas holds at `(x, y)`: inside a tile the pixel of the stream
/// that belongs there, elsewhere black.
pub open spec fn direct_image_pixel(src: Seq<u8>, tilesize: int, tiles_x: int, x: int, y: int) -> (
    u8,
    u8,
    u8,
) {
    if direct_covered(tilesize, x, y) {
        direct_sample(src, direct_source_index(tilesize, tiles_x, x, y))
    } else {
        black()
    }
}

/// The grid of a direct copy: one canvas pixel per source pixel.
spec fn direct_grid(tilesize: int, tiles_x: int, tiles_y: int) -> TileGrid {
    TileGrid { tilesize, shrink: 1, extent: 32, tiles_x, tiles_y }
}

/// The colour of each pixel of each tile, by the tile's rank.
spec fn direct_cell(src: Seq<u8>) -> spec_fn(int, int, int, bool) -> (u8, u8, u8) {
    |rank: int, dx: int, dy: int, odd_row: bool|
        direct_sample(src, 1024 * rank + direct_tile_index(dx, dy, odd_row))
}

/// On the grid of a direct copy, slots and places within them are the
/// quotient and the remainder of the division by the tile pitch.
proof fn lemma_direct_grid_pixel(
    src: Seq<u8>,
    tilesize: int,
    tiles_x: int,
    tiles_y: int,
    x: int,
    y: int,
)
    requires
        tilesize > 0,
        0 <= x,
        0 <= y,
    ensures
        grid_pixel(direct_grid(tilesize, tiles_x, tiles_y), direct_cell(src), x, y)
            == direct_image_pixel(src, tilesize, tiles_x, x, y),
{
    let grid = direct_grid(tilesize, tiles_x, tiles_y);
    assert(grid.slot(x) == x / tilesize);
    assert(grid.slot(y) == y / tilesize);
    assert(x - grid.origin(x / tilesize) == x % tilesize) by {
        lemma_fundamental_div_mod(x, tilesize);
        assert((x / tilesize) * tilesize == tilesize * (x / tilesize)) by (nonlinear_arith);
    }
    assert(y - grid.origin(y / tilesize) == y % tilesize) by {
        lemma_fundamental_div_mod(y, tilesize);
        assert((y / tilesize) * tilesize == tilesize * (y / tilesize)) by (nonlinear_arith);
    }
}

/// Whether the canvas of a grid of `tiles` tiles with pitch `tilesize` can
/// exist and be cropped to `size`: each tile fits its slot, the sides of the
/// canvas fit `u32`, the canvas can be allocated, and the crop lies inside
/// it.
pub open spec fn direct_canvas_fits(tilesize: u32, tiles: (u32, u32), size: (u32, u32)) -> bool {
    &&& tiles.0 > 0 && tiles.1 > 0 ==> tilesize >= TILE_SIDE
    &&& tiles.0 * tilesize <= u32::MAX
    &&& tiles.1 * tilesize <= u32::MAX
    &&& raster_fits(tiles.0 * tilesize, tiles.1 * tilesize)
    &&& size.0 <= tiles.0 * tilesize
    &&& size.1 <= tiles.1 * tilesize
}

/// Whether a stream of `len` bytes holds every tile of the grid. The last
/// pixel may lack its fourth byte, which is never read.
pub open spec fn direct_stream_fits(len: int, tiles: (u32, u32)) -> bool {
    tiles.0 > 0 && tiles.1 > 0 ==> 4 * (1024 * (tiles.0 * tiles.1)) - 1 <= len
}

/// Rebuilds the image from a stream of 32x32 tiles and crops it to `size`.
///
/// The canvas is `tiles.0 * tilesize` by `tiles.1 * tilesize`; tile
/// `(tx, ty)` goes to `(tx * tilesize, ty * tilesize)`.
pub fn to_image(mapping: &[u8], tilesize: u32, tiles: (u32, u32), size: (u32, u32)) -> (img: Raster)
    requires
        direct_canvas_fits(tilesize, tiles, size),
        direct_stream_fits(mapping@.len() as int, tiles),
    ensures
        img.shows(
            size.0 as int,
            size.1 as int,
            |x: int, y: int| direct_image_pixel(mapping@, tilesize as int, tiles.0 as int, x, y),
        ),
{
    let width: u32 = tiles.0 * tilesize;
    let height: u32 = tiles.1 * tilesize;
    let len: usize = mapping.len();
    let mut img = image_new(width, height);
    let ghost grid = direct_grid(tilesize as int, tiles.0 as int, tiles.1 as int);
    let ghost cell = direct_cell(mapping@);
    let mut n: usize = 0;

    proof {
        assert(grid.width() == width && grid.height() == height);
        lemma_nothing_painted(img, grid, cell);
    }

    let mut ytile: u32 = 0;
    while ytile < tiles.1
        invariant
            ytile <= tiles.1,
            grid == direct_grid(tilesize as int, tiles.0 as int, tiles.1 as int),
            cell == direct_cell(mapping@),
            grid.wf(),
            grid.width() == width,
            grid.height() == height,
            len == mapping@.len(),
            direct_stream_fits(len as int, tiles),
            n == 1024 * (ytile * tiles.0),
            painted_so_far(img, grid, cell, ytile as int, 0),
        decreases tiles.1 - ytile,
    {
        let odd_row: bool = ytile % 2 == 1;
        let mut place: u32 = 0;
        while place < tiles.0
            invariant
                place <= tiles.0,
                ytile < tiles.1,
                odd_row == (ytile % 2 == 1),
                grid == direct_grid(tilesize as int, tiles.0 as int, tiles.1 as int),
                cell == direct_cell(mapping@),
                grid.wf(),
                grid.width() == width,
                grid.height() == height,
                len == mapping@.len(),
                direct_stream_fits(len as int, tiles),
                n == 1024 * (ytile * tiles.0 + place),
                painted_so_far(img, grid, cell, ytile as int, place as int),
            decreases tiles.0 - place,
        {
            let xtile: u32 = if odd_row {
                tiles.0 - 1 - place
            } else {
                place
            };
            proof {
                assert(xtile == tile_column(place as int, ytile as int, tiles.0 as int));
                assert(xtile * tilesize + 32 <= tiles.0 * tilesize) by (nonlinear_arith)
                    requires
                        0 <= xtile < tiles.0,
                        tilesize >= 32,
                ;
                assert(ytile * tilesize + 32 <= tiles.1 * tilesize) by (nonlinear_arith)
                    requires
                        0 <= ytile < tiles.1,
                        tilesize >= 32,
                ;
                assert(ytile * tiles.0 + place + 1 <= tiles.0 * tiles.1) by (nonlinear_arith)
                    requires
                        0 <= ytile < tiles.1,
                        0 <= place < tiles.0,
                ;
            }
            let ghost before = img;
            copy_tile(&mut img, mapping, n, xtile * tilesize, ytile * tilesize, odd_row);
            proof {
                lemma_tile_painted(before, img, grid, cell, ytile as int, place as int);
            }
            n += TILE_PIXELS;
            place += 1;
        }
        proof {
            lemma_row_painted(img, grid, cell, ytile as int);
            assert((ytile + 1) * tiles.0 == ytile * tiles.0 + tiles.0) by (nonlinear_arith);
        }
        ytile += 1;
    }

    proof {
        lemma_all_painted(img, grid, cell);
        assert forall|x: int, y: int|
            0 <= x < size.0 && 0 <= y < size.1 implies #[trigger] img.pixel(x, y)
            == direct_image_pixel(mapping@, tilesize as int, tiles.0 as int, x, y) by {
            assert(tilesize > 0) by (nonlinear_arith)
                requires
                    0 <= x < tiles.0 * tilesize,
            ;
            lemma_direct_grid_pixel(
                mapping@,
                tilesize as int,
                tiles.0 as int,
                tiles.1 as int,
                x,
                y,
            );
        }
        assert(raster_fits(size.0 as int, size.1 as int)) by (nonlinear_arith)
            requires
                0 <= size.0 <= width,
                0 <= size.1 <= height,
                raster_fits(width as int, height as int),
        ;
    }
    image_crop(img, size.0, size.1)
}

/// Whether the canvas of a grid can exist and be cropped to `size`.
pub fn direct_canvas_has_room(tilesize: u32, tiles: (u32, u32), size: (u32, u32)) -> (ok: bool)
    ensures
        ok == direct_canvas_fits(tilesize, tiles, size),
{
    assert(tiles.0 * tilesize <= 0xFFFF_FFFF * 0xFFFF_FFFF && tiles.1 * tilesize <= 0xFFFF_FFFF
        * 0xFFFF_FFFF) by (nonlinear_arith);
    let width: u64 = tiles.0 as u64 * tilesize as u64;
    let height: u64 = tiles.1 as u64 * tilesize as u64;
    if tiles.0 > 0 && tiles.1 > 0 && tilesize < TILE_SIDE {
        return false;
    }
    if width > u32::MAX as u64 || height > u32::MAX as u64 {
        return false;
    }
    Raster::fits(width as u32, height as u32) && size.0 as u64 <= width && size.1 as u64 <= height
}

/// Whether a stream of `len` bytes holds every tile of the grid.
pub fn direct_stream_has_room(len: usize, tiles: (u32, u32)) -> (ok: bool)
    ensures
        ok == direct_stream_fits(len as int, tiles),
{
    if tiles.0 == 0 || tiles.1 == 0 {
        return true;
    }
    assert(0 < tiles.0 * tiles.1 <= 0xFFFF_FFFF * 0xFFFF_FFFF) by (nonlinear_arith)
        requires
            0 < tiles.0 <= 0xFFFF_FFFF,
            0 < tiles.1 <= 0xFFFF_FFFF,
    ;
    let pixels: u128 = 1024 * (tiles.0 as u128 * tiles.1 as u128);
    4 * pixels - 1 <= len as u128
}

/// Rebuilds the image from a stream of 32x32 tiles and crops it to `size`,
/// after making sure that the canvas can exist and the stream holds every
/// tile.
pub fn detile_direct(buffer: &[u8], tile_size: u32, tiles: (u32, u32), size: (u32, u32)) -> (res:
    Result<Raster, DecodeError>)
    ensures
        res matches Ok(img) ==> img.shows(
            size.0 as int,
            size.1 as int,
            |x: int, y: int| direct_image_pixel(buffer@, tile_size as int, tiles.0 as int, x, y),
        ),
        res is Ok <==> direct_canvas_fits(tile_size, tiles, size) && direct_stream_fits(
            buffer@.len() as int,
            tiles,
        ),
        res matches Err(e) ==> (e == DecodeError::InvalidGeometry <==> !direct_canvas_fits(
            tile_size,
            tiles,
            size,
        )),
{
    if !direct_canvas_has_room(tile_size, tiles, size) {
        return Err(DecodeError::InvalidGeometry);
    }
    if !direct_stream_has_room(buffer.len(), tiles) {
        return Err(DecodeError::BufferTooSmall);
    }
    Ok(to_image(buffer, tile_size, tiles, size))
}

/// Where the pixel in place `p` of a quadrant lies within the quadrant.
pub open spec fn quadrant_place(p: int) -> (int, int) {
    let band = p / 64;
    let block = (p % 64) / 16;
    let row = (p % 16) / 4;
    let col = p % 4;
    (4 * block + col, 4 * band + row)
}

/// Where the pixel in place `p` of a tile lies within the tile.
pub open spec fn direct_tile_place(p: int, odd_row: bool) -> (int, int) {
    let (qx, qy) = quadrant_at(p / 256, odd_row);
    let (dx, dy) = quadrant_place(p % 256);
    (16 * qx + dx, 16 * qy + dy)
}

/// Within a quadrant, each place holds one pixel.
pub proof fn lemma_quadrant_place_is_indexed(p: int)
    requires
        0 <= p < 256,
    ensures
        0 <= quadrant_place(p).0 < 16,
        0 <= quadrant_place(p).1 < 16,
        quadrant_index(quadrant_place(p).0, quadrant_place(p).1) == p,
{
    let band = p / 64;
    let block = (p % 64) / 16;
    let row = (p % 16) / 4;
    let col = p % 4;
    let (dx, dy) = quadrant_place(p);
    lemma_fundamental_div_mod_converse(dx, 4, block, col);
    lemma_fundamental_div_mod_converse(dy, 4, band, row);
    assert((p % 64) % 16 == p % 16) by {
        lemma_mod_mod(p, 16, 4);
    }
    assert((p % 16) % 4 == p % 4) by {
        lemma_mod_mod(p, 4, 4);
    }
    assert(p == 64 * band + p % 64);
    assert(p % 64 == 16 * block + (p % 64) % 16);
    assert(p % 16 == 4 * row + (p % 16) % 4);
}

/// Within a quadrant, each pixel has one place.
pub proof fn lemma_quadrant_index_is_placed(dx: int, dy: int)
    requires
        0 <= dx < 16,
        0 <= dy < 16,
    ensures
        0 <= quadrant_index(dx, dy) < 256,
        quadrant_place(quadrant_index(dx, dy)) == (dx, dy),
{
    let block = dx / 4;
    let col = dx % 4;
    let band = dy / 4;
    let row = dy % 4;
    let p = quadrant_index(dx, dy);
    assert(p == 64 * band + 16 * block + 4 * row + col);
    lemma_fundamental_div_mod_converse(p, 64, band, 16 * block + 4 * row + col);
    lemma_fundamental_div_mod_converse(p % 64, 16, block, 4 * row + col);
    lemma_fundamental_div_mod_converse(p, 16, 4 * band + block, 4 * row + col);
    lemma_fundamental_div_mod_converse(p % 16, 4, row, col);
    lemma_fundamental_div_mod_converse(p, 4, 16 * band + 4 * block + row, col);
}

/// Where pixel `n` of the stream lands on the canvas.
pub open spec fn direct_destination(tilesize: int, tiles_x: int, n: int) -> (int, int) {
    let rank = n / 1024;
    let ty = rank / tiles_x;
    let tx = tile_column(rank % tiles_x, ty, tiles_x);
    let (dx, dy) = direct_tile_place(n % 1024, ty % 2 == 1);
    (tx * tilesize + dx, ty * tilesize + dy)
}

/// Within a tile, places and pixels correspond one to one.
pub proof fn lemma_direct_tile_layout(p: int, dx: int, dy: int, odd_row: bool)
    requires
        0 <= p < 1024,
        0 <= dx < 32,
        0 <= dy < 32,
    ensures
        0 <= direct_tile_place(p, odd_row).0 < 32,
        0 <= direct_tile_place(p, odd_row).1 < 32,
        direct_tile_index(
            direct_tile_place(p, odd_row).0,
            direct_tile_place(p, odd_row).1,
            odd_row,
        ) == p,
        0 <= direct_tile_index(dx, dy, odd_row) < 1024,
        direct_tile_place(direct_tile_index(dx, dy, odd_row), odd_row) == (dx, dy),
{
    lemma_quadrant_order(p / 256, dx / 16, dy / 16, odd_row);
    lemma_quadrant_place_is_indexed(p % 256);
    lemma_quadrant_index_is_placed(dx % 16, dy % 16);
    let (qx, qy) = quadrant_at(p / 256, odd_row);
    let (px, py) = quadrant_place(p % 256);
    lemma_fundamental_div_mod_converse(16 * qx + px, 16, qx, px);
    lemma_fundamental_div_mod_converse(16 * qy + py, 16, qy, py);
    let rank = quadrant_rank(dx / 16, dy / 16, odd_row);
    let within = quadrant_index(dx % 16, dy % 16);
    lemma_fundamental_div_mod_converse(256 * rank + within, 256, rank, within);
}

/// Pixel `n` of the stream lands inside a tile of the canvas, and the
/// pixel that the canvas takes from the stream for that spot is pixel `n`.
pub proof fn lemma_direct_destination_is_read_back(
    tilesize: int,
    tiles_x: int,
    tiles_y: int,
    n: int,
)
    requires
        tilesize >= 32,
        0 < tiles_x,
        0 <= n < 1024 * (tiles_x * tiles_y),
    ensures
        ({
            let (x, y) = direct_destination(tilesize, tiles_x, n);
            &&& 0 <= x < tiles_x * tilesize
            &&& 0 <= y < tiles_y * tilesize
            &&& direct_covered(tilesize, x, y)
            &&& direct_source_index(tilesize, tiles_x, x, y) == n
        }),
{
    let rank = n / 1024;
    let ty = rank / tiles_x;
    let place = rank % tiles_x;
    let tx = tile_column(place, ty, tiles_x);
    let odd_row = ty % 2 == 1;
    let (dx, dy) = direct_tile_place(n % 1024, odd_row);
    let (x, y) = direct_destination(tilesize, tiles_x, n);
    lemma_direct_tile_layout(n % 1024, 0, 0, odd_row);
    assert(0 <= rank < tiles_x * tiles_y);
    lemma_fundamental_div_mod(rank, tiles_x);
    assert(0 <= ty < tiles_y && 0 <= place < tiles_x && rank == ty * tiles_x + place)
        by (nonlinear_arith)
        requires
            0 <= rank < tiles_x * tiles_y,
            0 < tiles_x,
            ty == rank / tiles_x,
            place == rank % tiles_x,
            rank == tiles_x * (rank / tiles_x) + rank % tiles_x,
    ;
    assert(0 <= tx < tiles_x);
    lemma_fundamental_div_mod_converse(x, tilesize, tx, dx);
    lemma_fundamental_div_mod_converse(y, tilesize, ty, dy);
    assert(x < tiles_x * tilesize && y < tiles_y * tilesize) by (nonlinear_arith)
        requires
            x == tx * tilesize + dx,
            y == ty * tilesize + dy,
            0 <= tx < tiles_x,
            0 <= ty < tiles_y,
            0 <= dx < 32,
            0 <= dy < 32,
            tilesize >= 32,
    ;
    assert(0 <= tx * tilesize && 0 <= ty * tilesize) by (nonlinear_arith)
        requires
            0 <= tx,
            0 <= ty,
            tilesize >= 32,
    ;
}

/// Each pixel of the stream shows up on the canvas where it lands.
pub proof fn lemma_direct_stream_pixel_is_shown(
    src: Seq<u8>,
    tilesize: int,
    tiles_x: int,
    tiles_y: int,
    n: int,
)
    requires
        tilesize >= 32,
        0 < tiles_x,
        0 <= n < 1024 * (tiles_x * tiles_y),
    ensures
        ({
            let (x, y) = direct_destination(tilesize, tiles_x, n);
            direct_image_pixel(src, tilesize, tiles_x, x, y) == direct_sample(src, n)
        }),
{
    lemma_direct_destination_is_read_back(tilesize, tiles_x, tiles_y, n);
}

/// A canvas pixel inside a tile takes its colour from a pixel of the
/// stream, and that pixel of the stream lands on it.
pub proof fn lemma_direct_source_is_sent_back(
    tilesize: int,
    tiles_x: int,
    tiles_y: int,
    x: int,
    y: int,
)
    requires
        tilesize >= 32,
        0 <= x < tiles_x * tilesize,
        0 <= y < tiles_y * tilesize,
        direct_covered(tilesize, x, y),
    ensures
        0 <= direct_source_index(tilesize, tiles_x, x, y) < 1024 * (tiles_x * tiles_y),
        direct_destination(tilesize, tiles_x, direct_source_index(tilesize, tiles_x, x, y)) == (
            x,
            y,
        ),
{
    let tx = x / tilesize;
    let ty = y / tilesize;
    let dx = x % tilesize;
    let dy = y % tilesize;
    let odd_row = ty % 2 == 1;
    let place = tile_column(tx, ty, tiles_x);
    let rank = tile_rank(tx, ty, tiles_x);
    let p = direct_tile_index(dx, dy, odd_row);
    let n = direct_source_index(tilesize, tiles_x, x, y);
    lemma_direct_tile_layout(0, dx, dy, odd_row);
    lemma_fundamental_div_mod(x, tilesize);
    lemma_fundamental_div_mod(y, tilesize);
    assert(tx * tilesize == x - dx && ty * tilesize == y - dy) by (nonlinear_arith)
        requires
            x == tilesize * tx + dx,
            y == tilesize * ty + dy,
    ;
    assert(0 <= tx < tiles_x) by (nonlinear_arith)
        requires
            tilesize >= 32,
            0 <= x < tiles_x * tilesize,
            x == tilesize * tx + dx,
            0 <= dx < tilesize,
    ;
    assert(0 <= ty < tiles_y) by (nonlinear_arith)
        requires
            tilesize >= 32,
            0 <= y < tiles_y * tilesize,
            y == tilesize * ty + dy,
            0 <= dy < tilesize,
    ;
    assert(0 <= place < tiles_x);
    assert(0 <= rank < tiles_x * tiles_y) by (nonlinear_arith)
        requires
            rank == ty * tiles_x + place,
            0 <= place < tiles_x,
            0 <= ty < tiles_y,
    ;
    assert(n == 1024 * rank + p);
    assert(n / 1024 == rank && n % 1024 == p);
    lemma_fundamental_div_mod_converse(rank, tiles_x, ty, place);
    assert(tile_column(place, ty, tiles_x) == tx);
}

/// With a tile pitch of 32 the tiles cover the canvas, so the traversal is
/// a permutation: every pixel of the stream lands on a pixel of the canvas
/// of its own, and every pixel of the canvas is landed on.
pub proof fn lemma_direct_traversal_is_permutation(tiles_x: int, tiles_y: int)
    requires
        0 <= tiles_x,
        0 <= tiles_y,
    ensures
        forall|n: int|
            0 <= n < 1024 * (tiles_x * tiles_y) ==> ({
                let (x, y) = #[trigger] direct_destination(32, tiles_x, n);
                &&& 0 <= x < tiles_x * 32
                &&& 0 <= y < tiles_y * 32
                &&& direct_source_index(32, tiles_x, x, y) == n
            }),
        forall|x: int, y: int|
            0 <= x < tiles_x * 32 && 0 <= y < tiles_y * 32 ==> ({
                let n = #[trigger] direct_source_index(32, tiles_x, x, y);
                &&& direct_covered(32, x, y)
                &&& 0 <= n < 1024 * (tiles_x * tiles_y)
                &&& direct_destination(32, tiles_x, n) == (x, y)
            }),
{
    assert forall|n: int| 0 <= n < 1024 * (tiles_x * tiles_y) implies ({
        let (x, y) = #[trigger] direct_destination(32, tiles_x, n);
        &&& 0 <= x < tiles_x * 32
        &&& 0 <= y < tiles_y * 32
        &&& direct_source_index(32, tiles_x, x, y) == n
    }) by {
        assert(tiles_x > 0) by (nonlinear_arith)
            requires
                0 <= tiles_x,
                0 < tiles_x * tiles_y,
        ;
        lemma_direct_destination_is_read_back(32, tiles_x, tiles_y, n);
    }
    assert forall|x: int, y: int| 0 <= x < tiles_x * 32 && 0 <= y < tiles_y * 32 implies ({
        let n = #[trigger] direct_source_index(32, tiles_x, x, y);
        &&& direct_covered(32, x, y)
        &&& 0 <= n < 1024 * (tiles_x * tiles_y)
        &&& direct_destination(32, tiles_x, n) == (x, y)
    }) by {
        lemma_direct_source_is_sent_back(32, tiles_x, tiles_y, x, y);
    }
}

} // verus!

//! De-swizzling of 32x32-pixel tiles at a quarter of the resolution.
//!
//! The source is a flat stream of packed `0x__RRGGBB` words. Each run of
//! sixteen words is averaged into one destination pixel, so a tile covers
//! 8x8 pixels of the canvas. Tiles follow one another in serpentine order;
//! within a tile come four quadrants of 4x4 destination pixels, each stored
//! row by row.

use vstd::arithmetic::div_mod::{
    lemma_fundamental_div_mod, lemma_fundamental_div_mod_converse, lemma_mod_mod,
};
use vstd::prelude::*;
use crate::average::{box_average, PixelAverage, SAMPLES_PER_AVERAGE};
use crate::color::black;
use crate::error::DecodeError;
use crate::painting::{
    lemma_all_painted, lemma_four_parts_painted, lemma_nothing_painted, lemma_row_painted,
    lemma_tile_painted, painted_so_far, repainted, Part, TileGrid,
};
use crate::raster::{image_crop, image_new, image_put_pixel, raster_fits, Raster};
use crate::tiling::{
    block_index, lemma_quadrant_order, lemma_slot_in_grid, lemma_slot_of_tile_pixel,
    lemma_slot_starts_before, quadrant_at, quadrant_rank, slot_of, slot_origin, tile_column,
    tile_rank, TILE_SIDE,
};

verus! {

/// The colour of destination pixel `n` of the stream: the mean of its
/// sixteen words.
pub open spec fn averaged_sample(src: Seq<u32>, n: int) -> (u8, u8, u8) {
    box_average(src.subrange(16 * n, 16 * n + 16))
}

/// The place of a destination pixel within the 8x8 pixels of its tile.
pub open spec fn averaged_tile_index(dx: int, dy: int, odd_row: bool) -> int {
    16 * quadrant_rank(dx / 4, dy / 4, odd_row) + block_index(dx % 4, dy % 4)
}

/// Whether the words of `count` destination pixels, from pixel `n` on, can
/// be read.
spec fn words_hold(src: Seq<u32>, n: int, count: int) -> bool {
    16 * (n + count) <= src.len() <= usize::MAX
}

/// Averages the sixteen words of destination pixel `n` into `(x, y)`.
fn avg_16(img: &mut Raster, src: &[u32], n: usize, x: u32, y: u32)
    requires
        words_hold(src@, n as int, 1),
        old(img).contains(x as int, y as int),
    ensures
        repainted(
            *old(img),
            *final(img),
            x as int,
            y as int,
            1,
            1,
            |dx: int, dy: int| averaged_sample(src@, n as int),
        ),
{
    let first: usize = SAMPLES_PER_AVERAGE * n;
    let mut avg = PixelAverage::new();
    let mut k: usize = 0;
    while k < SAMPLES_PER_AVERAGE
        invariant
            k <= 16,
            first == 16 * n,
            first + 16 <= src@.len() <= usize::MAX,
            avg@ == src@.subrange(first as int, first + k),
        decreases 16 - k,
    {
        avg.add(src[first + k]);
        assert(src@.subrange(first as int, first + k + 1) =~= src@.subrange(
            first as int,
            first + k,
        ).push(src@[first + k]));
        k += 1;
    }
    image_put_pixel(img, x, y, avg.rgb());
}

/// Averages four destination pixels into a row starting at `(x, y)`.
fn avg_4_px(img: &mut Raster, src: &[u32], n: usize, x: u32, y: u32)
    requires
        words_hold(src@, n as int, 4),
        x + 4 <= old(img).spec_width() <= u32::MAX,
        y < old(img).spec_height(),
    ensures
        repainted(
            *old(img),
            *final(img),
            x as int,
            y as int,
            4,
            1,
            |dx: int, dy: int| averaged_sample(src@, n + dx),
        ),
{
    let ghost s0 = *img;
    avg_16(img, src, n, x, y);
    let ghost s1 = *img;
    avg_16(img, src, n + 1, x + 1, y);
    let ghost s2 = *img;
    avg_16(img, src, n + 2, x + 2, y);
    let ghost s3 = *img;
    avg_16(img, src, n + 3, x + 3, y);
    proof {
        let whole = |dx: int, dy: int| averaged_sample(src@, n + dx);
        let part = |k: int|
            Part { x: k, y: 0, w: 1, h: 1, cell: |dx: int, dy: int| averaged_sample(src@, n + k) };
        lemma_four_parts_painted(
            (s0, s1, s2, s3, *img),
            (part(0), part(1), part(2), part(3)),
            x as int,
            y as int,
            4,
            1,
            whole,
        );
    }
}

/// Averages a quadrant of 4x4 destination pixels, row by row.
fn avg_4x4_px(img: &mut Raster, src: &[u32], n: usize, x: u32, y: u32)
    requires
        words_hold(src@, n as int, 16),
        x + 4 <= old(img).spec_width() <= u32::MAX,
        y + 4 <= old(img).spec_height() <= u32::MAX,
    ensures
        repainted(
            *old(img),
            *final(img),
            x as int,
            y as int,
            4,
            4,
            |dx: int, dy: int| averaged_sample(src@, n + block_index(dx, dy)),
        ),
{
    let ghost s0 = *img;
    avg_4_px(img, src, n, x, y);
    let ghost s1 = *img;
    avg_4_px(img, src, n + 4, x, y + 1);
    let ghost s2 = *img;
    avg_4_px(img, src, n + 8, x, y + 2);
    let ghost s3 = *img;
    avg_4_px(img, src, n + 12, x, y + 3);
    proof {
        let whole = |dx: int, dy: int| averaged_sample(src@, n + block_index(dx, dy));
        let part = |k: int|
            Part {
                x: 0,
                y: k,
                w: 4,
                h: 1,
                cell: |dx: int, dy: int| averaged_sample(src@, n + 4 * k + dx),
            };
        lemma_four_parts_painted(
            (s0, s1, s2, s3, *img),
            (part(0), part(1), part(2), part(3)),
            x as int,
            y as int,
            4,
            4,
            whole,
        );
    }
}

/// The destination pixels of the quadrant stored in place `k` of a tile
/// follow one another from place `16 * k` of the tile on.
proof fn lemma_quadrant_of_tile(k: int, dx: int, dy: int, odd_row: bool)
    requires
        0 <= k < 4,
        4 * quadrant_at(k, odd_row).0 <= dx < 4 * quadrant_at(k, odd_row).0 + 4,
        4 * quadrant_at(k, odd_row).1 <= dy < 4 * quadrant_at(k, odd_row).1 + 4,
    ensures
        0 <= dx < 8,
        0 <= dy < 8,
        averaged_tile_index(dx, dy, odd_row) == 16 * k + block_index(
            dx - 4 * quadrant_at(k, odd_row).0,
            dy - 4 * quadrant_at(k, odd_row).1,
        ),
{
    let (qx, qy) = quadrant_at(k, odd_row);
    lemma_quadrant_order(k, 0, 0, odd_row);
    lemma_fundamental_div_mod_converse(dx, 4, qx, dx - 4 * qx);
    lemma_fundamental_div_mod_converse(dy, 4, qy, dy - 4 * qy);
}

/// Whether painting the quadrant stored in place `k` of the tile at
/// `(x, y)` turns `before` into `after`.
spec fn quadrant_painted(
    before: Raster,
    after: Raster,
    src: Seq<u32>,
    n: int,
    x: int,
    y: int,
    k: int,
    odd_row: bool,
) -> bool {
    repainted(
        before,
        after,
        x + 4 * quadrant_at(k, odd_row).0,
        y + 4 * quadrant_at(k, odd_row).1,
        4,
        4,
        |dx: int, dy: int| averaged_sample(src, n + 16 * k + block_index(dx, dy)),
    )
}

/// Four quadrants painted in the order of their tile row make the tile.
proof fn lemma_tile_assembled(
    states: (Raster, Raster, Raster, Raster, Raster),
    src: Seq<u32>,
    n: int,
    x: int,
    y: int,
    odd_row: bool,
)
    requires
        quadrant_painted(states.0, states.1, src, n, x, y, 0, odd_row),
        quadrant_painted(states.1, states.2, src, n, x, y, 1, odd_row),
        quadrant_painted(states.2, states.3, src, n, x, y, 2, odd_row),
        quadrant_painted(states.3, states.4, src, n, x, y, 3, odd_row),
    ensures
        repainted(
            states.0,
            states.4,
            x,
            y,
            8,
            8,
            |dx: int, dy: int| averaged_sample(src, n + averaged_tile_index(dx, dy, odd_row)),
        ),
{
    let whole = |dx: int, dy: int| averaged_sample(src, n + averaged_tile_index(dx, dy, odd_row));
    let part = |k: int|
        Part {
            x: 4 * quadrant_at(k, odd_row).0,
            y: 4 * quadrant_at(k, odd_row).1,
            w: 4,
            h: 4,
            cell: |dx: int, dy: int| averaged_sample(src, n + 16 * k + block_index(dx, dy)),
        };
    assert forall|k: int, dx: int, dy: int| 0 <= k < 4 && #[trigger] part(k).holds(
        dx,
        dy,
    ) implies 0 <= dx < 8 && 0 <= dy < 8 && whole(dx, dy) == (part(k).cell)(
        dx - part(k).x,
        dy - part(k).y,
    ) by {
        lemma_quadrant_of_tile(k, dx, dy, odd_row);
    }
    assert forall|dx: int, dy: int| 0 <= dx < 8 && 0 <= dy < 8 implies #[trigger] part(0).holds(
        dx,
        dy,
    ) || part(1).holds(dx, dy) || part(2).holds(dx, dy) || part(3).holds(dx, dy) by {
        lemma_quadrant_order(0, dx / 4, dy / 4, odd_row);
        assert(part(quadrant_rank(dx / 4, dy / 4, odd_row)).holds(dx, dy));
    }
    lemma_four_parts_painted(states, (part(0), part(1), part(2), part(3)), x, y, 8, 8, whole);
}

/// Averages a tile of four quadrants, in the order of its tile row.
fn avg_tile(img: &mut Raster, src: &[u32], n: usize, x: u32, y: u32, odd_row: bool)
    requires
        words_hold(src@, n as int, 64),
        x + 8 <= old(img).spec_width() <= u32::MAX,
        y + 8 <= old(img).spec_height() <= u32::MAX,
    ensures
        repainted(
            *old(img),
            *final(img),
            x as int,
            y as int,
            8,
            8,
            |dx: int, dy: int| averaged_sample(src@, n + averaged_tile_index(dx, dy, odd_row)),
        ),
{
    let ghost s0 = *img;
    let ghost s1;
    let ghost s2;
    let ghost s3;
    if odd_row {
        avg_4x4_px(img, src, n, x + 4, y + 4);
        proof {
            s1 = *img;
        }
        avg_4x4_px(img, src, n + 16, x + 4, y);
        proof {
            s2 = *img;
        }
        avg_4x4_px(img, src, n + 32, x, y);
        proof {
            s3 = *img;
        }
        avg_4x4_px(img, src, n + 48, x, y + 4);
    } else {
        avg_4x4_px(img, src, n, x, y);
        proof {
            s1 = *img;
        }
        avg_4x4_px(img, src, n + 16, x, y + 4);
        proof {
            s2 = *img;
        }
        avg_4x4_px(img, src, n + 32, x + 4, y + 4);
        proof {
            s3 = *img;
        }
        avg_4x4_px(img, src, n + 48, x + 4, y);
    }
    proof {
        lemma_tile_assembled((s0, s1, s2, s3, *img), src@, n as int, x as int, y as int, odd_row);
    }
}

/// The number of destination pixels in one tile.
pub const TILE_AVERAGES: usize = 64;

/// Whether canvas pixel `(x, y)` lies inside a tile rather than in the
/// part of a slot that its tile leaves free. Slots are a quarter of the
/// tile pitch long.
pub open spec fn averaged_covered(tilesize: int, x: int, y: int) -> bool {
    &&& x - slot_origin(slot_of(x, tilesize, 4), tilesize, 4) < 8
    &&& y - slot_origin(slot_of(y, tilesize, 4), tilesize, 4) < 8
}

/// The place in the stream of the destination pixel that lands on `(x, y)`
/// of the canvas, for a pixel inside a tile.
pub open spec fn averaged_source_index(tilesize: int, tiles_x: int, x: int, y: int) -> int {
    let tx = slot_of(x, tilesize, 4);
    let ty = slot_of(y, tilesize, 4);
    64 * tile_rank(tx, ty, tiles_x) + averaged_tile_index(
        x - slot_origin(tx, tilesize, 4),
        y - slot_origin(ty, tilesize, 4),
        ty % 2 == 1,
    )
}

/// What the canvas holds at `(x, y)`: inside a tile the mean of the sixteen
/// words that belong there, elsewhere black.
pub open spec fn averaged_image_pixel(
    src: Seq<u32>,
    tilesize: int,
    tiles_x: int,
    x: int,
    y: int,
) -> (u8, u8, u8) {
    if averaged_covered(tilesize, x, y) {
        averaged_sample(src, averaged_source_index(tilesize, tiles_x, x, y))
    } else {
        black()
    }
}

/// The grid of an averaged copy: four source pixels per canvas pixel along
/// each axis.
spec fn averaged_grid(tilesize: int, tiles_x: int, tiles_y: int) -> TileGrid {
    TileGrid { tilesize, shrink: 4, extent: 8, tiles_x, tiles_y }
}

/// The colour of each destination pixel of each tile, by the tile's rank.
spec fn averaged_cell(src: Seq<u32>) -> spec_fn(int, int, int, bool) -> (u8, u8, u8) {
    |rank: int, dx: int, dy: int, odd_row: bool|
        averaged_sample(src, 64 * rank + averaged_tile_index(dx, dy, odd_row))
}

/// Whether the canvas of a grid of `tiles` tiles with pitch `tilesize` can
/// exist and be cropped to a quarter of `size`: each tile fits its slot, the
/// sides of the canvas fit `u32`, the canvas can be allocated, and the crop
/// lies inside it.
pub open spec fn averaged_canvas_fits(tilesize: u32, tiles: (u32, u32), size: (u32, u32)) -> bool {
    &&& tiles.0 > 0 && tiles.1 > 0 ==> tilesize >= TILE_SIDE
    &&& tiles.0 * tilesize / 4 <= u32::MAX
    &&& tiles.1 * tilesize / 4 <= u32::MAX
    &&& raster_fits(tiles.0 * tilesize / 4, tiles.1 * tilesize / 4)
    &&& size.0 / 4 <= tiles.0 * tilesize / 4
    &&& size.1 / 4 <= tiles.1 * tilesize / 4
}

/// Whether a stream of `len` words holds every tile of the grid.
pub open spec fn averaged_stream_fits(len: int, tiles: (u32, u32)) -> bool {
    tiles.0 > 0 && tiles.1 > 0 ==> 16 * (64 * (tiles.0 * tiles.1)) <= len
}

/// Rebuilds a quarter-resolution image from a stream of 32x32 tiles and
/// crops it to a quarter of `size`.
///
/// The canvas is `tiles.0 * tilesize / 4` by `tiles.1 * tilesize / 4`; tile
/// `(tx, ty)` goes to `(tx * tilesize / 4, ty * tilesize / 4)`.
pub fn decode_tiled_small_image(
    mapping: &[u32],
    tilesize: u32,
    tiles: (u32, u32),
    size: (u32, u32),
) -> (img: Raster)
    requires
        averaged_canvas_fits(tilesize, tiles, size),
        averaged_stream_fits(mapping@.len() as int, tiles),
    ensures
        img.shows(
            size.0 as int / 4,
            size.1 as int / 4,
            |x: int, y: int| averaged_image_pixel(mapping@, tilesize as int, tiles.0 as int, x, y),
        ),
{
    let width: u32 = (tiles.0 as u64 * tilesize as u64 / 4) as u32;
    let height: u32 = (tiles.1 as u64 * tilesize as u64 / 4) as u32;
    let len: usize = mapping.len();
    let mut img = image_new(width, height);
    let ghost grid = averaged_grid(tilesize as int, tiles.0 as int, tiles.1 as int);
    let ghost cell = averaged_cell(mapping@);
    let mut n: usize = 0;

    proof {
        assert(grid.width() == width && grid.height() == height);
        lemma_nothing_painted(img, grid, cell);
    }

    let mut ytile: u32 = 0;
    while ytile < tiles.1
        invariant
            ytile <= tiles.1,
            grid == averaged_grid(tilesize as int, tiles.0 as int, tiles.1 as int),
            cell == averaged_cell(mapping@),
            grid.wf(),
            grid.width() == width,
            grid.height() == height,
            len == mapping@.len(),
            averaged_stream_fits(len as int, tiles),
            n == 64 * (ytile * tiles.0),
            painted_so_far(img, grid, cell, ytile as int, 0),
        decreases tiles.1 - ytile,
    {
        let odd_row: bool = ytile % 2 == 1;
        let mut place: u32 = 0;
        while place < tiles.0
            invariant
                place <= tiles.0,
                ytile < tiles.1,
                odd_row == (ytile % 2 == 1),
                grid == averaged_grid(tilesize as int, tiles.0 as int, tiles.1 as int),
                cell == averaged_cell(mapping@),
                grid.wf(),
                grid.width() == width,
                grid.height() == height,
                len == mapping@.len(),
                averaged_stream_fits(len as int, tiles),
                n == 64 * (ytile * tiles.0 + place),
                painted_so_far(img, grid, cell, ytile as int, place as int),
            decreases tiles.0 - place,
        {
            let xtile: u32 = if odd_row {
                tiles.0 - 1 - place
            } else {
                place
            };
            proof {
                assert(xtile == tile_column(place as int, ytile as int, tiles.0 as int));
                assert(xtile * tilesize / 4 + 8 <= tiles.0 * tilesize / 4) by (nonlinear_arith)
                    requires
                        0 <= xtile < tiles.0,
                        tilesize >= 32,
                ;
                assert(ytile * tilesize / 4 + 8 <= tiles.1 * tilesize / 4) by (nonlinear_arith)
                    requires
                        0 <= ytile < tiles.1,
                        tilesize >= 32,
                ;
                assert(0 <= xtile * tilesize && 0 <= ytile * tilesize) by (nonlinear_arith);
                assert(ytile * tiles.0 + place + 1 <= tiles.0 * tiles.1) by (nonlinear_arith)
                    requires
                        0 <= ytile < tiles.1,
                        0 <= place < tiles.0,
                ;
            }
            let x: u32 = (xtile as u64 * tilesize as u64 / 4) as u32;
            let y: u32 = (ytile as u64 * tilesize as u64 / 4) as u32;
            let ghost before = img;
            avg_tile(&mut img, mapping, n, x, y, odd_row);
            proof {
                lemma_tile_painted(before, img, grid, cell, ytile as int, place as int);
            }
            n += TILE_AVERAGES;
            place += 1;
        }
        proof {
            lemma_row_painted(img, grid, cell, ytile as int);
            assert((ytile + 1) * tiles.0 == ytile * tiles.0 + tiles.0) by (nonlinear_arith);
        }
        ytile += 1;
    }

    proof {
        lemma_all_painted(img, grid, cell);
        assert(raster_fits(size.0 as int / 4, size.1 as int / 4)) by (nonlinear_arith)
            requires
                0 <= size.0 as int / 4 <= width,
                0 <= size.1 as int / 4 <= height,
                raster_fits(width as int, height as int),
        ;
    }
    image_crop(img, size.0 / 4, size.1 / 4)
}

/// Whether the canvas of a grid can exist and be cropped to a quarter of
/// `size`.
pub fn averaged_canvas_has_room(tilesize: u32, tiles: (u32, u32), size: (u32, u32)) -> (ok: bool)
    ensures
        ok == averaged_canvas_fits(tilesize, tiles, size),
{
    assert(tiles.0 * tilesize <= 0xFFFF_FFFF * 0xFFFF_FFFF && tiles.1 * tilesize <= 0xFFFF_FFFF
        * 0xFFFF_FFFF) by (nonlinear_arith);
    let width: u64 = tiles.0 as u64 * tilesize as u64 / 4;
    let height: u64 = tiles.1 as u64 * tilesize as u64 / 4;
    if tiles.0 > 0 && tiles.1 > 0 && tilesize < TILE_SIDE {
        return false;
    }
    if width > u32::MAX as u64 || height > u32::MAX as u64 {
        return false;
    }
    Raster::fits(width as u32, height as u32) && (size.0 / 4) as u64 <= width && (size.1 / 4) as u64
        <= height
}

/// Whether a stream of `len` words holds every tile of the grid.
pub fn averaged_stream_has_room(len: usize, tiles: (u32, u32)) -> (ok: bool)
    ensures
        ok == averaged_stream_fits(len as int, tiles),
{
    if tiles.0 == 0 || tiles.1 == 0 {
        return true;
    }
    assert(0 < tiles.0 * tiles.1 <= 0xFFFF_FFFF * 0xFFFF_FFFF) by (nonlinear_arith)
        requires
            0 < tiles.0 <= 0xFFFF_FFFF,
            0 < tiles.1 <= 0xFFFF_FFFF,
    ;
    let averages: u128 = 64 * (tiles.0 as u128 * tiles.1 as u128);
    16 * averages <= len as u128
}

/// Rebuilds a quarter-resolution image from a stream of 32x32 tiles and
/// crops it to a quarter of `size`, after making sure that the canvas can
/// exist and the stream holds every tile.
pub fn detile_averaged(buffer: &[u32], tile_size: u32, tiles: (u32, u32), size: (u32, u32)) -> (res:
    Result<Raster, DecodeError>)
    ensures
        res matches Ok(img) ==> img.shows(
            size.0 as int / 4,
            size.1 as int / 4,
            |x: int, y: int| averaged_image_pixel(buffer@, tile_size as int, tiles.0 as int, x, y),
        ),
        res is Ok <==> averaged_canvas_fits(tile_size, tiles, size) && averaged_stream_fits(
            buffer@.len() as int,
            tiles,
        ),
        res matches Err(e) ==> (e == DecodeError::InvalidGeometry <==> !averaged_canvas_fits(
            tile_size,
            tiles,
            size,
        )),
{
    if !averaged_canvas_has_room(tile_size, tiles, size) {
        return Err(DecodeError::InvalidGeometry);
    }
    if !averaged_stream_has_room(buffer.len(), tiles) {
        return Err(DecodeError::BufferTooSmall);
    }
    Ok(decode_tiled_small_image(buffer, tile_size, tiles, size))
}

/// With the tile pitch of 32 a slot is as long as a tile: slot `k` starts
/// at `8 * k` and holds the pixels up to `8 * k + 7`.
pub proof fn lemma_standard_slots(k: int, x: int)
    ensures
        slot_origin(k, 32, 4) == 8 * k,
        slot_of(x, 32, 4) == x / 8,
{
}

/// Where the destination pixel in place `p` of a tile lies within the
/// tile.
pub open spec fn averaged_tile_place(p: int, odd_row: bool) -> (int, int) {
    let (qx, qy) = quadrant_at(p / 16, odd_row);
    (4 * qx + p % 4, 4 * qy + (p % 16) / 4)
}

/// Where destination pixel `n` of the stream lands on the canvas.
pub open spec fn averaged_destination(tilesize: int, tiles_x: int, n: int) -> (int, int) {
    let rank = n / 64;
    let ty = rank / tiles_x;
    let tx = tile_column(rank % tiles_x, ty, tiles_x);
    let (dx, dy) = averaged_tile_place(n % 64, ty % 2 == 1);
    (slot_origin(tx, tilesize, 4) + dx, slot_origin(ty, tilesize, 4) + dy)
}

/// Within a tile, places and destination pixels correspond one to one.
pub proof fn lemma_averaged_tile_layout(p: int, dx: int, dy: int, odd_row: bool)
    requires
        0 <= p < 64,
        0 <= dx < 8,
        0 <= dy < 8,
    ensures
        0 <= averaged_tile_place(p, odd_row).0 < 8,
        0 <= averaged_tile_place(p, odd_row).1 < 8,
        averaged_tile_index(
            averaged_tile_place(p, odd_row).0,
            averaged_tile_place(p, odd_row).1,
            odd_row,
        ) == p,
        0 <= averaged_tile_index(dx, dy, odd_row) < 64,
        averaged_tile_place(averaged_tile_index(dx, dy, odd_row), odd_row) == (dx, dy),
{
    lemma_quadrant_order(p / 16, dx / 4, dy / 4, odd_row);
    let (qx, qy) = quadrant_at(p / 16, odd_row);
    let col = p % 4;
    let row = (p % 16) / 4;
    lemma_fundamental_div_mod_converse(4 * qx + col, 4, qx, col);
    lemma_fundamental_div_mod_converse(4 * qy + row, 4, qy, row);
    assert((p % 16) % 4 == p % 4) by {
        lemma_mod_mod(p, 4, 4);
    }
    assert(p == 16 * (p / 16) + 4 * row + col);
    let rank = quadrant_rank(dx / 4, dy / 4, odd_row);
    let within = block_index(dx % 4, dy % 4);
    let index = 16 * rank + within;
    lemma_fundamental_div_mod_converse(index, 16, rank, within);
    lemma_fundamental_div_mod_converse(within, 4, dy % 4, dx % 4);
    lemma_fundamental_div_mod_converse(index, 4, 4 * rank + dy % 4, dx % 4);
}

/// Destination pixel `n` of the stream lands inside a tile of the canvas,
/// and the pixel that the canvas takes from the stream for that spot is
/// pixel `n`.
pub proof fn lemma_averaged_destination_is_read_back(
    tilesize: int,
    tiles_x: int,
    tiles_y: int,
    n: int,
)
    requires
        tilesize >= 32,
        0 < tiles_x,
        0 <= n < 64 * (tiles_x * tiles_y),
    ensures
        ({
            let (x, y) = averaged_destination(tilesize, tiles_x, n);
            &&& 0 <= x < slot_origin(tiles_x, tilesize, 4)
            &&& 0 <= y < slot_origin(tiles_y, tilesize, 4)
            &&& averaged_covered(tilesize, x, y)
            &&& averaged_source_index(tilesize, tiles_x, x, y) == n
        }),
{
    let rank = n / 64;
    let ty = rank / tiles_x;
    let place = rank % tiles_x;
    let tx = tile_column(place, ty, tiles_x);
    let odd_row = ty % 2 == 1;
    let (dx, dy) = averaged_tile_place(n % 64, odd_row);
    let (x, y) = averaged_destination(tilesize, tiles_x, n);
    lemma_averaged_tile_layout(n % 64, 0, 0, odd_row);
    assert(0 <= rank < tiles_x * tiles_y);
    lemma_fundamental_div_mod(rank, tiles_x);
    assert(0 <= ty < tiles_y && 0 <= place < tiles_x && rank == ty * tiles_x + place)
        by (nonlinear_arith)
        requires
            0 <= rank < tiles_x * tiles_y,
            0 < tiles_x,
            ty == rank / tiles_x,
            place == rank % tiles_x,
            rank == tiles_x * (rank / tiles_x) + rank % tiles_x,
    ;
    assert(0 <= tx < tiles_x);
    lemma_slot_of_tile_pixel(tx, dx, tilesize, 4, 8);
    lemma_slot_of_tile_pixel(ty, dy, tilesize, 4, 8);
    lemma_tile_inside_canvas(tx, tiles_x, tilesize);
    lemma_tile_inside_canvas(ty, tiles_y, tilesize);
}

/// Each destination pixel of the stream shows up on the canvas where it
/// lands.
pub proof fn lemma_averaged_stream_pixel_is_shown(
    src: Seq<u32>,
    tilesize: int,
    tiles_x: int,
    tiles_y: int,
    n: int,
)
    requires
        tilesize >= 32,
        0 < tiles_x,
        0 <= n < 64 * (tiles_x * tiles_y),
    ensures
        ({
            let (x, y) = averaged_destination(tilesize, tiles_x, n);
            averaged_image_pixel(src, tilesize, tiles_x, x, y) == averaged_sample(src, n)
        }),
{
    lemma_averaged_destination_is_read_back(tilesize, tiles_x, tiles_y, n);
}

/// A tile of a grid of `tiles` slots ends inside the canvas and starts at
/// or after its edge.
proof fn lemma_tile_inside_canvas(k: int, tiles: int, tilesize: int)
    requires
        tilesize >= 32,
        0 <= k < tiles,
    ensures
        0 <= slot_origin(k, tilesize, 4),
        slot_origin(k, tilesize, 4) + 8 <= slot_origin(tiles, tilesize, 4),
{
    assert(0 <= k * tilesize && k * tilesize + 32 <= tiles * tilesize) by (nonlinear_arith)
        requires
            tilesize >= 32,
            0 <= k < tiles,
    ;
}

/// A canvas pixel inside a tile takes its colour from a destination pixel
/// of the stream, and that pixel of the stream lands on it.
pub proof fn lemma_averaged_source_is_sent_back(
    tilesize: int,
    tiles_x: int,
    tiles_y: int,
    x: int,
    y: int,
)
    requires
        tilesize >= 32,
        0 <= x < slot_origin(tiles_x, tilesize, 4),
        0 <= y < slot_origin(tiles_y, tilesize, 4),
        averaged_covered(tilesize, x, y),
    ensures
        0 <= averaged_source_index(tilesize, tiles_x, x, y) < 64 * (tiles_x * tiles_y),
        averaged_destination(tilesize, tiles_x, averaged_source_index(tilesize, tiles_x, x, y))
            == (x, y),
{
    let tx = slot_of(x, tilesize, 4);
    let ty = slot_of(y, tilesize, 4);
    let dx = x - slot_origin(tx, tilesize, 4);
    let dy = y - slot_origin(ty, tilesize, 4);
    let odd_row = ty % 2 == 1;
    let place = tile_column(tx, ty, tiles_x);
    let rank = tile_rank(tx, ty, tiles_x);
    let p = averaged_tile_index(dx, dy, odd_row);
    let n = averaged_source_index(tilesize, tiles_x, x, y);
    lemma_slot_in_grid(x, tiles_x, tilesize, 4);
    lemma_slot_in_grid(y, tiles_y, tilesize, 4);
    lemma_slot_starts_before(x, tilesize, 4);
    lemma_slot_starts_before(y, tilesize, 4);
    lemma_averaged_tile_layout(0, dx, dy, odd_row);
    assert(0 <= place < tiles_x);
    assert(0 <= rank < tiles_x * tiles_y) by (nonlinear_arith)
        requires
            rank == ty * tiles_x + place,
            0 <= place < tiles_x,
            0 <= ty < tiles_y,
    ;
    assert(n == 64 * rank + p);
    assert(n / 64 == rank && n % 64 == p);
    lemma_fundamental_div_mod_converse(rank, tiles_x, ty, place);
    assert(tile_column(place, ty, tiles_x) == tx);
}

/// With a tile pitch of 32 the tiles cover the canvas, so the traversal is
/// a permutation: every destination pixel of the stream lands on a pixel of
/// the canvas of its own, and every pixel of the canvas is landed on.
pub proof fn lemma_averaged_traversal_is_permutation(tiles_x: int, tiles_y: int)
    requires
        0 <= tiles_x,
        0 <= tiles_y,
    ensures
        forall|n: int|
            0 <= n < 64 * (tiles_x * tiles_y) ==> ({
                let (x, y) = #[trigger] averaged_destination(32, tiles_x, n);
                &&& 0 <= x < 8 * tiles_x
                &&& 0 <= y < 8 * tiles_y
                &&& averaged_source_index(32, tiles_x, x, y) == n
            }),
        forall|x: int, y: int|
            0 <= x < 8 * tiles_x && 0 <= y < 8 * tiles_y ==> ({
                let n = #[trigger] averaged_source_index(32, tiles_x, x, y);
                &&& averaged_covered(32, x, y)
                &&& 0 <= n < 64 * (tiles_x * tiles_y)
                &&& averaged_destination(32, tiles_x, n) == (x, y)
            }),
{
    assert forall|n: int| 0 <= n < 64 * (tiles_x * tiles_y) implies ({
        let (x, y) = #[trigger] averaged_destination(32, tiles_x, n);
        &&& 0 <= x < 8 * tiles_x
        &&& 0 <= y < 8 * tiles_y
        &&& averaged_source_index(32, tiles_x, x, y) == n
    }) by {
        assert(tiles_x > 0) by (nonlinear_arith)
            requires
                0 <= tiles_x,
                0 < tiles_x * tiles_y,
        ;
        lemma_averaged_destination_is_read_back(32, tiles_x, tiles_y, n);
    }
    assert forall|x: int, y: int| 0 <= x < 8 * tiles_x && 0 <= y < 8 * tiles_y implies ({
        let n = #[trigger] averaged_source_index(32, tiles_x, x, y);
        &&& averaged_covered(32, x, y)
        &&& 0 <= n < 64 * (tiles_x * tiles_y)
        &&& averaged_destination(32, tiles_x, n) == (x, y)
    }) by {
        lemma_averaged_source_is_sent_back(32, tiles_x, tiles_y, x, y);
    }
}

} // verus!

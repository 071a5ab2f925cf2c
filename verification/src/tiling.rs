//! The layout shared by the two de-swizzling decoders: where the slots of
//! the tile grid lie on the canvas, and in which order tiles and quadrants
//! follow one another in the stream.

use vstd::prelude::*;

verus! {

/// The side of a tile, in source pixels.
pub const TILE_SIDE: u32 = 32;

/// The left (or top) edge of slot `k` of the tile grid along one axis of
/// the canvas. A slot is `tilesize / shrink` canvas pixels long, and edges
/// are rounded down.
pub open spec fn slot_origin(k: int, tilesize: int, shrink: int) -> int {
    k * tilesize / shrink
}

/// The slot that holds canvas column (or row) `x`: the last one whose edge
/// is not beyond `x`.
pub open spec fn slot_of(x: int, tilesize: int, shrink: int) -> int {
    (shrink * x + shrink - 1) / tilesize
}

proof fn lemma_floor_le(a: int, s: int, x: int)
    by (nonlinear_arith)
    requires
        s > 0,
    ensures
        a / s <= x <==> a <= s * x + s - 1,
{
}

proof fn lemma_le_floor(k: int, n: int, t: int)
    by (nonlinear_arith)
    requires
        t > 0,
    ensures
        k <= n / t <==> k * t <= n,
{
}

/// Slot `k` starts at or before `x` exactly when it is not beyond the slot
/// of `x`.
pub proof fn lemma_slot_order(k: int, x: int, tilesize: int, shrink: int)
    requires
        tilesize > 0,
        shrink > 0,
    ensures
        slot_origin(k, tilesize, shrink) <= x <==> k <= slot_of(x, tilesize, shrink),
{
    lemma_floor_le(k * tilesize, shrink, x);
    lemma_le_floor(k, shrink * x + shrink - 1, tilesize);
}

/// Slots are at least a tile long, so the first `extent` pixels of slot `k`
/// belong to it and to no other slot.
pub proof fn lemma_slot_of_tile_pixel(k: int, d: int, tilesize: int, shrink: int, extent: int)
    requires
        shrink > 0,
        extent > 0,
        tilesize >= extent * shrink,
        0 <= d < extent,
    ensures
        slot_of(slot_origin(k, tilesize, shrink) + d, tilesize, shrink) == k,
{
    assert(tilesize > 0) by (nonlinear_arith)
        requires
            shrink > 0,
            extent > 0,
            tilesize >= extent * shrink,
    ;
    let origin = slot_origin(k, tilesize, shrink);
    let x = origin + d;
    lemma_slot_order(k, x, tilesize, shrink);
    lemma_slot_order(k + 1, x, tilesize, shrink);
    lemma_floor_le(k * tilesize, shrink, origin - 1);
    lemma_floor_le((k + 1) * tilesize, shrink, x);
    assert((k + 1) * tilesize > shrink * x + shrink - 1) by (nonlinear_arith)
        requires
            k * tilesize > shrink * (origin - 1) + shrink - 1,
            x == origin + d,
            d < extent,
            shrink > 0,
            tilesize >= extent * shrink,
    ;
}

/// A canvas pixel lies at or after the edge of its own slot.
pub proof fn lemma_slot_starts_before(x: int, tilesize: int, shrink: int)
    requires
        tilesize > 0,
        shrink > 0,
    ensures
        slot_origin(slot_of(x, tilesize, shrink), tilesize, shrink) <= x,
{
    lemma_slot_order(slot_of(x, tilesize, shrink), x, tilesize, shrink);
}

/// Every pixel of a canvas of `tiles` slots lies in one of those slots.
pub proof fn lemma_slot_in_grid(x: int, tiles: int, tilesize: int, shrink: int)
    requires
        tilesize > 0,
        shrink > 0,
        0 <= x < slot_origin(tiles, tilesize, shrink),
    ensures
        0 <= slot_of(x, tilesize, shrink) < tiles,
{
    lemma_slot_order(0, x, tilesize, shrink);
    lemma_slot_order(tiles, x, tilesize, shrink);
    assert(0 * tilesize / shrink == 0) by (nonlinear_arith)
        requires
            shrink > 0,
    ;
}

/// The place of a pixel within a 4x4 block stored row by row.
pub open spec fn block_index(dx: int, dy: int) -> int {
    4 * dy + dx
}

/// The place of a quadrant in the order in which a tile's four quadrants
/// are stored. `qx` and `qy` are 0 or 1: left or right, top or bottom.
/// In an even tile row the order is top left, bottom left, bottom right,
/// top right; in an odd one it starts two steps later.
pub open spec fn quadrant_rank(qx: int, qy: int, odd_row: bool) -> int {
    let even_rank: int = if qx == 0 {
        if qy == 0 {
            0
        } else {
            1
        }
    } else {
        if qy == 0 {
            3
        } else {
            2
        }
    };
    if odd_row {
        (even_rank + 2) % 4
    } else {
        even_rank
    }
}

/// The quadrant stored in place `rank` of a tile, as `(qx, qy)`: the way
/// back from `quadrant_rank`.
pub open spec fn quadrant_at(rank: int, odd_row: bool) -> (int, int) {
    let even_rank = if odd_row {
        (rank + 2) % 4
    } else {
        rank
    };
    if even_rank == 0 {
        (0, 0)
    } else if even_rank == 1 {
        (0, 1)
    } else if even_rank == 2 {
        (1, 1)
    } else {
        (1, 0)
    }
}

/// Each of the four places in a tile holds one quadrant, and each quadrant
/// has one place.
pub proof fn lemma_quadrant_order(rank: int, qx: int, qy: int, odd_row: bool)
    requires
        0 <= rank < 4,
        0 <= qx < 2,
        0 <= qy < 2,
    ensures
        0 <= quadrant_at(rank, odd_row).0 < 2,
        0 <= quadrant_at(rank, odd_row).1 < 2,
        quadrant_rank(quadrant_at(rank, odd_row).0, quadrant_at(rank, odd_row).1, odd_row)
            == rank,
        0 <= quadrant_rank(qx, qy, odd_row) < 4,
        quadrant_at(quadrant_rank(qx, qy, odd_row), odd_row) == (qx, qy),
{
}

/// The serpentine order of a tile row: even rows run left to right, odd
/// rows right to left. This maps the place in the row to the column and,
/// being its own inverse, the column to the place.
pub open spec fn tile_column(place: int, ty: int, tiles_x: int) -> int {
    if ty % 2 == 0 {
        place
    } else {
        tiles_x - 1 - place
    }
}

/// The place of tile `(tx, ty)` in the order in which the tiles are stored.
pub open spec fn tile_rank(tx: int, ty: int, tiles_x: int) -> int {
    ty * tiles_x + tile_column(tx, ty, tiles_x)
}

} // verus!

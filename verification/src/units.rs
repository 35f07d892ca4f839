//! Fixed-point lengths: positions, sizes and velocities are whole numbers of
//! thousandths of a tile.

use vstd::prelude::*;

verus! {

/// Length of one tile edge.
pub const UNITS_PER_TILE: i64 = 1000;

/// The smallest distance the movement code distinguishes. A rectangle's far
/// edges are pulled in by this much before they are mapped to a tile, and a
/// blocked sweep steps back by this much from the obstacle.
pub const EPSILON: i64 = 1;

/// Largest magnitude of a position, size or velocity that the movement code
/// accepts: a position, a size and a velocity added up stay inside
/// `SPAN_LIMIT`.
pub const COORD_LIMIT: i64 = 700_000_000_000;

/// Largest magnitude of a coordinate whose tile index fits `i32`.
pub const SPAN_LIMIT: i64 = 2_147_483_647_000;

/// The index of the tile that contains the coordinate `p` (floor of `p / 1000`).
pub open spec fn tile_of(p: int) -> int {
    p / 1000
}

/// Coordinate of the low edge of tile `t`.
pub open spec fn tile_origin(t: int) -> int {
    t * 1000
}

/// True for a number of magnitude at most `COORD_LIMIT`.
pub open spec fn in_limit(p: int) -> bool {
    -700_000_000_000 <= p <= 700_000_000_000
}

/// True for a rectangle of positive size whose every point has a tile index
/// that fits `i32`.
pub open spec fn rect_in_span(x: int, y: int, w: int, h: int) -> bool {
    &&& 0 < w
    &&& 0 < h
    &&& -2_147_483_647_000 <= x
    &&& x + w <= 2_147_483_647_000
    &&& -2_147_483_647_000 <= y
    &&& y + h <= 2_147_483_647_000
}

/// A coordinate lies in tile `t` if it lies between the tile's low edge and
/// the next tile's.
pub proof fn lemma_tile_of_unique(p: int, t: int)
    requires
        tile_origin(t) <= p < tile_origin(t) + 1000,
    ensures
        tile_of(p) == t,
{
}

/// Tile index of a coordinate, rounding towards negative infinity. The
/// coordinate may lie up to one tile below `-SPAN_LIMIT`: that tile is the
/// lowest index of `i32`.
pub fn tile_index(p: i64) -> (t: i32)
    requires
        -SPAN_LIMIT - UNITS_PER_TILE <= p <= SPAN_LIMIT,
    ensures
        t == tile_of(p as int),
{
    let q: i64 = if p >= 0 {
        p / UNITS_PER_TILE
    } else {
        -((UNITS_PER_TILE - 1 - p) / UNITS_PER_TILE)
    };
    proof {
        lemma_tile_of_unique(p as int, q as int);
    }
    q as i32
}

} // verus!

//! The query interface that movement code uses to look at a tile world.

use vstd::prelude::*;
use crate::tiles::{BaseTile, OverlayTile};
use crate::units::{rect_in_span, tile_index, tile_of};

verus! {

/// What every cell outside a world's claimed area reads as: solid, no overlay.
pub open spec fn outside_cell() -> (BaseTile, OverlayTile) {
    (BaseTile::NotPartOfRoom, OverlayTile::Nothing)
}

/// True when one of the four corner tiles of the rectangle is solid in `m`.
/// The right and bottom edges are pulled in by one unit, so a rectangle that
/// ends exactly on a tile boundary does not touch the next tile.
pub open spec fn corner_solid<M: MapLike>(m: &M, x: int, y: int, w: int, h: int) -> bool {
    let l = tile_of(x);
    let r = tile_of(x + w - 1);
    let t = tile_of(y);
    let b = tile_of(y + h - 1);
    m.tile_at(l, t).0.solid() || m.tile_at(r, t).0.solid() || m.tile_at(l, b).0.solid()
        || m.tile_at(r, b).0.solid()
}

/// A rectangular grid world that can be asked about single tiles.
pub trait MapLike: Sized {
    /// The world's internal invariant.
    spec fn wf(&self) -> bool;

    /// The pair of tiles at a tile coordinate.
    spec fn tile_at(&self, tx: int, ty: int) -> (BaseTile, OverlayTile);

    /// True when the rectangle intersects the hit-box of a closed door.
    spec fn door_blocks(&self, x: int, y: int, w: int, h: int) -> bool;

    fn get_at(&self, tx: i32, ty: i32) -> (r: (BaseTile, OverlayTile))
        requires
            self.wf(),
        ensures
            r == self.tile_at(tx as int, ty as int),
    ;

    fn hits_closed_door(&self, x: i64, y: i64, w: i64, h: i64) -> (r: bool)
        requires
            self.wf(),
            rect_in_span(x as int, y as int, w as int, h as int),
        ensures
            r == self.door_blocks(x as int, y as int, w as int, h as int),
    ;

    fn is_solid_at(&self, tx: i32, ty: i32) -> (r: bool)
        requires
            self.wf(),
        ensures
            r == self.tile_at(tx as int, ty as int).0.solid(),
    {
        let (base, _overlay) = self.get_at(tx, ty);
        base.is_solid()
    }

    fn is_ladder_at(&self, tx: i32, ty: i32) -> (r: bool)
        requires
            self.wf(),
        ensures
            r == self.tile_at(tx as int, ty as int).1.ladder(),
    {
        let (_base, overlay) = self.get_at(tx, ty);
        overlay.is_ladder()
    }

    fn is_platform_at(&self, tx: i32, ty: i32) -> (r: bool)
        requires
            self.wf(),
        ensures
            r == self.tile_at(tx as int, ty as int).1.platform(),
    {
        let (_base, overlay) = self.get_at(tx, ty);
        overlay.is_platform()
    }
}

/// What `overlaps_any_solid` decides: a solid corner tile or a closed door.
pub open spec fn blocked_at<M: MapLike>(m: &M, x: int, y: int, w: int, h: int) -> bool {
    corner_solid(m, x, y, w, h) || m.door_blocks(x, y, w, h)
}

/// Tests a rectangle against the solid tiles under its four corners and
/// against the world's closed doors.
pub fn overlaps_any_solid<M: MapLike>(m: &M, x: i64, y: i64, w: i64, h: i64) -> (r: bool)
    requires
        m.wf(),
        rect_in_span(x as int, y as int, w as int, h as int),
    ensures
        r == blocked_at(m, x as int, y as int, w as int, h as int),
{
    let l: i32 = tile_index(x);
    let r: i32 = tile_index(x + w - 1);
    let t: i32 = tile_index(y);
    let b: i32 = tile_index(y + h - 1);
    m.is_solid_at(l, t) || m.is_solid_at(r, t) || m.is_solid_at(l, b) || m.is_solid_at(r, b)
        || m.hits_closed_door(x, y, w, h)
}

} // verus!

//! Placing rooms next to each other: moving a room, testing two rooms for
//! conflicting tiles, and opening a passage where two doors meet.

use vstd::prelude::*;
use crate::grid::cell_index;
use crate::room::Room;
use crate::tiles::{BaseTile, DoorDir, OverlayTile};

verus! {

/// A door between two rooms of a dungeon, at a world tile. It blocks movers
/// while it is shut or while frames of forced closure remain.
#[derive(Clone, Copy, Debug, PartialEq, Eq, Structural)]
pub struct MapDoor {
    pub x: i32,
    pub y: i32,
    pub dir: DoorDir,
    pub open: bool,
    pub closed_frames: u32,
}

impl MapDoor {
    /// True while the door is shut or frames of forced closure remain.
    pub open spec fn closed(&self) -> bool {
        !self.open || self.closed_frames > 0
    }

    /// True when the rectangle, in thousandths of a tile, reaches into the
    /// door's tile.
    pub open spec fn touches(&self, x: int, y: int, w: int, h: int) -> bool {
        x < (self.x + 1) * 1000 && self.x * 1000 < x + w && y < (self.y + 1) * 1000 && self.y
            * 1000 < y + h
    }

    /// Tells whether the door is closed and the rectangle reaches into it.
    pub fn blocks(&self, x: i64, y: i64, w: i64, h: i64) -> (r: bool)
        requires
            crate::units::rect_in_span(x as int, y as int, w as int, h as int),
        ensures
            r == (self.closed() && self.touches(x as int, y as int, w as int, h as int)),
    {
        let shut = !self.open || self.closed_frames > 0;
        let dx: i64 = self.x as i64 * 1000;
        let dy: i64 = self.y as i64 * 1000;
        shut && x < dx + 1000 && dx < x + w && y < dy + 1000 && dy < y + h
    }
}

/// What a tile reads as once a passage has been opened there: empty,
/// without overlay.
pub open spec fn opening() -> (BaseTile, OverlayTile) {
    (BaseTile::Empty, OverlayTile::Nothing)
}

/// The tiles of two rooms can share a world tile when both layers are equal
/// or when one of the two base tiles is outside its room's footprint.
pub open spec fn compatible(a: (BaseTile, OverlayTile), b: (BaseTile, OverlayTile)) -> bool {
    a.0 == BaseTile::NotPartOfRoom || b.0 == BaseTile::NotPartOfRoom || a == b
}

/// Two rooms agree when their tiles are compatible at every world tile.
pub open spec fn rooms_agree(a: Room, b: Room) -> bool {
    forall|tx: int, ty: int| compatible(#[trigger] a.tile(tx, ty), b.tile(tx, ty))
}

/// Tells whether the tiles of two rooms can share a world tile.
pub fn tiles_compatible(a: (BaseTile, OverlayTile), b: (BaseTile, OverlayTile)) -> (r: bool)
    ensures
        r == compatible(a, b),
{
    a.0 == BaseTile::NotPartOfRoom || b.0 == BaseTile::NotPartOfRoom || (a.0 == b.0 && a.1 == b.1)
}

impl Room {
    /// The room with its anchor at `(x, y)`.
    pub open spec fn spec_moved_to(&self, x: int, y: int) -> Room {
        Room { x: x as i32, y: y as i32, ..*self }
    }

    /// The base layer after a passage is opened at the world tile
    /// `(tx, ty)`: the tile becomes empty if the room holds it and either
    /// `force` is set or the tile is part of the footprint.
    pub open spec fn carved_base(&self, tx: int, ty: int, force: bool) -> Seq<BaseTile> {
        if self.contains(tx, ty) && (force || self.tile(tx, ty).0 != BaseTile::NotPartOfRoom) {
            self.base@.update(
                cell_index(self.w as int, tx - self.x, ty - self.y),
                BaseTile::Empty,
            )
        } else {
            self.base@
        }
    }

    /// The overlay layer after a passage is opened at the world tile
    /// `(tx, ty)`: where the base tile becomes empty, the overlay goes.
    pub open spec fn carved_overlay(&self, tx: int, ty: int, force: bool) -> Seq<OverlayTile> {
        if self.contains(tx, ty) && (force || self.tile(tx, ty).0 != BaseTile::NotPartOfRoom) {
            self.overlay@.update(
                cell_index(self.w as int, tx - self.x, ty - self.y),
                OverlayTile::Nothing,
            )
        } else {
            self.overlay@
        }
    }

    /// A copy of the room with its anchor at `(x, y)`.
    pub fn moved_to(&self, x: i32, y: i32) -> (r: Room)
        requires
            self.wf(),
            Room::fits(x as int, y as int, self.w as int, self.h as int),
        ensures
            r.wf(),
            r.x == x && r.y == y && r.w == self.w && r.h == self.h,
            r.base@ == self.base@,
            r.overlay@ == self.overlay@,
            r.doors@ == self.doors@,
            r.templates@ == self.templates@,
            forall|cx: int, cy: int| r.cell(cx, cy) == self.cell(cx, cy),
    {
        let r = Room {
            base: self.base.clone(),
            overlay: self.overlay.clone(),
            x,
            y,
            h: self.h,
            w: self.w,
            doors: self.doors.clone(),
            templates: self.templates.clone(),
        };
        assert(r.base@ =~= self.base@);
        assert(r.overlay@ =~= self.overlay@);
        assert(r.doors@ =~= self.doors@);
        assert(r.templates@ =~= self.templates@);
        r
    }

    /// Opens a passage at a world tile: the tile there becomes empty and
    /// loses its overlay, if the room holds the tile and either `force` is
    /// set or the tile is part of the footprint.
    pub fn carve(&mut self, tx: i32, ty: i32, force: bool)
        requires
            old(self).wf(),
        ensures
            final(self).wf(),
            final(self).base@ == old(self).carved_base(tx as int, ty as int, force),
            final(self).overlay@ == old(self).carved_overlay(tx as int, ty as int, force),
            final(self).x == old(self).x && final(self).y == old(self).y,
            final(self).w == old(self).w && final(self).h == old(self).h,
            final(self).doors == old(self).doors,
            final(self).templates == old(self).templates,
            forall|x: int, y: int|
                #[trigger] final(self).tile(x, y) == (if x == tx && y == ty && old(self).contains(x, y)
                    && (force || old(self).tile(x, y).0 != BaseTile::NotPartOfRoom) {
                    opening()
                } else {
                    old(self).tile(x, y)
                }),
    {
        if let Some(rel) = self.abs_to_rel((tx, ty)) {
            let (b, _o) = self.get_absolute(rel.0, rel.1);
            if force || b != BaseTile::NotPartOfRoom {
                self.set_base_absolute(rel.0, rel.1, BaseTile::Empty);
                self.set_overlay_absolute(rel.0, rel.1, OverlayTile::Nothing);
            }
        }
        proof {
            assert forall|x: int, y: int|
                #[trigger] self.tile(x, y) == (if x == tx && y == ty && old(self).contains(x, y) && (
                force || old(self).tile(x, y).0 != BaseTile::NotPartOfRoom) {
                    opening()
                } else {
                    old(self).tile(x, y)
                }) by {
                if old(self).contains(x, y) {
                    assert(old(self).has_cell(x - old(self).x, y - old(self).y));
                }
            }
        }
    }
}

/// Tests two rooms for conflicting tiles: looks at every cell of `a` and at
/// what `b` holds at the same world tile.
pub fn rooms_compatible(a: &Room, b: &Room) -> (r: bool)
    requires
        a.wf(),
        b.wf(),
    ensures
        r == rooms_agree(*a, *b),
{
    let mut cy: u32 = 0;
    while cy < a.h
        invariant
            a.wf(),
            b.wf(),
            cy <= a.h,
            forall|x: int, y: int|
                0 <= x < a.w && 0 <= y < cy ==> compatible(
                    #[trigger] a.cell(x, y),
                    b.tile(a.x + x, a.y + y),
                ),
        decreases a.h - cy,
    {
        let mut cx: u32 = 0;
        while cx < a.w
            invariant
                a.wf(),
                b.wf(),
                cy < a.h,
                cx <= a.w,
                forall|x: int, y: int|
                    0 <= x < a.w && 0 <= y < cy ==> compatible(
                        #[trigger] a.cell(x, y),
                        b.tile(a.x + x, a.y + y),
                    ),
                forall|x: int|
                    0 <= x < cx ==> compatible(
                        #[trigger] a.cell(x, cy as int),
                        b.tile(a.x + x, a.y + cy),
                    ),
            decreases a.w - cx,
        {
            let mine = a.get_absolute(cx, cy);
            let tx: i32 = (a.x as i64 + cx as i64) as i32;
            let ty: i32 = (a.y as i64 + cy as i64) as i32;
            let theirs = match b.get_relative(tx, ty) {
                Some(found) => found,
                None => (BaseTile::NotPartOfRoom, OverlayTile::Nothing),
            };
            if !tiles_compatible(mine, theirs) {
                proof {
                    assert(a.contains(tx as int, ty as int));
                    assert(!compatible(a.tile(tx as int, ty as int), b.tile(tx as int, ty as int)));
                }
                return false;
            }
            cx += 1;
        }
        cy += 1;
    }
    proof {
        assert forall|tx: int, ty: int| compatible(#[trigger] a.tile(tx, ty), b.tile(tx, ty)) by {
            if a.contains(tx, ty) {
                assert(compatible(a.cell(tx - a.x, ty - a.y), b.tile(a.x + (tx - a.x), a.y + (ty - a.y))));
            }
        }
    }
    true
}

} // verus!

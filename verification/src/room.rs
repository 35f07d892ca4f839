//! A room: a dense rectangle of tiles anchored in world space, with doors and
//! spawn points, that grows to take an edit outside its rectangle and shrinks
//! again when its borders are empty.

use vstd::prelude::*;
use crate::grid::{cell_index, index_of, lemma_cell_index_in_range, lemma_cell_index_injective};
use crate::tiles::{BaseTile, DoorDir, OverlayTile};
use crate::world::{outside_cell, MapLike};

verus! {

/// A door of a room, at a cell given relative to the room's anchor.
#[derive(Clone, Copy, Debug, PartialEq, Eq, Structural)]
pub struct Door {
    pub x: i32,
    pub y: i32,
    pub dir: DoorDir,
}

/// The kinds of enemy that a room can ask to be spawned.
#[derive(Clone, Copy, Debug, PartialEq, Eq, Structural)]
pub enum EnemyKind {
    Slime,
    Bat,
    Burrower,
    Worm,
}

/// A spawn point of a room: a position in thousandths of a tile, relative to
/// the room's anchor, and the kind of enemy to place there.
#[derive(Clone, Copy, Debug, PartialEq, Eq, Structural)]
pub struct SpawnTemplate {
    pub x: i64,
    pub y: i64,
    pub kind: EnemyKind,
}

/// A room. `base` and `overlay` hold the two layers row by row; `x` and `y`
/// anchor the top-left cell in world space.
#[derive(Clone, Debug)]
pub struct Room {
    pub base: Vec<BaseTile>,
    pub overlay: Vec<OverlayTile>,
    pub x: i32,
    pub y: i32,
    pub h: u32,
    pub w: u32,
    pub doors: Vec<Door>,
    pub templates: Vec<SpawnTemplate>,
}

/// The tile on the rim of a `w` by `h` box is wood, the inside is empty.
pub open spec fn boxed_tile(w: int, h: int, cx: int, cy: int) -> BaseTile {
    if cx == 0 || cy == 0 || cx == w - 1 || cy == h - 1 {
        BaseTile::Wood
    } else {
        BaseTile::Empty
    }
}

impl Room {
    /// The size limits that keep every index and world coordinate of the room
    /// inside the machine's integers.
    pub open spec fn fits(x: int, y: int, w: int, h: int) -> bool {
        &&& 1 <= w <= i32::MAX
        &&& 1 <= h <= i32::MAX
        &&& w * h <= u32::MAX
        &&& x + w <= i32::MAX
        &&& y + h <= i32::MAX
    }

    /// True when the door stands on one of the room's cells.
    pub open spec fn door_inside(&self, d: Door) -> bool {
        0 <= d.x < self.w && 0 <= d.y < self.h
    }

    /// True when the spawn point lies in the room's rectangle.
    pub open spec fn template_inside(&self, t: SpawnTemplate) -> bool {
        0 <= t.x <= self.w * 1000 && 0 <= t.y <= self.h * 1000
    }

    /// The room's invariant: both layers cover the rectangle, and every door
    /// and spawn point lies inside it.
    pub open spec fn wf(&self) -> bool {
        &&& Self::fits(self.x as int, self.y as int, self.w as int, self.h as int)
        &&& self.base@.len() == self.w * self.h
        &&& self.overlay@.len() == self.w * self.h
        &&& forall|i: int| 0 <= i < self.doors@.len() ==> self.door_inside(#[trigger] self.doors@[i])
        &&& forall|i: int|
            0 <= i < self.templates@.len() ==> self.template_inside(#[trigger] self.templates@[i])
    }

    /// True when the cell `(cx, cy)`, counted from the room's top-left cell,
    /// is one of the room's cells.
    pub open spec fn has_cell(&self, cx: int, cy: int) -> bool {
        0 <= cx < self.w && 0 <= cy < self.h
    }

    /// True when the world tile `(tx, ty)` lies in the room's rectangle.
    pub open spec fn contains(&self, tx: int, ty: int) -> bool {
        self.has_cell(tx - self.x, ty - self.y)
    }

    /// Both layers of a cell of the room.
    pub open spec fn cell(&self, cx: int, cy: int) -> (BaseTile, OverlayTile) {
        (
            self.base@[cell_index(self.w as int, cx, cy)],
            self.overlay@[cell_index(self.w as int, cx, cy)],
        )
    }

    /// Both layers at a world tile; outside the rectangle, the solid sentinel.
    pub open spec fn tile(&self, tx: int, ty: int) -> (BaseTile, OverlayTile) {
        if self.contains(tx, ty) {
            self.cell(tx - self.x, ty - self.y)
        } else {
            outside_cell()
        }
    }

    /// No two doors of the room stand on the same cell.
    pub open spec fn doors_unique(&self) -> bool {
        forall|i: int, j: int|
            0 <= i < j < self.doors@.len() ==> !(self.doors@[i].x == self.doors@[j].x
                && self.doors@[i].y == self.doors@[j].y)
    }

    /// A room whose every cell is outside the footprint, without doors or
    /// spawn points.
    pub fn new_empty(x: i32, y: i32, w: u32, h: u32) -> (room: Room)
        requires
            Self::fits(x as int, y as int, w as int, h as int),
        ensures
            room.wf(),
            room.x == x && room.y == y && room.w == w && room.h == h,
            room.doors@.len() == 0,
            room.templates@.len() == 0,
            forall|cx: int, cy: int| room.has_cell(cx, cy) ==> room.cell(cx, cy) == outside_cell(),
    {
        let n: u32 = w * h;
        let base = vec![BaseTile::NotPartOfRoom; n as usize];
        let overlay = vec![OverlayTile::Nothing; n as usize];
        let room = Room { base, overlay, x, y, h, w, doors: Vec::new(), templates: Vec::new() };
        proof {
            assert forall|cx: int, cy: int| room.has_cell(cx, cy) implies room.cell(cx, cy)
                == outside_cell() by {
                lemma_cell_index_in_range(w as int, h as int, cx, cy);
            }
        }
        room
    }

    /// A walled room: wood on the rim, empty inside, no overlay anywhere.
    pub fn new(x: i32, y: i32, w: u32, h: u32) -> (room: Room)
        requires
            Self::fits(x as int, y as int, w as int, h as int),
        ensures
            room.wf(),
            room.x == x && room.y == y && room.w == w && room.h == h,
            room.doors@.len() == 0,
            room.templates@.len() == 0,
            forall|cx: int, cy: int|
                room.has_cell(cx, cy) ==> room.cell(cx, cy) == (
                    boxed_tile(w as int, h as int, cx, cy),
                    OverlayTile::Nothing,
                ),
    {
        let n: u32 = w * h;
        let base = vec![BaseTile::Empty; n as usize];
        let overlay = vec![OverlayTile::Nothing; n as usize];
        let mut room = Room { base, overlay, x, y, h, w, doors: Vec::new(), templates: Vec::new() };
        proof {
            assert forall|cx: int, cy: int| room.has_cell(cx, cy) implies room.cell(cx, cy) == (
                BaseTile::Empty,
                OverlayTile::Nothing,
            ) by {
                lemma_cell_index_in_range(w as int, h as int, cx, cy);
            }
        }
        let mut xx: u32 = 0;
        while xx < w
            invariant
                room.wf(),
                xx <= w,
                room.x == x && room.y == y && room.w == w && room.h == h,
                room.doors@.len() == 0,
                room.templates@.len() == 0,
                forall|cx: int, cy: int|
                    room.has_cell(cx, cy) ==> room.cell(cx, cy) == (
                        if cx < xx && (cy == 0 || cy == h - 1) {
                            BaseTile::Wood
                        } else {
                            BaseTile::Empty
                        },
                        OverlayTile::Nothing,
                    ),
            decreases w - xx,
        {
            room.set_base_absolute(xx, 0, BaseTile::Wood);
            room.set_base_absolute(xx, h - 1, BaseTile::Wood);
            xx += 1;
        }
        let mut yy: u32 = 0;
        while yy < h
            invariant
                room.wf(),
                yy <= h,
                room.x == x && room.y == y && room.w == w && room.h == h,
                room.doors@.len() == 0,
                room.templates@.len() == 0,
                forall|cx: int, cy: int|
                    room.has_cell(cx, cy) ==> room.cell(cx, cy) == (
                        if cy == 0 || cy == h - 1 || (cy < yy && (cx == 0 || cx == w - 1)) {
                            BaseTile::Wood
                        } else {
                            BaseTile::Empty
                        },
                        OverlayTile::Nothing,
                    ),
            decreases h - yy,
        {
            room.set_base_absolute(0, yy, BaseTile::Wood);
            room.set_base_absolute(w - 1, yy, BaseTile::Wood);
            yy += 1;
        }
        room
    }

    /// Tells whether a rectangle respects the size limits of a room.
    pub fn size_fits(x: i32, y: i32, w: u32, h: u32) -> (r: bool)
        ensures
            r == Self::fits(x as int, y as int, w as int, h as int),
    {
        if w < 1 || h < 1 || w > 0x7fff_ffff || h > 0x7fff_ffff {
            return false;
        }
        proof {
            assert(w * h <= 0x7fff_ffff * 0x7fff_ffff) by (nonlinear_arith)
                requires
                    0 <= w <= 0x7fff_ffff,
                    0 <= h <= 0x7fff_ffff,
            ;
        }
        let area: u64 = w as u64 * h as u64;
        area <= 0xffff_ffff && x as i64 + w as i64 <= 0x7fff_ffff && y as i64 + h as i64
            <= 0x7fff_ffff
    }

    /// Tells whether the room's invariant holds.
    pub fn check_wf(&self) -> (r: bool)
        ensures
            r == self.wf(),
    {
        if !Self::size_fits(self.x, self.y, self.w, self.h) {
            return false;
        }
        let area: usize = (self.w * self.h) as usize;
        if self.base.len() != area || self.overlay.len() != area {
            return false;
        }
        let mut i: usize = 0;
        while i < self.doors.len()
            invariant
                i <= self.doors@.len(),
                forall|k: int| 0 <= k < i ==> self.door_inside(#[trigger] self.doors@[k]),
            decreases self.doors@.len() - i,
        {
            let d = self.doors[i];
            if d.x < 0 || d.y < 0 || d.x as i64 >= self.w as i64 || d.y as i64 >= self.h as i64 {
                assert(!self.door_inside(self.doors@[i as int]));
                return false;
            }
            i += 1;
        }
        let mut j: usize = 0;
        while j < self.templates.len()
            invariant
                j <= self.templates@.len(),
                forall|k: int| 0 <= k < j ==> self.template_inside(#[trigger] self.templates@[k]),
            decreases self.templates@.len() - j,
        {
            let t = self.templates[j];
            if t.x < 0 || t.y < 0 || t.x > self.w as i64 * 1000 || t.y > self.h as i64 * 1000 {
                assert(!self.template_inside(self.templates@[j as int]));
                return false;
            }
            j += 1;
        }
        true
    }

    /// Makes a room of parts read from elsewhere, if they form a room: both
    /// layers must cover the rectangle, and every door and spawn point must
    /// lie inside it.
    pub fn from_parts(
        base: Vec<BaseTile>,
        overlay: Vec<OverlayTile>,
        x: i32,
        y: i32,
        w: u32,
        h: u32,
        doors: Vec<Door>,
        templates: Vec<SpawnTemplate>,
    ) -> (r: Option<Room>)
        ensures
            r.is_some() == (Room { base, overlay, x, y, h, w, doors, templates }).wf(),
            r.is_some() ==> r.unwrap() == (Room { base, overlay, x, y, h, w, doors, templates }),
    {
        let room = Room { base, overlay, x, y, h, w, doors, templates };
        if room.check_wf() {
            Some(room)
        } else {
            None
        }
    }

    /// The cell of the room that holds a world tile, if the room holds it.
    pub fn abs_to_rel(&self, xy: (i32, i32)) -> (r: Option<(u32, u32)>)
        requires
            self.wf(),
        ensures
            r.is_some() == self.contains(xy.0 as int, xy.1 as int),
            r.is_some() ==> r.unwrap().0 == xy.0 - self.x && r.unwrap().1 == xy.1 - self.y,
    {
        let rel_x: i64 = xy.0 as i64 - self.x as i64;
        let rel_y: i64 = xy.1 as i64 - self.y as i64;
        if rel_x < 0 || rel_y < 0 {
            return None;
        }
        if rel_x >= self.w as i64 || rel_y >= self.h as i64 {
            return None;
        }
        Some((rel_x as u32, rel_y as u32))
    }

    /// Writes the base layer of one cell of the room.
    pub fn set_base_absolute(&mut self, x: u32, y: u32, tile: BaseTile)
        requires
            old(self).wf(),
            old(self).has_cell(x as int, y as int),
        ensures
            final(self).wf(),
            final(self).base@ == old(self).base@.update(
                cell_index(old(self).w as int, x as int, y as int),
                tile,
            ),
            final(self).overlay == old(self).overlay,
            final(self).x == old(self).x && final(self).y == old(self).y,
            final(self).w == old(self).w && final(self).h == old(self).h,
            final(self).doors == old(self).doors,
            final(self).templates == old(self).templates,
            forall|cx: int, cy: int|
                old(self).has_cell(cx, cy) ==> final(self).cell(cx, cy) == (if cx == x && cy == y {
                    (tile, old(self).cell(cx, cy).1)
                } else {
                    old(self).cell(cx, cy)
                }),
    {
        let i = index_of(self.w, self.h, x, y);
        self.base.set(i, tile);
        proof {
            assert forall|cx: int, cy: int| old(self).has_cell(cx, cy) implies self.cell(cx, cy)
                == (if cx == x && cy == y {
                (tile, old(self).cell(cx, cy).1)
            } else {
                old(self).cell(cx, cy)
            }) by {
                lemma_cell_index_in_range(self.w as int, self.h as int, cx, cy);
                if cell_index(self.w as int, cx, cy) == i {
                    lemma_cell_index_injective(self.w as int, cx, cy, x as int, y as int);
                }
            }
        }
    }

    /// Writes the overlay layer of one cell of the room.
    pub fn set_overlay_absolute(&mut self, x: u32, y: u32, tile: OverlayTile)
        requires
            old(self).wf(),
            old(self).has_cell(x as int, y as int),
        ensures
            final(self).wf(),
            final(self).overlay@ == old(self).overlay@.update(
                cell_index(old(self).w as int, x as int, y as int),
                tile,
            ),
            final(self).base == old(self).base,
            final(self).x == old(self).x && final(self).y == old(self).y,
            final(self).w == old(self).w && final(self).h == old(self).h,
            final(self).doors == old(self).doors,
            final(self).templates == old(self).templates,
            forall|cx: int, cy: int|
                old(self).has_cell(cx, cy) ==> final(self).cell(cx, cy) == (if cx == x && cy == y {
                    (old(self).cell(cx, cy).0, tile)
                } else {
                    old(self).cell(cx, cy)
                }),
    {
        let i = index_of(self.w, self.h, x, y);
        self.overlay.set(i, tile);
        proof {
            assert forall|cx: int, cy: int| old(self).has_cell(cx, cy) implies self.cell(cx, cy)
                == (if cx == x && cy == y {
                (old(self).cell(cx, cy).0, tile)
            } else {
                old(self).cell(cx, cy)
            }) by {
                lemma_cell_index_in_range(self.w as int, self.h as int, cx, cy);
                if cell_index(self.w as int, cx, cy) == i {
                    lemma_cell_index_injective(self.w as int, cx, cy, x as int, y as int);
                }
            }
        }
    }

    /// Reads both layers of one cell of the room.
    pub fn get_absolute(&self, x: u32, y: u32) -> (r: (BaseTile, OverlayTile))
        requires
            self.wf(),
            self.has_cell(x as int, y as int),
        ensures
            r == self.cell(x as int, y as int),
    {
        let i = index_of(self.w, self.h, x, y);
        (self.base[i], self.overlay[i])
    }

    /// Reads both layers at a world tile, or nothing outside the rectangle.
    pub fn get_relative(&self, x: i32, y: i32) -> (r: Option<(BaseTile, OverlayTile)>)
        requires
            self.wf(),
        ensures
            r.is_some() == self.contains(x as int, y as int),
            r.is_some() ==> r.unwrap() == self.tile(x as int, y as int),
    {
        if let Some(rel) = self.abs_to_rel((x, y)) {
            return Some(self.get_absolute(rel.0, rel.1));
        }
        None
    }
}


impl MapLike for Room {
    open spec fn wf(&self) -> bool {
        Room::wf(self)
    }

    open spec fn tile_at(&self, tx: int, ty: int) -> (BaseTile, OverlayTile) {
        self.tile(tx, ty)
    }

    /// A room on its own has no closable doors.
    open spec fn door_blocks(&self, x: int, y: int, w: int, h: int) -> bool {
        false
    }

    fn get_at(&self, tx: i32, ty: i32) -> (r: (BaseTile, OverlayTile)) {
        match self.get_relative(tx, ty) {
            Some(found) => found,
            None => (BaseTile::NotPartOfRoom, OverlayTile::Nothing),
        }
    }

    fn hits_closed_door(&self, x: i64, y: i64, w: i64, h: i64) -> (r: bool) {
        false
    }
}

} // verus!

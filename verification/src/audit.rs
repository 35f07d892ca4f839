//! Checking a dungeon from scratch: every invariant of its layout and of
//! its flat buffer is tested again on the data as it stands.

use vstd::prelude::*;
use crate::assembly::{
    anchors_distinct, bounds_hold, bounds_touch, conflict_free, layout_ok, passage_at, Assembly,
};
use crate::dungeon::{
    compatible, opening, rooms_agree, rooms_compatible, tiles_compatible, MapDoor,
};
use crate::game_map::{buffer_matches, flat_tile, GameMap};
use crate::grid::{cell_index, index_of, lemma_cell_index_in_range};
use crate::room::Room;
use crate::tiles::{BaseTile, OverlayTile};

verus! {

/// Every room is well formed.
pub open spec fn all_wf(rooms: Seq<Room>) -> bool {
    forall|i: int| 0 <= i < rooms.len() ==> (#[trigger] rooms[i]).wf()
}

/// Tells whether every room is well formed.
pub fn check_rooms(rooms: &Vec<Room>) -> (r: bool)
    ensures
        r == all_wf(rooms@),
{
    let n = rooms.len();
    let mut i: usize = 0;
    while i < n
        invariant
            n == rooms@.len(),
            i <= n,
            forall|k: int| 0 <= k < i ==> (#[trigger] rooms@[k]).wf(),
        decreases n - i,
    {
        if !rooms[i].check_wf() {
            assert(!rooms@[i as int].wf());
            return false;
        }
        i += 1;
    }
    true
}

/// Tells whether the rectangle `(x, y, w, h)` holds every room and touches
/// a room on each of its sides.
pub fn check_bounds(rooms: &Vec<Room>, x: i32, y: i32, w: u32, h: u32) -> (r: bool)
    requires
        all_wf(rooms@),
    ensures
        r == (bounds_hold(rooms@, x as int, y as int, w as int, h as int) && bounds_touch(
            rooms@,
            x as int,
            y as int,
            w as int,
            h as int,
        )),
{
    let n = rooms.len();
    let right: i64 = x as i64 + w as i64;
    let bottom: i64 = y as i64 + h as i64;
    let mut on_left = false;
    let mut on_top = false;
    let mut on_right = false;
    let mut on_bottom = false;
    let mut i: usize = 0;
    while i < n
        invariant
            n == rooms@.len(),
            i <= n,
            all_wf(rooms@),
            right == x + w,
            bottom == y + h,
            forall|k: int|
                0 <= k < i ==> x <= (#[trigger] rooms@[k]).x && rooms@[k].x + rooms@[k].w <= x + w && y
                    <= rooms@[k].y && rooms@[k].y + rooms@[k].h <= y + h,
            on_left == exists|k: int| 0 <= k < i && (#[trigger] rooms@[k]).x == x,
            on_top == exists|k: int| 0 <= k < i && (#[trigger] rooms@[k]).y == y,
            on_right == exists|k: int| 0 <= k < i && (#[trigger] rooms@[k]).x + rooms@[k].w == x + w,
            on_bottom == exists|k: int| 0 <= k < i && (#[trigger] rooms@[k]).y + rooms@[k].h == y + h,
        decreases n - i,
    {
        let room = &rooms[i];
        assert(rooms@[i as int].wf());
        let room_right: i64 = room.x as i64 + room.w as i64;
        let room_bottom: i64 = room.y as i64 + room.h as i64;
        if room.x < x || room_right > right || room.y < y || room_bottom > bottom {
            return false;
        }
        let ghost was_left = on_left;
        let ghost was_top = on_top;
        let ghost was_right = on_right;
        let ghost was_bottom = on_bottom;
        on_left = on_left || room.x == x;
        on_top = on_top || room.y == y;
        on_right = on_right || room_right == right;
        on_bottom = on_bottom || room_bottom == bottom;
        proof {
            let here = i as int;
            if on_left {
                if was_left {
                    let k = choose|k: int| 0 <= k < i && (#[trigger] rooms@[k]).x == x;
                    assert(0 <= k < i + 1 && rooms@[k].x == x);
                } else {
                    assert(0 <= here < i + 1 && rooms@[here].x == x);
                }
            } else {
                assert forall|k: int| 0 <= k < i + 1 implies (#[trigger] rooms@[k]).x != x by {
                    if k < i {
                    }
                }
            }
            if on_top {
                if was_top {
                    let k = choose|k: int| 0 <= k < i && (#[trigger] rooms@[k]).y == y;
                    assert(0 <= k < i + 1 && rooms@[k].y == y);
                } else {
                    assert(0 <= here < i + 1 && rooms@[here].y == y);
                }
            }
            if on_right {
                if was_right {
                    let k = choose|k: int|
                        0 <= k < i && (#[trigger] rooms@[k]).x + rooms@[k].w == x + w;
                    assert(0 <= k < i + 1 && rooms@[k].x + rooms@[k].w == x + w);
                } else {
                    assert(0 <= here < i + 1 && rooms@[here].x + rooms@[here].w == x + w);
                }
            }
            if on_bottom {
                if was_bottom {
                    let k = choose|k: int|
                        0 <= k < i && (#[trigger] rooms@[k]).y + rooms@[k].h == y + h;
                    assert(0 <= k < i + 1 && rooms@[k].y + rooms@[k].h == y + h);
                } else {
                    assert(0 <= here < i + 1 && rooms@[here].y + rooms@[here].h == y + h);
                }
            }
        }
        i += 1;
    }
    on_left && on_top && on_right && on_bottom
}

/// Tells whether no two rooms hold conflicting tiles: every room is held
/// against every other, tile by tile.
pub fn check_conflicts(rooms: &Vec<Room>) -> (r: bool)
    requires
        all_wf(rooms@),
    ensures
        r == conflict_free(rooms@),
{
    let n = rooms.len();
    let mut i: usize = 0;
    while i < n
        invariant
            n == rooms@.len(),
            i <= n,
            all_wf(rooms@),
            forall|a: int, b: int|
                0 <= a < i && 0 <= b < n && a != b ==> rooms_agree(
                    #[trigger] rooms@[a],
                    #[trigger] rooms@[b],
                ),
        decreases n - i,
    {
        let mut j: usize = 0;
        while j < n
            invariant
                n == rooms@.len(),
                i < n,
                j <= n,
                all_wf(rooms@),
                forall|b: int|
                    0 <= b < j && b != i ==> rooms_agree(rooms@[i as int], #[trigger] rooms@[b]),
            decreases n - j,
        {
            if i != j {
                assert(rooms@[i as int].wf() && rooms@[j as int].wf());
                if !rooms_compatible(&rooms[i], &rooms[j]) {
                    assert(!rooms_agree(rooms@[i as int], rooms@[j as int]));
                    return false;
                }
            }
            j += 1;
        }
        i += 1;
    }
    true
}

/// Tells whether no two rooms have the same anchor.
pub fn check_anchors(rooms: &Vec<Room>) -> (r: bool)
    ensures
        r == anchors_distinct(rooms@),
{
    let n = rooms.len();
    let mut j: usize = 0;
    while j < n
        invariant
            n == rooms@.len(),
            j <= n,
            forall|a: int, b: int|
                0 <= a < b < j ==> !((#[trigger] rooms@[a]).x == (#[trigger] rooms@[b]).x && rooms@[a].y
                    == rooms@[b].y),
        decreases n - j,
    {
        let mut i: usize = 0;
        while i < j
            invariant
                n == rooms@.len(),
                i <= j < n,
                forall|a: int|
                    0 <= a < i ==> !((#[trigger] rooms@[a]).x == rooms@[j as int].x && rooms@[a].y
                        == rooms@[j as int].y),
            decreases j - i,
        {
            if rooms[i].x == rooms[j].x && rooms[i].y == rooms[j].y {
                return false;
            }
            i += 1;
        }
        j += 1;
    }
    true
}

/// Tells whether the world tile `(tx, ty)` is a passage.
pub fn check_passage(rooms: &Vec<Room>, tx: i32, ty: i32) -> (r: bool)
    requires
        all_wf(rooms@),
    ensures
        r == passage_at(rooms@, tx as int, ty as int),
{
    let n = rooms.len();
    let mut open = false;
    let mut i: usize = 0;
    while i < n
        invariant
            n == rooms@.len(),
            i <= n,
            all_wf(rooms@),
            forall|k: int|
                0 <= k < i ==> compatible((#[trigger] rooms@[k]).tile(tx as int, ty as int), opening()),
            open == exists|k: int|
                0 <= k < i && (#[trigger] rooms@[k]).tile(tx as int, ty as int) == opening(),
        decreases n - i,
    {
        assert(rooms@[i as int].wf());
        let tile = match rooms[i].get_relative(tx, ty) {
            Some(found) => found,
            None => (BaseTile::NotPartOfRoom, OverlayTile::Nothing),
        };
        assert(tile == rooms@[i as int].tile(tx as int, ty as int));
        if !tiles_compatible(tile, (BaseTile::Empty, OverlayTile::Nothing)) {
            return false;
        }
        let ghost was_open = open;
        if tile.0 == BaseTile::Empty && tile.1 == OverlayTile::Nothing {
            open = true;
        }
        proof {
            let here = i as int;
            if open {
                if was_open {
                    let k = choose|k: int|
                        0 <= k < i && (#[trigger] rooms@[k]).tile(tx as int, ty as int) == opening();
                    assert(0 <= k < i + 1 && rooms@[k].tile(tx as int, ty as int) == opening());
                } else {
                    assert(0 <= here < i + 1 && rooms@[here].tile(tx as int, ty as int) == opening());
                }
            }
        }
        i += 1;
    }
    open
}

/// Tells whether every door stands on a passage.
pub fn check_doors(rooms: &Vec<Room>, doors: &Vec<MapDoor>) -> (r: bool)
    requires
        all_wf(rooms@),
    ensures
        r == forall|k: int|
            0 <= k < doors@.len() ==> passage_at(rooms@, (#[trigger] doors@[k]).x as int, doors@[k].y as int),
{
    let n = doors.len();
    let mut k: usize = 0;
    while k < n
        invariant
            n == doors@.len(),
            k <= n,
            all_wf(rooms@),
            forall|j: int|
                0 <= j < k ==> passage_at(rooms@, (#[trigger] doors@[j]).x as int, doors@[j].y as int),
        decreases n - k,
    {
        if !check_passage(rooms, doors[k].x, doors[k].y) {
            assert(!passage_at(rooms@, doors@[k as int].x as int, doors@[k as int].y as int));
            return false;
        }
        k += 1;
    }
    true
}

/// Tells whether rooms, doors and the rectangle around them form a sound
/// layout.
pub fn check_layout(rooms: &Vec<Room>, doors: &Vec<MapDoor>, x: i32, y: i32, w: u32, h: u32) -> (r:
    bool)
    ensures
        r == layout_ok(rooms@, doors@, x as int, y as int, w as int, h as int),
{
    if rooms.len() < 1 || doors.len() != rooms.len() - 1 {
        return false;
    }
    if !check_rooms(rooms) {
        return false;
    }
    if !Room::size_fits(x, y, w, h) {
        return false;
    }
    check_bounds(rooms, x, y, w, h) && check_conflicts(rooms) && check_anchors(rooms) && check_doors(
        rooms,
        doors,
    )
}

/// The tiles of the dungeon at a world tile, found by looking through the
/// rooms.
pub fn flat_tile_of(rooms: &Vec<Room>, tx: i32, ty: i32) -> (r: (BaseTile, OverlayTile))
    requires
        all_wf(rooms@),
    ensures
        r == flat_tile(rooms@, tx as int, ty as int, 0),
{
    let n = rooms.len();
    let mut i: usize = 0;
    while i < n
        invariant
            n == rooms@.len(),
            i <= n,
            all_wf(rooms@),
            flat_tile(rooms@, tx as int, ty as int, 0) == flat_tile(
                rooms@,
                tx as int,
                ty as int,
                i as int,
            ),
        decreases n - i,
    {
        assert(rooms@[i as int].wf());
        if let Some(found) = rooms[i].get_relative(tx, ty) {
            if found.0 != BaseTile::NotPartOfRoom {
                return found;
            }
        }
        i += 1;
    }
    (BaseTile::Stone, OverlayTile::Nothing)
}

impl Assembly {
    /// Tells whether the invariant of a dungeon under construction holds.
    pub fn check_wf(&self) -> (r: bool)
        ensures
            r == self.wf(),
    {
        check_layout(&self.rooms, &self.doors, self.x, self.y, self.w, self.h)
    }
}

impl GameMap {
    /// Tells whether the dungeon's invariant holds: the layout is tested
    /// room against room, and every cell of the flat buffer is held against
    /// the rooms.
    pub fn check_wf(&self) -> (r: bool)
        ensures
            r == self.wf(),
    {
        if !check_layout(&self.rooms, &self.doors, self.x, self.y, self.w, self.h) {
            return false;
        }
        let area: usize = (self.w * self.h) as usize;
        if self.base.len() != area || self.overlay.len() != area {
            return false;
        }
        let mut cy: u32 = 0;
        while cy < self.h
            invariant
                all_wf(self.rooms@),
                Room::fits(self.x as int, self.y as int, self.w as int, self.h as int),
                self.base@.len() == self.w * self.h,
                self.overlay@.len() == self.w * self.h,
                cy <= self.h,
                forall|x: int, y: int|
                    0 <= x < self.w && 0 <= y < cy ==> (
                        #[trigger] self.base@[cell_index(self.w as int, x, y)],
                        self.overlay@[cell_index(self.w as int, x, y)],
                    ) == flat_tile(self.rooms@, self.x + x, self.y + y, 0),
            decreases self.h - cy,
        {
            let mut cx: u32 = 0;
            while cx < self.w
                invariant
                    all_wf(self.rooms@),
                    Room::fits(self.x as int, self.y as int, self.w as int, self.h as int),
                    self.base@.len() == self.w * self.h,
                    self.overlay@.len() == self.w * self.h,
                    cy < self.h,
                    cx <= self.w,
                    forall|x: int, y: int|
                        0 <= x < self.w && 0 <= y < cy ==> (
                            #[trigger] self.base@[cell_index(self.w as int, x, y)],
                            self.overlay@[cell_index(self.w as int, x, y)],
                        ) == flat_tile(self.rooms@, self.x + x, self.y + y, 0),
                    forall|x: int|
                        0 <= x < cx ==> (
                            #[trigger] self.base@[cell_index(self.w as int, x, cy as int)],
                            self.overlay@[cell_index(self.w as int, x, cy as int)],
                        ) == flat_tile(self.rooms@, self.x + x, self.y + cy, 0),
                decreases self.w - cx,
            {
                let i = index_of(self.w, self.h, cx, cy);
                let tx: i32 = (self.x as i64 + cx as i64) as i32;
                let ty: i32 = (self.y as i64 + cy as i64) as i32;
                let want = flat_tile_of(&self.rooms, tx, ty);
                if self.base[i] != want.0 || self.overlay[i] != want.1 {
                    assert((
                        self.base@[cell_index(self.w as int, cx as int, cy as int)],
                        self.overlay@[cell_index(self.w as int, cx as int, cy as int)],
                    ) != flat_tile(self.rooms@, self.x + cx, self.y + cy, 0));
                    return false;
                }
                cx += 1;
            }
            cy += 1;
        }
        true
    }
}

} // verus!

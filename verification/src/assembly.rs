//! Building a dungeon room by room: each new room is hung on a door of a
//! room that is already placed, and is refused if it conflicts with any of
//! them.

use vstd::prelude::*;
use crate::dungeon::{compatible, opening, rooms_agree, rooms_compatible, MapDoor};
use crate::room::Room;
use crate::tiles::{BaseTile, DoorDir};

verus! {

/// No two of the rooms hold conflicting tiles at any world tile.
pub open spec fn conflict_free(rooms: Seq<Room>) -> bool {
    forall|i: int, j: int|
        0 <= i < rooms.len() && 0 <= j < rooms.len() && i != j ==> rooms_agree(
            #[trigger] rooms[i],
            #[trigger] rooms[j],
        )
}

/// The world tile `(tx, ty)` is a passage: some room has an empty tile
/// without overlay there, and every other room has the same or none.
pub open spec fn passage_at(rooms: Seq<Room>, tx: int, ty: int) -> bool {
    &&& exists|i: int| 0 <= i < rooms.len() && (#[trigger] rooms[i]).tile(tx, ty) == opening()
    &&& forall|i: int| 0 <= i < rooms.len() ==> compatible((#[trigger] rooms[i]).tile(tx, ty), opening())
}

/// The rectangle `(x, y, w, h)` holds the rectangle of every room.
pub open spec fn bounds_hold(rooms: Seq<Room>, x: int, y: int, w: int, h: int) -> bool {
    forall|i: int|
        0 <= i < rooms.len() ==> x <= (#[trigger] rooms[i]).x && rooms[i].x + rooms[i].w <= x + w
            && y <= rooms[i].y && rooms[i].y + rooms[i].h <= y + h
}

/// Each side of the rectangle `(x, y, w, h)` is a side of some room.
pub open spec fn bounds_touch(rooms: Seq<Room>, x: int, y: int, w: int, h: int) -> bool {
    &&& exists|i: int| 0 <= i < rooms.len() && (#[trigger] rooms[i]).x == x
    &&& exists|i: int| 0 <= i < rooms.len() && (#[trigger] rooms[i]).y == y
    &&& exists|i: int| 0 <= i < rooms.len() && (#[trigger] rooms[i]).x + rooms[i].w == x + w
    &&& exists|i: int| 0 <= i < rooms.len() && (#[trigger] rooms[i]).y + rooms[i].h == y + h
}

/// `after` is `before` with a passage opened at the world tile `(tx, ty)`:
/// nothing but the tile there has changed, and that tile is empty and
/// without overlay if the room holds it and either `force` is set or it was
/// part of the footprint.
pub open spec fn carved_from(before: Room, after: Room, tx: int, ty: int, force: bool) -> bool {
    &&& after.wf()
    &&& after.x == before.x && after.y == before.y
    &&& after.w == before.w && after.h == before.h
    &&& after.base@ == before.carved_base(tx, ty, force)
    &&& after.overlay@ == before.carved_overlay(tx, ty, force)
    &&& after.doors@ == before.doors@
    &&& after.templates@ == before.templates@
    &&& forall|x: int, y: int|
        #[trigger] after.tile(x, y) == (if x == tx && y == ty && before.contains(x, y) && (force
            || before.tile(x, y).0 != BaseTile::NotPartOfRoom) {
            opening()
        } else {
            before.tile(x, y)
        })
}

/// Opening a passage in two rooms that agree leaves them in agreement.
pub proof fn lemma_carve_keeps_agreement(
    a: Room,
    a2: Room,
    b: Room,
    b2: Room,
    tx: int,
    ty: int,
    force_a: bool,
    force_b: bool,
)
    requires
        rooms_agree(a, b),
        carved_from(a, a2, tx, ty, force_a),
        carved_from(b, b2, tx, ty, force_b),
    ensures
        rooms_agree(a2, b2),
{
    assert forall|x: int, y: int| compatible(#[trigger] a2.tile(x, y), b2.tile(x, y)) by {
        assert(compatible(a.tile(x, y), b.tile(x, y)));
        assert(b2.tile(x, y) == b2.tile(x, y));
    }
}

/// Agreement of two rooms does not depend on their order.
pub proof fn lemma_agreement_symmetric(a: Room, b: Room)
    requires
        rooms_agree(a, b),
    ensures
        rooms_agree(b, a),
{
    assert forall|x: int, y: int| compatible(#[trigger] b.tile(x, y), a.tile(x, y)) by {
        assert(compatible(a.tile(x, y), b.tile(x, y)));
    }
}

/// Hanging a room that agrees with every placed room, and opening a passage
/// at `(tx, ty)` in all of them, keeps the rooms free of conflicts, makes
/// `(tx, ty)` a passage, and keeps every passage there was.
pub proof fn lemma_attach_keeps_invariant(
    before: Seq<Room>,
    after: Seq<Room>,
    moved: Room,
    tx: int,
    ty: int,
    tr: int,
)
    requires
        conflict_free(before),
        0 <= tr < before.len(),
        before[tr].contains(tx, ty),
        after.len() == before.len() + 1,
        forall|i: int| 0 <= i < before.len() ==> rooms_agree(moved, #[trigger] before[i]),
        forall|i: int|
            0 <= i < before.len() ==> carved_from(before[i], #[trigger] after[i], tx, ty, i == tr),
        carved_from(moved, after[before.len() as int], tx, ty, true),
    ensures
        conflict_free(after),
        forall|i: int| 0 <= i < after.len() ==> (#[trigger] after[i]).wf(),
        passage_at(after, tx, ty),
        forall|x: int, y: int| passage_at(before, x, y) ==> passage_at(after, x, y),
{
    let n = before.len() as int;
    assert forall|i: int, j: int| 0 <= i < after.len() && 0 <= j < after.len() && i != j implies rooms_agree(
        #[trigger] after[i],
        #[trigger] after[j],
    ) by {
        if i < n && j < n {
            assert(rooms_agree(before[i], before[j]));
            lemma_carve_keeps_agreement(before[i], after[i], before[j], after[j], tx, ty, i == tr, j == tr);
        } else if i == n {
            assert(rooms_agree(moved, before[j]));
            lemma_carve_keeps_agreement(moved, after[n], before[j], after[j], tx, ty, true, j == tr);
        } else {
            assert(rooms_agree(moved, before[i]));
            lemma_agreement_symmetric(moved, before[i]);
            lemma_carve_keeps_agreement(before[i], after[i], moved, after[n], tx, ty, i == tr, true);
        }
    }
    assert(after[tr].tile(tx, ty) == opening());
    assert forall|i: int| 0 <= i < after.len() implies compatible(
        (#[trigger] after[i]).tile(tx, ty),
        opening(),
    ) by {
        if i < n {
            assert(carved_from(before[i], after[i], tx, ty, i == tr));
        }
    }
    assert forall|x: int, y: int| passage_at(before, x, y) implies passage_at(after, x, y) by {
        let k = choose|k: int| 0 <= k < before.len() && (#[trigger] before[k]).tile(x, y) == opening();
        assert(carved_from(before[k], after[k], tx, ty, k == tr));
        assert(after[k].tile(x, y) == opening());
        assert forall|i: int| 0 <= i < after.len() implies compatible(
            (#[trigger] after[i]).tile(x, y),
            opening(),
        ) by {
            if i < n {
                assert(carved_from(before[i], after[i], tx, ty, i == tr));
                assert(compatible(before[i].tile(x, y), opening()));
            } else {
                assert(rooms_agree(moved, before[k]));
                assert(compatible(moved.tile(x, y), before[k].tile(x, y)));
            }
        }
    }
}

/// After a room is added, the rectangle that held the rooms before, widened
/// to hold the new room too, holds all rooms and touches a room on each side.
pub proof fn lemma_bounds_after_attach(
    before: Seq<Room>,
    after: Seq<Room>,
    x: int,
    y: int,
    w: int,
    h: int,
    nx: int,
    ny: int,
    nw: int,
    nh: int,
)
    requires
        before.len() >= 1,
        after.len() == before.len() + 1,
        bounds_hold(before, x, y, w, h),
        bounds_touch(before, x, y, w, h),
        forall|i: int|
            0 <= i < before.len() ==> (#[trigger] after[i]).x == before[i].x && after[i].y
                == before[i].y && after[i].w == before[i].w && after[i].h == before[i].h,
        nx == (if after.last().x < x { after.last().x as int } else { x }),
        ny == (if after.last().y < y { after.last().y as int } else { y }),
        nx + nw == (if after.last().x + after.last().w > x + w { after.last().x + after.last().w } else { x + w }),
        ny + nh == (if after.last().y + after.last().h > y + h { after.last().y + after.last().h } else { y + h }),
    ensures
        bounds_hold(after, nx, ny, nw, nh),
        bounds_touch(after, nx, ny, nw, nh),
{
    let n = before.len() as int;
    assert forall|i: int| 0 <= i < after.len() implies nx <= (#[trigger] after[i]).x && after[i].x
        + after[i].w <= nx + nw && ny <= after[i].y && after[i].y + after[i].h <= ny + nh by {
        if i < n {
            assert(x <= before[i].x);
        }
    }
    let a = choose|i: int| 0 <= i < before.len() && (#[trigger] before[i]).x == x;
    let b = choose|i: int| 0 <= i < before.len() && (#[trigger] before[i]).y == y;
    let c = choose|i: int| 0 <= i < before.len() && (#[trigger] before[i]).x + before[i].w == x + w;
    let d = choose|i: int| 0 <= i < before.len() && (#[trigger] before[i]).y + before[i].h == y + h;
    assert(after[a].x == before[a].x);
    assert(after[b].y == before[b].y);
    assert(after[c].x == before[c].x);
    assert(after[d].y == before[d].y);
    assert(after[n].x == after.last().x);
    if nx == x {
        assert(after[a].x == nx);
    } else {
        assert(after[n].x == nx);
    }
    if ny == y {
        assert(after[b].y == ny);
    } else {
        assert(after[n].y == ny);
    }
    if nx + nw == x + w {
        assert(after[c].x + after[c].w == nx + nw);
    } else {
        assert(after[n].x + after[n].w == nx + nw);
    }
    if ny + nh == y + h {
        assert(after[d].y + after[d].h == ny + nh);
    } else {
        assert(after[n].y + after[n].h == ny + nh);
    }
}

/// Two rooms that read the same at every world tile agree with the same
/// rooms.
pub proof fn lemma_same_tiles_agree(a: Room, b: Room, rooms: Seq<Room>)
    requires
        forall|x: int, y: int| #[trigger] a.tile(x, y) == b.tile(x, y),
    ensures
        forall|i: int|
            0 <= i < rooms.len() ==> rooms_agree(a, #[trigger] rooms[i]) == rooms_agree(b, rooms[i]),
{
    assert forall|i: int| 0 <= i < rooms.len() implies rooms_agree(a, #[trigger] rooms[i])
        == rooms_agree(b, rooms[i]) by {
        let other = rooms[i];
        if rooms_agree(a, other) {
            assert forall|x: int, y: int| compatible(#[trigger] b.tile(x, y), other.tile(x, y)) by {
                assert(compatible(a.tile(x, y), other.tile(x, y)));
            }
        }
        if rooms_agree(b, other) {
            assert forall|x: int, y: int| compatible(#[trigger] a.tile(x, y), other.tile(x, y)) by {
                assert(compatible(b.tile(x, y), other.tile(x, y)));
            }
        }
    }
}

/// No two rooms have the same anchor.
pub open spec fn anchors_distinct(rooms: Seq<Room>) -> bool {
    forall|i: int, j: int|
        0 <= i < j < rooms.len() ==> !((#[trigger] rooms[i]).x == (#[trigger] rooms[j]).x
            && rooms[i].y == rooms[j].y)
}

/// The room has a door of its own on the world tile `(tx, ty)` that looks
/// towards `dir`.
pub open spec fn door_of(room: Room, tx: int, ty: int, dir: DoorDir) -> bool {
    exists|d: int|
        0 <= d < room.doors@.len() && room.x + (#[trigger] room.doors@[d]).x == tx && room.y
            + room.doors@[d].y == ty && room.doors@[d].dir == dir
}

/// Room `i` hangs on the door recorded for it: on the tile of that door it
/// has a door of its own that faces a door of a room placed before it.
pub open spec fn hangs_on(rooms: Seq<Room>, doors: Seq<MapDoor>, i: int) -> bool {
    let d = doors[i - 1];
    &&& door_of(rooms[i], d.x as int, d.y as int, d.dir.spec_opposite())
    &&& exists|j: int| 0 <= j < i && door_of(#[trigger] rooms[j], d.x as int, d.y as int, d.dir)
}

/// Every room but the first hangs on the door recorded for it.
pub open spec fn well_hung(rooms: Seq<Room>, doors: Seq<MapDoor>) -> bool {
    &&& doors.len() == rooms.len() - 1
    &&& forall|i: int| 1 <= i < rooms.len() ==> #[trigger] hangs_on(rooms, doors, i)
}

/// What holds of the rooms and doors of a dungeon, finished or not: there
/// is a room; every room is well formed; the rectangle `(x, y, w, h)` is the
/// smallest that holds all rooms, and respects the size limits; no two rooms
/// conflict or share an anchor; there is one door for every room but the
/// first, and each door stands on a passage.
pub open spec fn layout_ok(rooms: Seq<Room>, doors: Seq<MapDoor>, x: int, y: int, w: int, h: int)
    -> bool {
    &&& rooms.len() >= 1
    &&& forall|i: int| 0 <= i < rooms.len() ==> (#[trigger] rooms[i]).wf()
    &&& Room::fits(x, y, w, h)
    &&& bounds_hold(rooms, x, y, w, h)
    &&& bounds_touch(rooms, x, y, w, h)
    &&& conflict_free(rooms)
    &&& anchors_distinct(rooms)
    &&& doors.len() == rooms.len() - 1
    &&& forall|k: int|
        0 <= k < doors.len() ==> passage_at(rooms, (#[trigger] doors[k]).x as int, doors[k].y as int)
}

/// A room keeps the doors it has when nothing but its tiles changes.
pub proof fn lemma_door_of_kept(before: Room, after: Room, tx: int, ty: int, dir: DoorDir)
    requires
        after.x == before.x && after.y == before.y,
        after.doors@ == before.doors@,
        door_of(before, tx, ty, dir),
    ensures
        door_of(after, tx, ty, dir),
{
    let d = choose|d: int|
        0 <= d < before.doors@.len() && before.x + (#[trigger] before.doors@[d]).x == tx && before.y
            + before.doors@[d].y == ty && before.doors@[d].dir == dir;
    assert(0 <= d < after.doors@.len() && after.x + after.doors@[d].x == tx && after.y
        + after.doors@[d].y == ty && after.doors@[d].dir == dir);
}

/// After a room has been hung by its door `cd` on door `td` of room `tr`,
/// and the door between them recorded, every room still hangs on the door
/// recorded for it, and so does the new room.
pub proof fn lemma_attach_keeps_hanging(
    before: Seq<Room>,
    doors_before: Seq<MapDoor>,
    after: Seq<Room>,
    doors_after: Seq<MapDoor>,
    tr: int,
    td: int,
    cd: int,
)
    requires
        well_hung(before, doors_before),
        before.len() >= 1,
        after.len() == before.len() + 1,
        0 <= tr < before.len(),
        0 <= td < before[tr].doors@.len(),
        0 <= cd < after[before.len() as int].doors@.len(),
        forall|i: int|
            0 <= i < before.len() ==> (#[trigger] after[i]).x == before[i].x && after[i].y
                == before[i].y && after[i].doors@ == before[i].doors@,
        doors_after.len() == doors_before.len() + 1,
        forall|k: int| 0 <= k < doors_before.len() ==> #[trigger] doors_after[k] == doors_before[k],
        doors_after[doors_before.len() as int].x == before[tr].x + before[tr].doors@[td].x,
        doors_after[doors_before.len() as int].y == before[tr].y + before[tr].doors@[td].y,
        doors_after[doors_before.len() as int].dir == before[tr].doors@[td].dir,
        after[before.len() as int].x + after[before.len() as int].doors@[cd].x == before[tr].x
            + before[tr].doors@[td].x,
        after[before.len() as int].y + after[before.len() as int].doors@[cd].y == before[tr].y
            + before[tr].doors@[td].y,
        after[before.len() as int].doors@[cd].dir == before[tr].doors@[td].dir.spec_opposite(),
    ensures
        well_hung(after, doors_after),
{
    let n = before.len() as int;
    assert forall|i: int| 1 <= i < after.len() implies #[trigger] hangs_on(after, doors_after, i) by {
        let d = doors_after[i - 1];
        if i < n {
            assert(hangs_on(before, doors_before, i));
            assert(d == doors_before[i - 1]);
            lemma_door_of_kept(before[i], after[i], d.x as int, d.y as int, d.dir.spec_opposite());
            let j = choose|j: int|
                0 <= j < i && door_of(#[trigger] before[j], d.x as int, d.y as int, d.dir);
            lemma_door_of_kept(before[j], after[j], d.x as int, d.y as int, d.dir);
            assert(0 <= j < i && door_of(after[j], d.x as int, d.y as int, d.dir));
        } else {
            let room = after[n];
            assert(0 <= cd < room.doors@.len() && room.x + room.doors@[cd].x == d.x && room.y
                + room.doors@[cd].y == d.y && room.doors@[cd].dir == d.dir.spec_opposite());
            assert(0 <= td < before[tr].doors@.len() && before[tr].x + before[tr].doors@[td].x
                == d.x && before[tr].y + before[tr].doors@[td].y == d.y && before[tr].doors@[td].dir
                == d.dir);
            assert(door_of(before[tr], d.x as int, d.y as int, d.dir));
            lemma_door_of_kept(before[tr], after[tr], d.x as int, d.y as int, d.dir);
            assert(0 <= tr < i && door_of(after[tr], d.x as int, d.y as int, d.dir));
        }
    }
}

/// A dungeon under construction: the rooms placed so far, the doors that
/// join them, and the smallest rectangle that holds them all.
pub struct Assembly {
    pub rooms: Vec<Room>,
    pub doors: Vec<MapDoor>,
    pub x: i32,
    pub y: i32,
    pub w: u32,
    pub h: u32,
}

impl Assembly {
    /// The invariant of a dungeon under construction.
    pub open spec fn wf(&self) -> bool {
        layout_ok(
            self.rooms@,
            self.doors@,
            self.x as int,
            self.y as int,
            self.w as int,
            self.h as int,
        )
    }

    /// Starts a dungeon with a copy of `first`, anchored at `(x, y)`.
    pub fn start(first: &Room, x: i32, y: i32) -> (a: Assembly)
        requires
            first.wf(),
            Room::fits(x as int, y as int, first.w as int, first.h as int),
        ensures
            a.wf(),
            a.rooms@.len() == 1,
            a.rooms@[0].x == x && a.rooms@[0].y == y,
            a.rooms@[0].w == first.w && a.rooms@[0].h == first.h,
            a.rooms@[0].base@ == first.base@,
            a.rooms@[0].overlay@ == first.overlay@,
            a.rooms@[0].doors@ == first.doors@,
            a.rooms@[0].templates@ == first.templates@,
            a.doors@.len() == 0,
            a.x == x && a.y == y && a.w == first.w && a.h == first.h,
            well_hung(a.rooms@, a.doors@),
    {
        let room = first.moved_to(x, y);
        let mut rooms: Vec<Room> = Vec::new();
        rooms.push(room);
        let a = Assembly { rooms, doors: Vec::new(), x, y, w: first.w, h: first.h };
        assert(a.rooms@[0].x == x);
        a
    }

    /// World column of door `td` of room `tr`.
    pub open spec fn door_x(&self, tr: int, td: int) -> int {
        self.rooms@[tr].x + self.rooms@[tr].doors@[td].x
    }

    /// World row of door `td` of room `tr`.
    pub open spec fn door_y(&self, tr: int, td: int) -> int {
        self.rooms@[tr].y + self.rooms@[tr].doors@[td].y
    }

    /// Anchor column that puts door `cd` of `cand` on door `td` of room `tr`.
    pub open spec fn attach_x(&self, tr: int, td: int, cand: Room, cd: int) -> int {
        self.door_x(tr, td) - cand.doors@[cd].x
    }

    /// Anchor row that puts door `cd` of `cand` on door `td` of room `tr`.
    pub open spec fn attach_y(&self, tr: int, td: int, cand: Room, cd: int) -> int {
        self.door_y(tr, td) - cand.doors@[cd].y
    }

    /// True when `cand` can be hung by its door `cd` on door `td` of room
    /// `tr`: the two doors face each other; the moved room fits the machine's
    /// integers; no room has the same anchor; the moved room agrees with
    /// every placed room; and the rectangle around all rooms stays within
    /// the size limits.
    pub open spec fn can_attach(&self, tr: int, td: int, cand: Room, cd: int) -> bool {
        let ax = self.attach_x(tr, td, cand, cd);
        let ay = self.attach_y(tr, td, cand, cd);
        let nx = if ax < self.x { ax } else { self.x as int };
        let ny = if ay < self.y { ay } else { self.y as int };
        let nr = if ax + cand.w > self.x + self.w { ax + cand.w } else { self.x + self.w };
        let nb = if ay + cand.h > self.y + self.h { ay + cand.h } else { self.y + self.h };
        &&& cand.doors@[cd].dir == self.rooms@[tr].doors@[td].dir.spec_opposite()
        &&& i32::MIN <= ax && ax + cand.w <= i32::MAX
        &&& i32::MIN <= ay && ay + cand.h <= i32::MAX
        &&& forall|i: int|
            0 <= i < self.rooms@.len() ==> !((#[trigger] self.rooms@[i]).x == ax && self.rooms@[i].y
                == ay)
        &&& forall|i: int|
            0 <= i < self.rooms@.len() ==> rooms_agree(
                cand.spec_moved_to(ax, ay),
                #[trigger] self.rooms@[i],
            )
        &&& Room::fits(nx, ny, nr - nx, nb - ny)
    }

    /// How the dungeon `after` relates to `self` when `cand` has been hung by
    /// its door `cd` on door `td` of room `tr`: the moved room is the last
    /// room, a passage is open at the place of the two doors in every room
    /// that has a tile there, a door between the rooms is recorded, and the
    /// rectangle around the rooms has grown to hold the new room.
    pub open spec fn attached(&self, after: &Assembly, tr: int, td: int, cand: Room, cd: int) -> bool {
        let ax = self.attach_x(tr, td, cand, cd);
        let ay = self.attach_y(tr, td, cand, cd);
        let dx = self.door_x(tr, td);
        let dy = self.door_y(tr, td);
        let n = self.rooms@.len() as int;
        &&& after.rooms@.len() == n + 1
        &&& forall|i: int|
            0 <= i < n ==> carved_from(self.rooms@[i], #[trigger] after.rooms@[i], dx, dy, i == tr)
        &&& carved_from(cand.spec_moved_to(ax, ay), after.rooms@[n], dx, dy, true)
        &&& after.doors@ == self.doors@.push(
            MapDoor {
                x: dx as i32,
                y: dy as i32,
                dir: self.rooms@[tr].doors@[td].dir,
                open: true,
                closed_frames: 0,
            },
        )
        &&& after.x == (if ax < self.x { ax } else { self.x as int })
        &&& after.y == (if ay < self.y { ay } else { self.y as int })
        &&& after.x + after.w == (if ax + cand.w > self.x + self.w { ax + cand.w } else { self.x + self.w })
        &&& after.y + after.h == (if ay + cand.h > self.y + self.h { ay + cand.h } else { self.y + self.h })
    }

    /// Tells whether some placed room has its anchor at `(ax, ay)`.
    fn anchor_taken(&self, ax: i64, ay: i64) -> (r: bool)
        ensures
            r == exists|i: int|
                0 <= i < self.rooms@.len() && (#[trigger] self.rooms@[i]).x == ax && self.rooms@[i].y
                    == ay,
    {
        let n = self.rooms.len();
        let mut i: usize = 0;
        while i < n
            invariant
                n == self.rooms@.len(),
                i <= n,
                forall|k: int|
                    0 <= k < i ==> !((#[trigger] self.rooms@[k]).x == ax && self.rooms@[k].y == ay),
            decreases n - i,
        {
            if self.rooms[i].x as i64 == ax && self.rooms[i].y as i64 == ay {
                return true;
            }
            i += 1;
        }
        false
    }

    /// Tells whether `moved` agrees with every placed room.
    fn agrees_with_all(&self, moved: &Room) -> (r: bool)
        requires
            moved.wf(),
            forall|i: int| 0 <= i < self.rooms@.len() ==> (#[trigger] self.rooms@[i]).wf(),
        ensures
            r == forall|i: int|
                0 <= i < self.rooms@.len() ==> rooms_agree(*moved, #[trigger] self.rooms@[i]),
    {
        let n = self.rooms.len();
        let mut i: usize = 0;
        while i < n
            invariant
                n == self.rooms@.len(),
                i <= n,
                moved.wf(),
                forall|k: int| 0 <= k < n ==> (#[trigger] self.rooms@[k]).wf(),
                forall|k: int| 0 <= k < i ==> rooms_agree(*moved, #[trigger] self.rooms@[k]),
            decreases n - i,
        {
            if !rooms_compatible(moved, &self.rooms[i]) {
                return false;
            }
            i += 1;
        }
        true
    }

    /// Opens a passage at a world tile in every placed room that has a tile
    /// there, and in room `forced` whatever it has there.
    fn carve_all(&mut self, tx: i32, ty: i32, forced: usize)
        requires
            forall|i: int| 0 <= i < old(self).rooms@.len() ==> (#[trigger] old(self).rooms@[i]).wf(),
        ensures
            final(self).rooms@.len() == old(self).rooms@.len(),
            forall|k: int|
                0 <= k < old(self).rooms@.len() ==> carved_from(
                    old(self).rooms@[k],
                    #[trigger] final(self).rooms@[k],
                    tx as int,
                    ty as int,
                    k == forced,
                ),
            final(self).doors == old(self).doors,
            final(self).x == old(self).x && final(self).y == old(self).y,
            final(self).w == old(self).w && final(self).h == old(self).h,
    {
        let n = self.rooms.len();
        let ghost before = self.rooms@;
        let mut i: usize = 0;
        while i < n
            invariant
                n == self.rooms@.len(),
                n == before.len(),
                i <= n,
                forall|k: int| 0 <= k < n ==> (#[trigger] before[k]).wf(),
                forall|k: int|
                    0 <= k < i ==> carved_from(
                        before[k],
                        #[trigger] self.rooms@[k],
                        tx as int,
                        ty as int,
                        k == forced,
                    ),
                forall|k: int| i <= k < n ==> #[trigger] self.rooms@[k] == before[k],
                self.doors == old(self).doors,
                self.x == old(self).x && self.y == old(self).y,
                self.w == old(self).w && self.h == old(self).h,
            decreases n - i,
        {
            let room = &mut self.rooms[i];
            room.carve(tx, ty, i == forced);
            i += 1;
        }
    }

    /// Tries to hang a copy of `candidate` by its door `candidate_door` on
    /// door `target_door` of the placed room `target_room`. On success the
    /// copy is added, a passage is opened where the doors meet, and a door
    /// between the rooms is recorded; else nothing changes.
    pub fn try_attach(
        &mut self,
        target_room: usize,
        target_door: usize,
        candidate: &Room,
        candidate_door: usize,
    ) -> (placed: bool)
        requires
            old(self).wf(),
            candidate.wf(),
            target_room < old(self).rooms@.len(),
            target_door < old(self).rooms@[target_room as int].doors@.len(),
            candidate_door < candidate.doors@.len(),
        ensures
            final(self).wf(),
            placed == old(self).can_attach(
                target_room as int,
                target_door as int,
                *candidate,
                candidate_door as int,
            ),
            placed ==> old(self).attached(
                final(self),
                target_room as int,
                target_door as int,
                *candidate,
                candidate_door as int,
            ),
            placed ==> passage_at(
                final(self).rooms@,
                old(self).door_x(target_room as int, target_door as int),
                old(self).door_y(target_room as int, target_door as int),
            ),
            well_hung(old(self).rooms@, old(self).doors@) ==> well_hung(
                final(self).rooms@,
                final(self).doors@,
            ),
            !placed ==> *final(self) == *old(self),
    {
        let n = self.rooms.len();
        let td = self.rooms[target_room].doors[target_door];
        let cd = candidate.doors[candidate_door];
        assert(self.rooms@[target_room as int].wf());
        assert(self.rooms@[target_room as int].door_inside(td));
        assert(candidate.door_inside(cd));
        if cd.dir != td.dir.opposite() {
            return false;
        }
        let dx: i64 = self.rooms[target_room].x as i64 + td.x as i64;
        let dy: i64 = self.rooms[target_room].y as i64 + td.y as i64;
        let ax: i64 = dx - cd.x as i64;
        let ay: i64 = dy - cd.y as i64;
        if ax < -0x8000_0000 || ax + candidate.w as i64 > 0x7fff_ffff || ay < -0x8000_0000 || ay
            + candidate.h as i64 > 0x7fff_ffff {
            return false;
        }
        if self.anchor_taken(ax, ay) {
            return false;
        }
        let mut moved = candidate.moved_to(ax as i32, ay as i32);
        let ghost moved0 = candidate.spec_moved_to(ax as int, ay as int);
        proof {
            lemma_same_tiles_agree(moved, moved0, self.rooms@);
        }
        if !self.agrees_with_all(&moved) {
            return false;
        }
        let nx: i64 = if ax < self.x as i64 { ax } else { self.x as i64 };
        let ny: i64 = if ay < self.y as i64 { ay } else { self.y as i64 };
        let right: i64 = self.x as i64 + self.w as i64;
        let bottom: i64 = self.y as i64 + self.h as i64;
        let nr: i64 = if ax + candidate.w as i64 > right { ax + candidate.w as i64 } else { right };
        let nb: i64 = if ay + candidate.h as i64 > bottom { ay + candidate.h as i64 } else { bottom };
        let nw: i64 = nr - nx;
        let nh: i64 = nb - ny;
        if nw > 0x7fff_ffff || nh > 0x7fff_ffff {
            return false;
        }
        proof {
            assert(nw * nh <= 0x7fff_ffff * 0x7fff_ffff) by (nonlinear_arith)
                requires
                    0 <= nw <= 0x7fff_ffff,
                    0 <= nh <= 0x7fff_ffff,
            ;
        }
        if nw * nh > 0xffff_ffff {
            return false;
        }
        assert(old(self).can_attach(
            target_room as int,
            target_door as int,
            *candidate,
            candidate_door as int,
        ));

        let ghost before = self.rooms@;
        self.carve_all(dx as i32, dy as i32, target_room);
        moved.carve(dx as i32, dy as i32, true);
        proof {
            assert(moved0.contains(dx as int, dy as int));
            assert(carved_from(moved0, moved, dx as int, dy as int, true)) by {
                assert forall|x: int, y: int| #[trigger]
                    moved.tile(x, y) == (if x == dx && y == dy && moved0.contains(x, y) && (true
                        || moved0.tile(x, y).0 != BaseTile::NotPartOfRoom) {
                        opening()
                    } else {
                        moved0.tile(x, y)
                    }) by {}
            }
        }
        let ghost carved = self.rooms@;
        self.rooms.push(moved);
        self.doors.push(
            MapDoor { x: dx as i32, y: dy as i32, dir: td.dir, open: true, closed_frames: 0 },
        );
        self.x = nx as i32;
        self.y = ny as i32;
        self.w = nw as u32;
        self.h = nh as u32;
        proof {
            assert forall|k: int| 0 <= k < n implies carved_from(
                before[k],
                #[trigger] self.rooms@[k],
                dx as int,
                dy as int,
                k == target_room,
            ) by {
                assert(self.rooms@[k] == carved[k]);
            }
            assert(self.rooms@[n as int] == moved);
            lemma_attach_keeps_invariant(
                before,
                self.rooms@,
                moved0,
                dx as int,
                dy as int,
                target_room as int,
            );
            assert forall|k: int| 0 <= k < self.doors@.len() implies passage_at(
                self.rooms@,
                (#[trigger] self.doors@[k]).x as int,
                self.doors@[k].y as int,
            ) by {
                if k < old(self).doors@.len() {
                    assert(self.doors@[k] == old(self).doors@[k]);
                    assert(passage_at(before, old(self).doors@[k].x as int, old(self).doors@[k].y as int));
                }
            }
            lemma_bounds_after_attach(
                before,
                self.rooms@,
                old(self).x as int,
                old(self).y as int,
                old(self).w as int,
                old(self).h as int,
                self.x as int,
                self.y as int,
                self.w as int,
                self.h as int,
            );
            assert forall|i: int, j: int| 0 <= i < j < self.rooms@.len() implies !((
            #[trigger] self.rooms@[i]).x == (#[trigger] self.rooms@[j]).x && self.rooms@[i].y
                == self.rooms@[j].y) by {
                assert(self.rooms@[i].x == before[i].x && self.rooms@[i].y == before[i].y);
                if j < n {
                    assert(self.rooms@[j].x == before[j].x && self.rooms@[j].y == before[j].y);
                    assert(!(before[i].x == before[j].x && before[i].y == before[j].y));
                } else {
                    assert(!(before[i].x == ax && before[i].y == ay));
                }
            }
            if well_hung(before, old(self).doors@) {
                lemma_attach_keeps_hanging(
                    before,
                    old(self).doors@,
                    self.rooms@,
                    self.doors@,
                    target_room as int,
                    target_door as int,
                    candidate_door as int,
                );
            }
        }
        true
    }
}

} // verus!

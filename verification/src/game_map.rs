//! A finished dungeon: its rooms and doors, and one flat buffer of tiles
//! that answers point queries without looking at the rooms.

use vstd::prelude::*;
use crate::assembly::{layout_ok, passage_at, Assembly};
use crate::dungeon::{compatible, opening, MapDoor};
use crate::grid::{cell_index, index_of, lemma_cell_index_in_range, lemma_cell_index_injective};
use crate::room::{Room, SpawnTemplate};
use crate::tiles::{BaseTile, OverlayTile};
use crate::units::rect_in_span;
use crate::world::MapLike;

verus! {

/// What a world tile that no room claims reads as in a dungeon.
pub open spec fn unclaimed_cell() -> (BaseTile, OverlayTile) {
    (BaseTile::Stone, OverlayTile::Nothing)
}

/// The tiles of a dungeon at a world tile, looking at the rooms from index
/// `from` on: those of the first room whose base tile there is part of its
/// footprint, and stone without overlay if there is no such room.
pub open spec fn flat_tile(rooms: Seq<Room>, tx: int, ty: int, from: int) -> (BaseTile, OverlayTile)
    decreases rooms.len() - from,
{
    if from < 0 || from >= rooms.len() {
        unclaimed_cell()
    } else if rooms[from].tile(tx, ty).0 != BaseTile::NotPartOfRoom {
        rooms[from].tile(tx, ty)
    } else {
        flat_tile(rooms, tx, ty, from + 1)
    }
}

/// Where no room holds a world tile, the dungeon reads as unclaimed.
pub proof fn lemma_flat_tile_outside(rooms: Seq<Room>, tx: int, ty: int, from: int)
    requires
        0 <= from,
        forall|i: int| from <= i < rooms.len() ==> !(#[trigger] rooms[i]).contains(tx, ty),
    ensures
        flat_tile(rooms, tx, ty, from) == unclaimed_cell(),
    decreases rooms.len() - from,
{
    if from < rooms.len() {
        assert(!rooms[from].contains(tx, ty));
        lemma_flat_tile_outside(rooms, tx, ty, from + 1);
    }
}

/// A passage reads as an empty tile without overlay in the dungeon.
pub proof fn lemma_passage_is_open(rooms: Seq<Room>, tx: int, ty: int)
    requires
        passage_at(rooms, tx, ty),
    ensures
        flat_tile(rooms, tx, ty, 0) == opening(),
{
    let k = choose|k: int| 0 <= k < rooms.len() && (#[trigger] rooms[k]).tile(tx, ty) == opening();
    lemma_passage_from(rooms, tx, ty, 0, k);
}

proof fn lemma_passage_from(rooms: Seq<Room>, tx: int, ty: int, from: int, k: int)
    requires
        0 <= from <= k < rooms.len(),
        rooms[k].tile(tx, ty) == opening(),
        forall|i: int| 0 <= i < rooms.len() ==> compatible((#[trigger] rooms[i]).tile(tx, ty), opening()),
    ensures
        flat_tile(rooms, tx, ty, from) == opening(),
    decreases k - from,
{
    assert(compatible(rooms[from].tile(tx, ty), opening()));
    if from < k {
        lemma_passage_from(rooms, tx, ty, from + 1, k);
    }
}

/// A finished dungeon.
pub struct GameMap {
    pub rooms: Vec<Room>,
    pub doors: Vec<MapDoor>,
    pub base: Vec<BaseTile>,
    pub overlay: Vec<OverlayTile>,
    pub x: i32,
    pub y: i32,
    pub w: u32,
    pub h: u32,
}

/// True when the two buffers, read as a grid `w` wide anchored at `(x, y)`,
/// hold at every cell what `flat_tile` gives for the rooms from `from` on.
pub open spec fn buffer_matches(
    base: Seq<BaseTile>,
    overlay: Seq<OverlayTile>,
    rooms: Seq<Room>,
    from: int,
    x: int,
    y: int,
    w: int,
    h: int,
) -> bool {
    forall|cx: int, cy: int|
        0 <= cx < w && 0 <= cy < h ==> (
            #[trigger] base[cell_index(w, cx, cy)],
            overlay[cell_index(w, cx, cy)],
        ) == flat_tile(rooms, x + cx, y + cy, from)
}

impl GameMap {
    /// The dungeon's invariant: the layout is sound, and the flat buffer
    /// holds, for every tile of the rectangle around the rooms, what the
    /// rooms say.
    pub open spec fn wf(&self) -> bool {
        &&& layout_ok(
            self.rooms@,
            self.doors@,
            self.x as int,
            self.y as int,
            self.w as int,
            self.h as int,
        )
        &&& self.base@.len() == self.w * self.h
        &&& self.overlay@.len() == self.w * self.h
        &&& buffer_matches(
            self.base@,
            self.overlay@,
            self.rooms@,
            0,
            self.x as int,
            self.y as int,
            self.w as int,
            self.h as int,
        )
    }

    /// The tiles of the dungeon at a world tile.
    pub open spec fn tile(&self, tx: int, ty: int) -> (BaseTile, OverlayTile) {
        flat_tile(self.rooms@, tx, ty, 0)
    }

    /// True when a closed door of the dungeon reaches into the rectangle.
    pub open spec fn closed_door_at(&self, x: int, y: int, w: int, h: int) -> bool {
        exists|k: int|
            0 <= k < self.doors@.len() && (#[trigger] self.doors@[k]).closed() && self.doors@[k].touches(
                x,
                y,
                w,
                h,
            )
    }
}

/// Writes the footprint of `room` over the buffers of a grid `w` by `h`
/// anchored at `(x, y)`: every cell whose tile is part of the room's
/// footprint takes the room's tiles, every other cell keeps its own.
fn stamp_room(
    base: &mut Vec<BaseTile>,
    overlay: &mut Vec<OverlayTile>,
    x: i32,
    y: i32,
    w: u32,
    h: u32,
    room: &Room,
)
    requires
        room.wf(),
        Room::fits(x as int, y as int, w as int, h as int),
        x <= room.x && room.x + room.w <= x + w,
        y <= room.y && room.y + room.h <= y + h,
        old(base)@.len() == w * h,
        old(overlay)@.len() == w * h,
    ensures
        final(base)@.len() == w * h,
        final(overlay)@.len() == w * h,
        forall|cx: int, cy: int|
            0 <= cx < w && 0 <= cy < h ==> (
                #[trigger] final(base)@[cell_index(w as int, cx, cy)],
                final(overlay)@[cell_index(w as int, cx, cy)],
            ) == (if room.tile(x + cx, y + cy).0 != BaseTile::NotPartOfRoom {
                room.tile(x + cx, y + cy)
            } else {
                (
                    old(base)@[cell_index(w as int, cx, cy)],
                    old(overlay)@[cell_index(w as int, cx, cy)],
                )
            }),
{
    let off_x: u32 = (room.x as i64 - x as i64) as u32;
    let off_y: u32 = (room.y as i64 - y as i64) as u32;
    let mut ry: u32 = 0;
    while ry < room.h
        invariant
            room.wf(),
            w * h <= u32::MAX,
            off_x == room.x - x,
            off_y == room.y - y,
            off_x + room.w <= w,
            off_y + room.h <= h,
            ry <= room.h,
            base@.len() == w * h,
            overlay@.len() == w * h,
            forall|cx: int, cy: int|
                0 <= cx < w && 0 <= cy < h ==> (
                    #[trigger] base@[cell_index(w as int, cx, cy)],
                    overlay@[cell_index(w as int, cx, cy)],
                ) == (if room.tile(x + cx, y + cy).0 != BaseTile::NotPartOfRoom && cy - off_y < ry {
                    room.tile(x + cx, y + cy)
                } else {
                    (
                        old(base)@[cell_index(w as int, cx, cy)],
                        old(overlay)@[cell_index(w as int, cx, cy)],
                    )
                }),
        decreases room.h - ry,
    {
        let mut rx: u32 = 0;
        while rx < room.w
            invariant
                room.wf(),
                w * h <= u32::MAX,
                off_x == room.x - x,
                off_y == room.y - y,
                off_x + room.w <= w,
                off_y + room.h <= h,
                ry < room.h,
                rx <= room.w,
                base@.len() == w * h,
                overlay@.len() == w * h,
                forall|cx: int, cy: int|
                    0 <= cx < w && 0 <= cy < h ==> (
                        #[trigger] base@[cell_index(w as int, cx, cy)],
                        overlay@[cell_index(w as int, cx, cy)],
                    ) == (if room.tile(x + cx, y + cy).0 != BaseTile::NotPartOfRoom && (cy - off_y
                        < ry || (cy - off_y == ry && cx - off_x < rx)) {
                        room.tile(x + cx, y + cy)
                    } else {
                        (
                            old(base)@[cell_index(w as int, cx, cy)],
                            old(overlay)@[cell_index(w as int, cx, cy)],
                        )
                    }),
            decreases room.w - rx,
        {
            let (b, o) = room.get_absolute(rx, ry);
            if b != BaseTile::NotPartOfRoom {
                let to = index_of(w, h, rx + off_x, ry + off_y);
                base.set(to, b);
                overlay.set(to, o);
                proof {
                    assert forall|cx: int, cy: int| 0 <= cx < w && 0 <= cy < h implies (
                        #[trigger] base@[cell_index(w as int, cx, cy)],
                        overlay@[cell_index(w as int, cx, cy)],
                    ) == (if room.tile(x + cx, y + cy).0 != BaseTile::NotPartOfRoom && (cy - off_y
                        < ry || (cy - off_y == ry && cx - off_x < rx + 1)) {
                        room.tile(x + cx, y + cy)
                    } else {
                        (
                            old(base)@[cell_index(w as int, cx, cy)],
                            old(overlay)@[cell_index(w as int, cx, cy)],
                        )
                    }) by {
                        lemma_cell_index_in_range(w as int, h as int, cx, cy);
                        if cell_index(w as int, cx, cy) == to {
                            lemma_cell_index_injective(
                                w as int,
                                cx,
                                cy,
                                rx + off_x,
                                ry + off_y,
                            );
                        }
                    }
                }
            }
            rx += 1;
        }
        ry += 1;
    }
}

impl GameMap {
    /// Finishes a dungeon: keeps the rooms and doors and builds the flat
    /// buffer over the rectangle around the rooms.
    pub fn from_assembly(a: Assembly) -> (map: GameMap)
        requires
            a.wf(),
        ensures
            map.wf(),
            map.rooms@ == a.rooms@,
            map.doors@ == a.doors@,
            map.x == a.x && map.y == a.y && map.w == a.w && map.h == a.h,
    {
        let size: u32 = a.w * a.h;
        let mut base = vec![BaseTile::Stone; size as usize];
        let mut overlay = vec![OverlayTile::Nothing; size as usize];
        let n = a.rooms.len();
        proof {
            assert forall|cx: int, cy: int| 0 <= cx < a.w && 0 <= cy < a.h implies (
                #[trigger] base@[cell_index(a.w as int, cx, cy)],
                overlay@[cell_index(a.w as int, cx, cy)],
            ) == flat_tile(a.rooms@, a.x + cx, a.y + cy, n as int) by {
                lemma_cell_index_in_range(a.w as int, a.h as int, cx, cy);
            }
        }
        let mut i: usize = n;
        while i > 0
            invariant
                a.wf(),
                n == a.rooms@.len(),
                i <= n,
                base@.len() == a.w * a.h,
                overlay@.len() == a.w * a.h,
                buffer_matches(
                    base@,
                    overlay@,
                    a.rooms@,
                    i as int,
                    a.x as int,
                    a.y as int,
                    a.w as int,
                    a.h as int,
                ),
            decreases i,
        {
            i -= 1;
            assert(a.rooms@[i as int].wf());
            stamp_room(&mut base, &mut overlay, a.x, a.y, a.w, a.h, &a.rooms[i]);
        }
        GameMap { rooms: a.rooms, doors: a.doors, base, overlay, x: a.x, y: a.y, w: a.w, h: a.h }
    }

    /// The rectangle around all rooms: anchor, width and height in tiles.
    pub fn get_bounds(&self) -> (r: (i32, i32, u32, u32))
        ensures
            r == (self.x, self.y, self.w, self.h),
    {
        (self.x, self.y, self.w, self.h)
    }

    /// Width in tiles of the rectangle around all rooms.
    pub fn width_tiles(&self) -> (r: usize)
        ensures
            r == self.w,
    {
        self.w as usize
    }

    /// Height in tiles of the rectangle around all rooms.
    pub fn height_tiles(&self) -> (r: usize)
        ensures
            r == self.h,
    {
        self.h as usize
    }
}

/// True when the point `(px, py)`, in thousandths of a tile, lies in the
/// room's rectangle drawn in by half a tile on every side.
pub open spec fn room_holds_point(room: Room, px: int, py: int) -> bool {
    &&& room.x * 1000 + 500 <= px < (room.x + room.w) * 1000 - 500
    &&& room.y * 1000 + 500 <= py < (room.y + room.h) * 1000 - 500
}

/// A spawn point of a room, moved from the room's own coordinates to world
/// coordinates.
pub open spec fn world_spawn(room: Room, t: SpawnTemplate) -> SpawnTemplate {
    SpawnTemplate { x: (room.x * 1000 + t.x) as i64, y: (room.y * 1000 + t.y) as i64, kind: t.kind }
}

/// The spawn points of one room in world coordinates, in the room's order.
pub open spec fn room_spawns(room: Room) -> Seq<SpawnTemplate> {
    Seq::new(room.templates@.len(), |i: int| world_spawn(room, room.templates@[i]))
}

/// The spawn points of the first `n` rooms in world coordinates, room by
/// room.
pub open spec fn spawns_of(rooms: Seq<Room>, n: int) -> Seq<SpawnTemplate>
    decreases n,
{
    if n <= 0 {
        Seq::empty()
    } else {
        spawns_of(rooms, n - 1) + room_spawns(rooms[n - 1])
    }
}

/// A door one frame later: a frame of forced closure has gone by.
pub open spec fn ticked(d: MapDoor) -> MapDoor {
    MapDoor {
        closed_frames: if d.closed_frames > 0 {
            (d.closed_frames - 1) as u32
        } else {
            0
        },
        ..d
    }
}

impl GameMap {
    /// The first room whose rectangle, drawn in by half a tile, holds the
    /// point `(px, py)` given in thousandths of a tile.
    pub fn get_room_at(&self, px: i64, py: i64) -> (r: Option<usize>)
        requires
            self.wf(),
        ensures
            match r {
                Some(i) => i < self.rooms@.len() && room_holds_point(
                    self.rooms@[i as int],
                    px as int,
                    py as int,
                ) && forall|j: int|
                    0 <= j < i ==> !room_holds_point(#[trigger] self.rooms@[j], px as int, py as int),
                None => forall|j: int|
                    0 <= j < self.rooms@.len() ==> !room_holds_point(
                        #[trigger] self.rooms@[j],
                        px as int,
                        py as int,
                    ),
            },
    {
        let n = self.rooms.len();
        let mut i: usize = 0;
        while i < n
            invariant
                self.wf(),
                n == self.rooms@.len(),
                i <= n,
                forall|j: int|
                    0 <= j < i ==> !room_holds_point(#[trigger] self.rooms@[j], px as int, py as int),
            decreases n - i,
        {
            let room = &self.rooms[i];
            assert(self.rooms@[i as int].wf());
            let left: i64 = room.x as i64 * 1000 + 500;
            let right: i64 = (room.x as i64 + room.w as i64) * 1000 - 500;
            let top: i64 = room.y as i64 * 1000 + 500;
            let bottom: i64 = (room.y as i64 + room.h as i64) * 1000 - 500;
            if left <= px && px < right && top <= py && py < bottom {
                return Some(i);
            }
            i += 1;
        }
        None
    }

    /// The spawn points of all rooms in world coordinates, room by room.
    pub fn get_enemies_from_templates(&self) -> (r: Vec<SpawnTemplate>)
        requires
            self.wf(),
        ensures
            r@ == spawns_of(self.rooms@, self.rooms@.len() as int),
    {
        let mut out: Vec<SpawnTemplate> = Vec::new();
        let n = self.rooms.len();
        let mut i: usize = 0;
        while i < n
            invariant
                self.wf(),
                n == self.rooms@.len(),
                i <= n,
                out@ == spawns_of(self.rooms@, i as int),
            decreases n - i,
        {
            let room = &self.rooms[i];
            assert(self.rooms@[i as int].wf());
            let m = room.templates.len();
            let ghost start = out@;
            let mut k: usize = 0;
            while k < m
                invariant
                    room.wf(),
                    m == room.templates@.len(),
                    k <= m,
                    out@ == start + room_spawns(*room).subrange(0, k as int),
                decreases m - k,
            {
                let t = room.templates[k];
                assert(room.template_inside(t));
                out.push(
                    SpawnTemplate {
                        x: room.x as i64 * 1000 + t.x,
                        y: room.y as i64 * 1000 + t.y,
                        kind: t.kind,
                    },
                );
                assert(out@ =~= start + room_spawns(*room).subrange(0, k + 1));
                k += 1;
            }
            assert(room_spawns(*room).subrange(0, m as int) =~= room_spawns(*room));
            i += 1;
        }
        out
    }

    /// Lets one frame go by for the doors: every door with frames of forced
    /// closure left has one frame less.
    pub fn tick_doors(&mut self)
        requires
            old(self).wf(),
        ensures
            final(self).wf(),
            final(self).rooms == old(self).rooms,
            final(self).base == old(self).base && final(self).overlay == old(self).overlay,
            final(self).x == old(self).x && final(self).y == old(self).y,
            final(self).w == old(self).w && final(self).h == old(self).h,
            final(self).doors@.len() == old(self).doors@.len(),
            forall|k: int|
                0 <= k < old(self).doors@.len() ==> #[trigger] final(self).doors@[k] == ticked(
                    old(self).doors@[k],
                ),
    {
        let n = self.doors.len();
        let mut k: usize = 0;
        while k < n
            invariant
                n == self.doors@.len(),
                n == old(self).doors@.len(),
                k <= n,
                self.rooms == old(self).rooms,
                self.base == old(self).base && self.overlay == old(self).overlay,
                self.x == old(self).x && self.y == old(self).y,
                self.w == old(self).w && self.h == old(self).h,
                forall|j: int| 0 <= j < k ==> #[trigger] self.doors@[j] == ticked(old(self).doors@[j]),
                forall|j: int| k <= j < n ==> #[trigger] self.doors@[j] == old(self).doors@[j],
            decreases n - k,
        {
            let d = self.doors[k];
            let left: u32 = if d.closed_frames > 0 { d.closed_frames - 1 } else { 0 };
            self.doors.set(
                k,
                MapDoor { x: d.x, y: d.y, dir: d.dir, open: d.open, closed_frames: left },
            );
            k += 1;
        }
        proof {
            assert forall|k: int| 0 <= k < self.doors@.len() implies passage_at(
                self.rooms@,
                (#[trigger] self.doors@[k]).x as int,
                self.doors@[k].y as int,
            ) by {
                assert(self.doors@[k] == ticked(old(self).doors@[k]));
                assert(passage_at(old(self).rooms@, old(self).doors@[k].x as int, old(self).doors@[k].y as int));
            }
        }
    }

    /// Opens or shuts door `k`, and keeps it closed for `frames` more frames
    /// whatever its state.
    pub fn set_door_state(&mut self, k: usize, open: bool, frames: u32)
        requires
            old(self).wf(),
            k < old(self).doors@.len(),
        ensures
            final(self).wf(),
            final(self).rooms == old(self).rooms,
            final(self).base == old(self).base && final(self).overlay == old(self).overlay,
            final(self).x == old(self).x && final(self).y == old(self).y,
            final(self).w == old(self).w && final(self).h == old(self).h,
            final(self).doors@ == old(self).doors@.update(
                k as int,
                MapDoor { open, closed_frames: frames, ..old(self).doors@[k as int] },
            ),
    {
        let d = self.doors[k];
        self.doors.set(k, MapDoor { x: d.x, y: d.y, dir: d.dir, open, closed_frames: frames });
        proof {
            assert forall|j: int| 0 <= j < self.doors@.len() implies passage_at(
                self.rooms@,
                (#[trigger] self.doors@[j]).x as int,
                self.doors@[j].y as int,
            ) by {
                assert(passage_at(old(self).rooms@, old(self).doors@[j].x as int, old(self).doors@[j].y as int));
            }
        }
    }
}

impl GameMap {
    /// Every door of a dungeon stands on an empty tile: where two rooms were
    /// joined, nothing solid separates them.
    pub proof fn lemma_doors_are_open(&self, k: int)
        requires
            self.wf(),
            0 <= k < self.doors@.len(),
        ensures
            self.tile(self.doors@[k].x as int, self.doors@[k].y as int) == opening(),
            !self.tile(self.doors@[k].x as int, self.doors@[k].y as int).0.solid(),
    {
        lemma_passage_is_open(self.rooms@, self.doors@[k].x as int, self.doors@[k].y as int);
    }
}

impl MapLike for GameMap {
    open spec fn wf(&self) -> bool {
        GameMap::wf(self)
    }

    open spec fn tile_at(&self, tx: int, ty: int) -> (BaseTile, OverlayTile) {
        self.tile(tx, ty)
    }

    open spec fn door_blocks(&self, x: int, y: int, w: int, h: int) -> bool {
        self.closed_door_at(x, y, w, h)
    }

    fn get_at(&self, tx: i32, ty: i32) -> (r: (BaseTile, OverlayTile)) {
        let cx: i64 = tx as i64 - self.x as i64;
        let cy: i64 = ty as i64 - self.y as i64;
        if cx < 0 || cy < 0 || cx >= self.w as i64 || cy >= self.h as i64 {
            proof {
                assert forall|i: int| 0 <= i < self.rooms@.len() implies !(#[trigger] self.rooms@[i]).contains(
                    tx as int,
                    ty as int,
                ) by {}
                lemma_flat_tile_outside(self.rooms@, tx as int, ty as int, 0);
            }
            return (BaseTile::Stone, OverlayTile::Nothing);
        }
        let i = index_of(self.w, self.h, cx as u32, cy as u32);
        assert((self.base@[cell_index(self.w as int, cx as int, cy as int)], self.overlay@[cell_index(
            self.w as int,
            cx as int,
            cy as int,
        )]) == flat_tile(self.rooms@, self.x + cx, self.y + cy, 0));
        (self.base[i], self.overlay[i])
    }

    fn hits_closed_door(&self, x: i64, y: i64, w: i64, h: i64) -> (r: bool) {
        let n = self.doors.len();
        let mut k: usize = 0;
        while k < n
            invariant
                n == self.doors@.len(),
                k <= n,
                rect_in_span(x as int, y as int, w as int, h as int),
                forall|j: int|
                    0 <= j < k ==> !((#[trigger] self.doors@[j]).closed() && self.doors@[j].touches(
                        x as int,
                        y as int,
                        w as int,
                        h as int,
                    )),
            decreases n - k,
        {
            if self.doors[k].blocks(x, y, w, h) {
                return true;
            }
            k += 1;
        }
        false
    }

    fn is_solid_at(&self, tx: i32, ty: i32) -> (r: bool) {
        let (base, _overlay) = self.get_at(tx, ty);
        base.is_solid()
    }
}

} // verus!

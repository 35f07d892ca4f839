//! Random dungeon assembly: rooms are drawn from a pool of templates and
//! hung on doors of rooms that are already placed, until the dungeon has
//! the wanted number of rooms or the attempts are used up.

use vstd::prelude::*;
use crate::assembly::{anchors_distinct, carved_from, conflict_free, well_hung, Assembly};
use crate::dungeon::{opening, MapDoor};
use crate::game_map::GameMap;
use crate::random::random_below;
use crate::room::Room;
use crate::tiles::DoorDir;

verus! {

/// Number of attempts that one assembly may make.
pub const ATTEMPT_BUDGET: u32 = 1000;

/// True when a door is recorded on the world tile `(tx, ty)`.
pub open spec fn door_at(doors: Seq<MapDoor>, tx: int, ty: int) -> bool {
    exists|k: int| 0 <= k < doors.len() && (#[trigger] doors[k]).x == tx && doors[k].y == ty
}

/// `r` is a placed copy of the template `t`: it has the template's size,
/// doors and spawn points, and its tiles are the template's but where a
/// passage has been opened, which is only on tiles of recorded doors.
pub open spec fn derived_from(t: Room, r: Room, doors: Seq<MapDoor>) -> bool {
    &&& r.w == t.w && r.h == t.h
    &&& r.doors@ == t.doors@
    &&& r.templates@ == t.templates@
    &&& forall|cx: int, cy: int|
        r.has_cell(cx, cy) ==> #[trigger] r.cell(cx, cy) == t.cell(cx, cy) || (r.cell(cx, cy)
            == opening() && door_at(doors, r.x + cx, r.y + cy))
}

/// `r` is a placed copy of one of the templates.
pub open spec fn from_some_template(templates: Seq<Room>, r: Room, doors: Seq<MapDoor>) -> bool {
    exists|k: int| 0 <= k < templates.len() && derived_from(#[trigger] templates[k], r, doors)
}

/// Every room is a placed copy of one of the templates.
pub open spec fn all_derived(templates: Seq<Room>, rooms: Seq<Room>, doors: Seq<MapDoor>) -> bool {
    forall|i: int| 0 <= i < rooms.len() ==> from_some_template(templates, #[trigger] rooms[i], doors)
}

/// Opening a passage on the tile of a newly recorded door, in a placed copy
/// of a template, leaves a placed copy of the same template.
pub proof fn lemma_carved_stays_derived(
    t: Room,
    before: Room,
    after: Room,
    tx: int,
    ty: int,
    force: bool,
    doors_before: Seq<MapDoor>,
    doors_after: Seq<MapDoor>,
)
    requires
        derived_from(t, before, doors_before),
        carved_from(before, after, tx, ty, force),
        doors_after.len() == doors_before.len() + 1,
        forall|k: int| 0 <= k < doors_before.len() ==> #[trigger] doors_after[k] == doors_before[k],
        doors_after[doors_before.len() as int].x == tx,
        doors_after[doors_before.len() as int].y == ty,
    ensures
        derived_from(t, after, doors_after),
{
    assert forall|cx: int, cy: int| after.has_cell(cx, cy) implies #[trigger] after.cell(cx, cy)
        == t.cell(cx, cy) || (after.cell(cx, cy) == opening() && door_at(
        doors_after,
        after.x + cx,
        after.y + cy,
    )) by {
        let x = after.x + cx;
        let y = after.y + cy;
        assert(before.has_cell(cx, cy));
        assert(after.tile(x, y) == after.cell(cx, cy));
        assert(before.tile(x, y) == before.cell(cx, cy));
        if after.cell(cx, cy) != t.cell(cx, cy) {
            if x == tx && y == ty {
                let last = doors_before.len() as int;
                assert(0 <= last < doors_after.len() && doors_after[last].x == x && doors_after[last].y
                    == y);
            } else {
                assert(before.cell(cx, cy) == opening() && door_at(doors_before, x, y));
                let k = choose|k: int|
                    0 <= k < doors_before.len() && (#[trigger] doors_before[k]).x == x
                        && doors_before[k].y == y;
                assert(0 <= k < doors_after.len() && doors_after[k].x == x && doors_after[k].y == y);
            }
        }
    }
}

/// Hanging a template on a dungeon whose rooms are all placed copies of
/// templates gives a dungeon whose rooms are all placed copies of templates.
pub proof fn lemma_attached_keeps_derived(
    before: &Assembly,
    after: &Assembly,
    templates: Seq<Room>,
    tr: int,
    td: int,
    k: int,
    cd: int,
)
    requires
        before.wf(),
        0 <= tr < before.rooms@.len(),
        0 <= td < before.rooms@[tr].doors@.len(),
        0 <= k < templates.len(),
        before.attached(after, tr, td, templates[k], cd),
        all_derived(templates, before.rooms@, before.doors@),
    ensures
        all_derived(templates, after.rooms@, after.doors@),
{
    assert(before.rooms@[tr].wf());
    assert(before.rooms@[tr].door_inside(before.rooms@[tr].doors@[td]));
    let n = before.rooms@.len() as int;
    let ax = before.attach_x(tr, td, templates[k], cd);
    let ay = before.attach_y(tr, td, templates[k], cd);
    let dx = before.door_x(tr, td);
    let dy = before.door_y(tr, td);
    assert forall|i: int| 0 <= i < after.rooms@.len() implies from_some_template(
        templates,
        #[trigger] after.rooms@[i],
        after.doors@,
    ) by {
        if i < n {
            assert(from_some_template(templates, before.rooms@[i], before.doors@));
            let t = choose|t: int|
                0 <= t < templates.len() && derived_from(
                    #[trigger] templates[t],
                    before.rooms@[i],
                    before.doors@,
                );
            lemma_carved_stays_derived(
                templates[t],
                before.rooms@[i],
                after.rooms@[i],
                dx,
                dy,
                i == tr,
                before.doors@,
                after.doors@,
            );
        } else {
            let moved = templates[k].spec_moved_to(ax, ay);
            assert(derived_from(templates[k], moved, before.doors@)) by {
                assert forall|cx: int, cy: int| moved.has_cell(cx, cy) implies #[trigger] moved.cell(
                    cx,
                    cy,
                ) == templates[k].cell(cx, cy) by {}
            }
            lemma_carved_stays_derived(
                templates[k],
                moved,
                after.rooms@[i],
                dx,
                dy,
                true,
                before.doors@,
                after.doors@,
            );
        }
    }
}

/// Indices of the rooms that have at least one door, in rising order.
pub fn rooms_with_doors(a: &Assembly) -> (r: Vec<usize>)
    ensures
        forall|k: int|
            0 <= k < r@.len() ==> (#[trigger] r@[k]) < a.rooms@.len() && a.rooms@[r@[k] as int].doors@.len()
                > 0,
        forall|i: int|
            0 <= i < a.rooms@.len() && (#[trigger] a.rooms@[i]).doors@.len() > 0 ==> r@.contains(
                i as usize,
            ),
        forall|j: int, k: int| 0 <= j < k < r@.len() ==> r@[j] < r@[k],
{
    let mut out: Vec<usize> = Vec::new();
    let n = a.rooms.len();
    let mut i: usize = 0;
    while i < n
        invariant
            n == a.rooms@.len(),
            i <= n,
            forall|k: int|
                0 <= k < out@.len() ==> (#[trigger] out@[k]) < a.rooms@.len()
                    && a.rooms@[out@[k] as int].doors@.len() > 0,
            forall|j: int|
                0 <= j < i && (#[trigger] a.rooms@[j]).doors@.len() > 0 ==> out@.contains(j as usize),
            forall|j: int, k: int| 0 <= j < k < out@.len() ==> out@[j] < out@[k],
            forall|k: int| 0 <= k < out@.len() ==> out@[k] < i,
        decreases n - i,
    {
        if a.rooms[i].doors.len() > 0 {
            let ghost prev = out@;
            out.push(i);
            proof {
                assert(out@[prev.len() as int] == i);
                assert forall|j: int| 0 <= j < i + 1 && (#[trigger] a.rooms@[j]).doors@.len()
                    > 0 implies out@.contains(j as usize) by {
                    if j < i {
                        let k = choose|k: int| 0 <= k < prev.len() && prev[k] == j as usize;
                        assert(out@[k] == j as usize);
                    }
                }
            }
        }
        i += 1;
    }
    out
}

/// Indices of the doors of `room` that face `dir`, in rising order.
pub fn doors_facing(room: &Room, dir: DoorDir) -> (r: Vec<usize>)
    ensures
        forall|k: int|
            0 <= k < r@.len() ==> (#[trigger] r@[k]) < room.doors@.len() && room.doors@[r@[k] as int].dir
                == dir,
        forall|i: int|
            0 <= i < room.doors@.len() && (#[trigger] room.doors@[i]).dir == dir ==> r@.contains(
                i as usize,
            ),
        forall|j: int, k: int| 0 <= j < k < r@.len() ==> r@[j] < r@[k],
{
    let mut out: Vec<usize> = Vec::new();
    let n = room.doors.len();
    let mut i: usize = 0;
    while i < n
        invariant
            n == room.doors@.len(),
            i <= n,
            forall|k: int|
                0 <= k < out@.len() ==> (#[trigger] out@[k]) < room.doors@.len()
                    && room.doors@[out@[k] as int].dir == dir,
            forall|j: int|
                0 <= j < i && (#[trigger] room.doors@[j]).dir == dir ==> out@.contains(j as usize),
            forall|j: int, k: int| 0 <= j < k < out@.len() ==> out@[j] < out@[k],
            forall|k: int| 0 <= k < out@.len() ==> out@[k] < i,
        decreases n - i,
    {
        if room.doors[i].dir == dir {
            let ghost prev = out@;
            out.push(i);
            proof {
                assert(out@[prev.len() as int] == i);
                assert forall|j: int| 0 <= j < i + 1 && (#[trigger] room.doors@[j]).dir
                    == dir implies out@.contains(j as usize) by {
                    if j < i {
                        let k = choose|k: int| 0 <= k < prev.len() && prev[k] == j as usize;
                        assert(out@[k] == j as usize);
                    }
                }
            }
        }
        i += 1;
    }
    out
}

impl Assembly {
    /// True when an attempt can draw the room `tr`, its door `td` and the
    /// template `k`: the indices are in range.
    pub open spec fn is_target(&self, templates: Seq<Room>, tr: int, td: int, k: int) -> bool {
        0 <= tr < self.rooms@.len() && 0 <= td < self.rooms@[tr].doors@.len() && 0 <= k
            < templates.len()
    }

    /// True when an attempt can draw the room `tr`, its door `td`, the
    /// template `k` and the template's door `cd`: the indices are in range
    /// and the template's door faces the room's door.
    pub open spec fn is_pick(&self, templates: Seq<Room>, tr: int, td: int, k: int, cd: int) -> bool {
        &&& self.is_target(templates, tr, td, k)
        &&& 0 <= cd < templates[k].doors@.len()
        &&& templates[k].doors@[cd].dir == self.rooms@[tr].doors@[td].dir.spec_opposite()
    }

    /// True when the template `k` has a door that faces door `td` of room
    /// `tr`.
    pub open spec fn has_facing_door(&self, templates: Seq<Room>, tr: int, td: int, k: int) -> bool {
        exists|cd: int| #[trigger] self.is_pick(templates, tr, td, k, cd)
    }

    /// True when an attempt places a room whatever it draws: some room has a
    /// door, every template has a door that faces any door of any room, and
    /// every template can be hung by every such door.
    pub open spec fn always_attaches(&self, templates: Seq<Room>) -> bool {
        &&& exists|tr: int| 0 <= tr < self.rooms@.len() && (#[trigger] self.rooms@[tr]).doors@.len() > 0
        &&& forall|tr: int, td: int, k: int| #[trigger]
            self.is_target(templates, tr, td, k) ==> self.has_facing_door(templates, tr, td, k)
        &&& forall|tr: int, td: int, k: int, cd: int| #[trigger]
            self.is_pick(templates, tr, td, k, cd) ==> self.can_attach(tr, td, templates[k], cd)
    }

    /// True when an attempt places no room whatever it draws: no template
    /// can be hung by a door of its own on a door of a room that faces it.
    pub open spec fn never_attaches(&self, templates: Seq<Room>) -> bool {
        forall|tr: int, td: int, k: int, cd: int| #[trigger]
            self.is_pick(templates, tr, td, k, cd) ==> !self.can_attach(tr, td, templates[k], cd)
    }

    /// Makes one attempt to add a room: draws a placed room that has a door
    /// and one of its doors, draws a template and one of its doors that
    /// faces the other way, and tries to hang the template there. Whatever
    /// is drawn, the dungeon stays sound; it changes only if a room was
    /// placed, and then by what was drawn. Where every draw can be hung a
    /// room is placed, and where none can be, none is.
    pub fn random_attempt(&mut self, templates: &Vec<Room>) -> (placed: bool)
        requires
            old(self).wf(),
            templates@.len() > 0,
            forall|k: int| 0 <= k < templates@.len() ==> (#[trigger] templates@[k]).wf(),
        ensures
            final(self).wf(),
            all_derived(templates@, old(self).rooms@, old(self).doors@) ==> all_derived(
                templates@,
                final(self).rooms@,
                final(self).doors@,
            ),
            well_hung(old(self).rooms@, old(self).doors@) ==> well_hung(
                final(self).rooms@,
                final(self).doors@,
            ),
            !placed ==> *final(self) == *old(self),
            placed ==> exists|tr: int, td: int, k: int, cd: int|
                old(self).is_pick(templates@, tr, td, k, cd) && old(self).can_attach(
                    tr,
                    td,
                    templates@[k],
                    cd,
                ) && #[trigger] old(self).attached(final(self), tr, td, templates@[k], cd),
            old(self).always_attaches(templates@) ==> placed,
            old(self).never_attaches(templates@) ==> !placed,
    {
        let with_doors = rooms_with_doors(self);
        if with_doors.len() == 0 {
            proof {
                if self.always_attaches(templates@) {
                    let t = choose|t: int|
                        0 <= t < self.rooms@.len() && (#[trigger] self.rooms@[t]).doors@.len() > 0;
                    assert(with_doors@.contains(t as usize));
                }
            }
            return false;
        }
        let tr = with_doors[random_below(with_doors.len())];
        let td = random_below(self.rooms[tr].doors.len());
        let k = random_below(templates.len());
        let wanted = self.rooms[tr].doors[td].dir.opposite();
        let facing = doors_facing(&templates[k], wanted);
        if facing.len() == 0 {
            proof {
                if self.always_attaches(templates@) {
                    assert(self.is_target(templates@, tr as int, td as int, k as int));
                    assert(self.has_facing_door(templates@, tr as int, td as int, k as int));
                    let c = choose|c: int| #[trigger]
                        self.is_pick(templates@, tr as int, td as int, k as int, c);
                    assert(templates@[k as int].doors@[c].dir == wanted);
                    assert(facing@.contains(c as usize));
                }
            }
            return false;
        }
        let cd = facing[random_below(facing.len())];
        assert(old(self).is_pick(templates@, tr as int, td as int, k as int, cd as int));
        let placed = self.try_attach(tr, td, &templates[k], cd);
        proof {
            if placed && all_derived(templates@, old(self).rooms@, old(self).doors@) {
                lemma_attached_keeps_derived(
                    old(self),
                    self,
                    templates@,
                    tr as int,
                    td as int,
                    k as int,
                    cd as int,
                );
            }
        }
        placed
    }
}

impl Assembly {
    /// True for the dungeon that assembly starts with when its first room
    /// is the template `t`: a copy of `t` anchored at the origin, and
    /// nothing else.
    pub open spec fn is_start_of(&self, t: Room) -> bool {
        &&& self.rooms@.len() == 1
        &&& self.doors@.len() == 0
        &&& self.rooms@[0].x == 0 && self.rooms@[0].y == 0
        &&& self.rooms@[0].w == t.w && self.rooms@[0].h == t.h
        &&& self.rooms@[0].base@ == t.base@
        &&& self.rooms@[0].overlay@ == t.overlay@
        &&& self.rooms@[0].doors@ == t.doors@
        &&& self.rooms@[0].templates@ == t.templates@
        &&& self.x == 0 && self.y == 0 && self.w == t.w && self.h == t.h
    }
}

/// True when the first attempt of an assembly places a room whatever is
/// drawn: whichever template the dungeon starts with, every draw can be
/// hung on it.
pub open spec fn every_start_attaches(templates: Seq<Room>) -> bool {
    forall|a: Assembly, k: int|
        0 <= k < templates.len() && #[trigger] a.is_start_of(templates[k]) ==> a.always_attaches(
            templates,
        )
}

/// True when no attempt of an assembly can place a room: whichever template
/// the dungeon starts with, no template can be hung on it.
pub open spec fn no_start_attaches(templates: Seq<Room>) -> bool {
    forall|a: Assembly, k: int|
        0 <= k < templates.len() && #[trigger] a.is_start_of(templates[k]) ==> a.never_attaches(
            templates,
        )
}

impl GameMap {
    /// Assembles a dungeon from a pool of room templates, and tells how
    /// many attempts it made. The first room is a template drawn at random
    /// and anchored at the origin; after that, random attempts add rooms
    /// until there are `target` of them or `ATTEMPT_BUDGET` attempts have
    /// been made. Running out of attempts gives a smaller dungeon.
    pub fn assemble(templates: &Vec<Room>, target: usize) -> (r: (GameMap, u32))
        requires
            templates@.len() > 0,
            forall|k: int| 0 <= k < templates@.len() ==> (#[trigger] templates@[k]).wf(),
            target >= 1,
        ensures
            r.0.wf(),
            1 <= r.0.rooms@.len() <= target,
            r.0.rooms@[0].x == 0 && r.0.rooms@[0].y == 0,
            conflict_free(r.0.rooms@),
            anchors_distinct(r.0.rooms@),
            all_derived(templates@, r.0.rooms@, r.0.doors@),
            well_hung(r.0.rooms@, r.0.doors@),
            r.1 <= ATTEMPT_BUDGET,
            r.1 < ATTEMPT_BUDGET ==> r.0.rooms@.len() == target,
            r.0.rooms@.len() <= r.1 + 1,
            target >= 2 && every_start_attaches(templates@) ==> r.0.rooms@.len() >= 2,
            no_start_attaches(templates@) ==> r.0.rooms@.len() == 1,
    {
        let first = random_below(templates.len());
        assert(templates@[first as int].wf());
        let mut a = Assembly::start(&templates[first], 0, 0);
        proof {
            assert(derived_from(templates@[first as int], a.rooms@[0], a.doors@)) by {
                assert forall|cx: int, cy: int| a.rooms@[0].has_cell(cx, cy) implies #[trigger] a.rooms@[0].cell(
                    cx,
                    cy,
                ) == templates@[first as int].cell(cx, cy) by {}
            }
            assert(a.is_start_of(templates@[first as int]));
        }
        let mut attempts: u32 = 0;
        while attempts < ATTEMPT_BUDGET && a.rooms.len() < target
            invariant
                a.wf(),
                templates@.len() > 0,
                0 <= first < templates@.len(),
                forall|k: int| 0 <= k < templates@.len() ==> (#[trigger] templates@[k]).wf(),
                all_derived(templates@, a.rooms@, a.doors@),
                well_hung(a.rooms@, a.doors@),
                1 <= a.rooms@.len() <= target,
                a.rooms@.len() <= attempts + 1,
                a.rooms@[0].x == 0 && a.rooms@[0].y == 0,
                attempts <= ATTEMPT_BUDGET,
                attempts == 0 ==> a.is_start_of(templates@[first as int]),
                attempts > 0 && every_start_attaches(templates@) ==> a.rooms@.len() >= 2,
                no_start_attaches(templates@) ==> a.is_start_of(templates@[first as int]),
            decreases ATTEMPT_BUDGET - attempts,
        {
            let ghost before = a;
            proof {
                if before.is_start_of(templates@[first as int]) {
                    if every_start_attaches(templates@) {
                        assert(before.always_attaches(templates@));
                    }
                    if no_start_attaches(templates@) {
                        assert(before.never_attaches(templates@));
                    }
                }
            }
            let placed = a.random_attempt(templates);
            proof {
                if placed {
                    let (tr, td, k, cd) = choose|tr: int, td: int, k: int, cd: int|
                        before.is_pick(templates@, tr, td, k, cd) && before.can_attach(
                            tr,
                            td,
                            templates@[k],
                            cd,
                        ) && #[trigger] before.attached(&a, tr, td, templates@[k], cd);
                    assert(a.rooms@.len() == before.rooms@.len() + 1);
                    assert(carved_from(
                        before.rooms@[0],
                        a.rooms@[0],
                        before.door_x(tr, td),
                        before.door_y(tr, td),
                        0 == tr,
                    ));
                }
            }
            attempts += 1;
        }
        (GameMap::from_assembly(a), attempts)
    }

    /// Assembles a dungeon from a pool of room templates. The first room is
    /// a template drawn at random and anchored at the origin; after that,
    /// up to `ATTEMPT_BUDGET` random attempts add rooms until there are
    /// `target` of them. Running out of attempts gives a smaller dungeon.
    pub fn new_random(templates: &Vec<Room>, target: usize) -> (map: GameMap)
        requires
            templates@.len() > 0,
            forall|k: int| 0 <= k < templates@.len() ==> (#[trigger] templates@[k]).wf(),
            target >= 1,
        ensures
            map.wf(),
            1 <= map.rooms@.len() <= target,
            map.rooms@[0].x == 0 && map.rooms@[0].y == 0,
            conflict_free(map.rooms@),
            anchors_distinct(map.rooms@),
            all_derived(templates@, map.rooms@, map.doors@),
            well_hung(map.rooms@, map.doors@),
            target >= 2 && every_start_attaches(templates@) ==> map.rooms@.len() >= 2,
            no_start_attaches(templates@) ==> map.rooms@.len() == 1,
    {
        let (map, _attempts) = GameMap::assemble(templates, target);
        map
    }
}

} // verus!

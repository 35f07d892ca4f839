//! Editing a room by world coordinates: tiles, doors and spawn points. An
//! edit outside the room's rectangle grows the room first.

use vstd::prelude::*;
use crate::room::{Door, Room, SpawnTemplate, EnemyKind};
use crate::tiles::{BaseTile, DoorDir, OverlayTile};

verus! {

/// Index of the first door at or after `from` that stands on the cell
/// `(cx, cy)`, or the number of doors if there is none.
pub open spec fn find_door(doors: Seq<Door>, cx: int, cy: int, from: int) -> int
    decreases doors.len() - from,
{
    if from < 0 || from >= doors.len() {
        doors.len() as int
    } else if doors[from].x == cx && doors[from].y == cy {
        from
    } else {
        find_door(doors, cx, cy, from + 1)
    }
}

/// The door list after `d` is set: the first door on `d`'s cell is replaced,
/// and where there is none, `d` is added at the end.
pub open spec fn with_door(doors: Seq<Door>, d: Door) -> Seq<Door> {
    let k = find_door(doors, d.x as int, d.y as int, 0);
    if k < doors.len() {
        doors.update(k, d)
    } else {
        doors.push(d)
    }
}

/// `find_door` returns a door on the cell, and no earlier door is on it.
pub proof fn lemma_find_door(doors: Seq<Door>, cx: int, cy: int, from: int)
    requires
        0 <= from <= doors.len(),
    ensures
        from <= find_door(doors, cx, cy, from) <= doors.len(),
        find_door(doors, cx, cy, from) < doors.len() ==> doors[find_door(doors, cx, cy, from)].x
            == cx && doors[find_door(doors, cx, cy, from)].y == cy,
        forall|i: int|
            from <= i < find_door(doors, cx, cy, from) ==> !(#[trigger] doors[i].x == cx
                && doors[i].y == cy),
    decreases doors.len() - from,
{
    if from < doors.len() && !(doors[from].x == cx && doors[from].y == cy) {
        lemma_find_door(doors, cx, cy, from + 1);
    }
}

impl Room {
    /// Sets the base layer at a world tile, growing the room to hold the
    /// tile if it lies outside. Every other tile reads as before.
    pub fn set_base(&mut self, x: i32, y: i32, tile: BaseTile)
        requires
            old(self).wf(),
            old(self).can_grow_to(x as int, y as int),
        ensures
            old(self).grown_frame(final(self), x as int, y as int),
            final(self).contains(x as int, y as int),
            forall|tx: int, ty: int|
                final(self).tile(tx, ty) == (if tx == x && ty == y {
                    (tile, old(self).tile(tx, ty).1)
                } else {
                    old(self).tile(tx, ty)
                }),
    {
        if let Some(rel) = self.abs_to_rel((x, y)) {
            self.set_base_absolute(rel.0, rel.1, tile);
        } else {
            self.resize_to_fit(x, y);
            let ghost mid = *self;
            if let Some(rel) = self.abs_to_rel((x, y)) {
                self.set_base_absolute(rel.0, rel.1, tile);
            }
            proof {
                assert forall|tx: int, ty: int|
                    self.tile(tx, ty) == (if tx == x && ty == y {
                        (tile, old(self).tile(tx, ty).1)
                    } else {
                        old(self).tile(tx, ty)
                    }) by {
                    assert(mid.tile(tx, ty) == old(self).tile(tx, ty));
                }
            }
        }
    }

    /// Sets the overlay layer at a world tile, growing the room to hold the
    /// tile if it lies outside. Every other tile reads as before.
    pub fn set_overlay(&mut self, x: i32, y: i32, tile: OverlayTile)
        requires
            old(self).wf(),
            old(self).can_grow_to(x as int, y as int),
        ensures
            old(self).grown_frame(final(self), x as int, y as int),
            final(self).contains(x as int, y as int),
            forall|tx: int, ty: int|
                final(self).tile(tx, ty) == (if tx == x && ty == y {
                    (old(self).tile(tx, ty).0, tile)
                } else {
                    old(self).tile(tx, ty)
                }),
    {
        if let Some(rel) = self.abs_to_rel((x, y)) {
            self.set_overlay_absolute(rel.0, rel.1, tile);
        } else {
            self.resize_to_fit(x, y);
            let ghost mid = *self;
            if let Some(rel) = self.abs_to_rel((x, y)) {
                self.set_overlay_absolute(rel.0, rel.1, tile);
            }
            proof {
                assert forall|tx: int, ty: int|
                    self.tile(tx, ty) == (if tx == x && ty == y {
                        (old(self).tile(tx, ty).0, tile)
                    } else {
                        old(self).tile(tx, ty)
                    }) by {
                    assert(mid.tile(tx, ty) == old(self).tile(tx, ty));
                }
            }
        }
    }

    /// The door list of a room grown by `left` columns and `top` rows.
    pub open spec fn doors_moved(&self, left: int, top: int) -> Seq<Door> {
        Seq::new(
            self.doors@.len(),
            |i: int|
                Door {
                    x: (self.doors@[i].x + left) as i32,
                    y: (self.doors@[i].y + top) as i32,
                    dir: self.doors@[i].dir,
                },
        )
    }

    /// Puts a door on a world tile, growing the room to hold the tile if it
    /// lies outside. A door that already stands on the tile is replaced.
    pub fn set_door(&mut self, x: i32, y: i32, dir: DoorDir)
        requires
            old(self).wf(),
            old(self).can_grow_to(x as int, y as int),
        ensures
            final(self).wf(),
            final(self).x == old(self).x - old(self).grow_left(x as int),
            final(self).y == old(self).y - old(self).grow_top(y as int),
            final(self).w == old(self).w + old(self).grow_left(x as int) + old(self).grow_right(
                x as int,
            ),
            final(self).h == old(self).h + old(self).grow_top(y as int) + old(self).grow_bottom(
                y as int,
            ),
            forall|tx: int, ty: int| final(self).tile(tx, ty) == old(self).tile(tx, ty),
            final(self).doors@ == with_door(
                old(self).doors_moved(old(self).grow_left(x as int), old(self).grow_top(y as int)),
                Door { x: (x - final(self).x) as i32, y: (y - final(self).y) as i32, dir },
            ),
            old(self).doors_unique() ==> final(self).doors_unique(),
            final(self).templates@.len() == old(self).templates@.len(),
            forall|i: int|
                0 <= i < old(self).templates@.len() ==> #[trigger] final(self).templates@[i] == (
                SpawnTemplate {
                    x: (old(self).templates@[i].x + old(self).grow_left(x as int) * 1000) as i64,
                    y: (old(self).templates@[i].y + old(self).grow_top(y as int) * 1000) as i64,
                    kind: old(self).templates@[i].kind,
                }),
    {
        if !self.abs_to_rel((x, y)).is_some() {
            self.resize_to_fit(x, y);
        }
        let ghost moved = old(self).doors_moved(
            old(self).grow_left(x as int),
            old(self).grow_top(y as int),
        );
        assert(self.doors@ =~= moved);
        let cx: i32 = (x as i64 - self.x as i64) as i32;
        let cy: i32 = (y as i64 - self.y as i64) as i32;
        let d = Door { x: cx, y: cy, dir };
        let mut k: usize = 0;
        let n = self.doors.len();
        while k < n && !(self.doors[k].x == cx && self.doors[k].y == cy)
            invariant
                n == self.doors@.len(),
                k <= n,
                find_door(self.doors@, cx as int, cy as int, 0) == find_door(
                    self.doors@,
                    cx as int,
                    cy as int,
                    k as int,
                ),
            decreases n - k,
        {
            k += 1;
        }
        proof {
            lemma_find_door(self.doors@, cx as int, cy as int, 0);
        }
        let ghost before = self.doors@;
        if k < n {
            self.doors.set(k, d);
        } else {
            self.doors.push(d);
        }
        proof {
            assert(self.doors@ == with_door(before, d));
            assert forall|i: int| 0 <= i < self.doors@.len() implies self.door_inside(
                #[trigger] self.doors@[i],
            ) by {
                if i < before.len() && i != k {
                    assert(self.doors@[i] == before[i]);
                }
            }
            if old(self).doors_unique() {
                assert forall|i: int, j: int| 0 <= i < j < before.len() implies !(before[i].x
                    == before[j].x && before[i].y == before[j].y) by {
                    assert(!(old(self).doors@[i].x == old(self).doors@[j].x && old(self).doors@[i].y
                        == old(self).doors@[j].y));
                }
                assert forall|i: int, j: int| 0 <= i < j < self.doors@.len() implies !(
                self.doors@[i].x == self.doors@[j].x && self.doors@[i].y == self.doors@[j].y) by {
                    if k < n {
                        if i != k && j != k {
                            assert(!(before[i].x == before[j].x && before[i].y == before[j].y));
                        } else if i == k {
                            assert(!(before[k as int].x == before[j].x && before[k as int].y
                                == before[j].y));
                        } else {
                            assert(!(before[i].x == before[k as int].x && before[i].y
                                == before[k as int].y));
                        }
                    } else {
                        if j < n {
                            assert(!(before[i].x == before[j].x && before[i].y == before[j].y));
                        }
                    }
                }
            }
        }
    }

    /// Adds a spawn point at a position inside the room, given relative to
    /// the anchor. Returns false, and changes nothing, for a position outside.
    pub fn add_template(&mut self, x: i64, y: i64, kind: EnemyKind) -> (added: bool)
        requires
            old(self).wf(),
        ensures
            final(self).wf(),
            added == old(self).template_inside(SpawnTemplate { x, y, kind }),
            added ==> final(self).templates@ == old(self).templates@.push(
                SpawnTemplate { x, y, kind },
            ),
            !added ==> final(self).templates@ == old(self).templates@,
            final(self).base == old(self).base && final(self).overlay == old(self).overlay,
            final(self).x == old(self).x && final(self).y == old(self).y,
            final(self).w == old(self).w && final(self).h == old(self).h,
            final(self).doors == old(self).doors,
    {
        if x < 0 || y < 0 || x > self.w as i64 * 1000 || y > self.h as i64 * 1000 {
            return false;
        }
        self.templates.push(SpawnTemplate { x, y, kind });
        proof {
            assert forall|i: int| 0 <= i < self.templates@.len() implies self.template_inside(
                #[trigger] self.templates@[i],
            ) by {
                if i < old(self).templates@.len() {
                    assert(self.templates@[i] == old(self).templates@[i]);
                }
            }
        }
        true
    }
}

} // verus!

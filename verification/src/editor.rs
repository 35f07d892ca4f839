//! The tools of the room editor: what a click with a tool does to a room.

use vstd::prelude::*;
use crate::edit::find_door;
use crate::room::{Door, Room};
use crate::tiles::{BaseTile, DoorDir, OverlayTile};

verus! {

/// The tile tools.
#[derive(Clone, Copy, Debug, PartialEq, Eq, Structural)]
pub enum TileSelection {
    NotPartOf,
    Clear,
    Ladder,
    Platform,
    LadderPlatform,
    Stone,
    Wood,
}

/// The door tools.
#[derive(Clone, Copy, Debug, PartialEq, Eq, Structural)]
pub enum DoorSelection {
    Up,
    Down,
    Left,
    Right,
    Remove,
}

impl TileSelection {
    /// The pair of tiles that the tool paints.
    pub open spec fn spec_tiles(self) -> (BaseTile, OverlayTile) {
        match self {
            TileSelection::NotPartOf => (BaseTile::NotPartOfRoom, OverlayTile::Nothing),
            TileSelection::Clear => (BaseTile::Empty, OverlayTile::Nothing),
            TileSelection::Ladder => (BaseTile::Empty, OverlayTile::Ladder),
            TileSelection::Platform => (BaseTile::Empty, OverlayTile::Platform),
            TileSelection::LadderPlatform => (BaseTile::Empty, OverlayTile::LadderPlatform),
            TileSelection::Stone => (BaseTile::Stone, OverlayTile::Nothing),
            TileSelection::Wood => (BaseTile::Wood, OverlayTile::Nothing),
        }
    }

    /// The pair of tiles that the tool paints.
    pub fn tiles(self) -> (r: (BaseTile, OverlayTile))
        ensures
            r == self.spec_tiles(),
    {
        match self {
            TileSelection::NotPartOf => (BaseTile::NotPartOfRoom, OverlayTile::Nothing),
            TileSelection::Clear => (BaseTile::Empty, OverlayTile::Nothing),
            TileSelection::Ladder => (BaseTile::Empty, OverlayTile::Ladder),
            TileSelection::Platform => (BaseTile::Empty, OverlayTile::Platform),
            TileSelection::LadderPlatform => (BaseTile::Empty, OverlayTile::LadderPlatform),
            TileSelection::Stone => (BaseTile::Stone, OverlayTile::Nothing),
            TileSelection::Wood => (BaseTile::Wood, OverlayTile::Nothing),
        }
    }
}

/// The door list without the first door on the cell `(cx, cy)`.
pub open spec fn without_door(doors: Seq<Door>, cx: int, cy: int) -> Seq<Door> {
    let k = find_door(doors, cx, cy, 0);
    if k < doors.len() {
        doors.remove(k)
    } else {
        doors
    }
}

impl Room {
    /// Paints a world tile with a tile tool, growing the room to hold the
    /// tile if it lies outside. Every other tile reads as before.
    pub fn paint(&mut self, x: i32, y: i32, tool: TileSelection)
        requires
            old(self).wf(),
            old(self).can_grow_to(x as int, y as int),
        ensures
            old(self).grown_frame(final(self), x as int, y as int),
            final(self).contains(x as int, y as int),
            forall|tx: int, ty: int|
                final(self).tile(tx, ty) == (if tx == x && ty == y {
                    tool.spec_tiles()
                } else {
                    old(self).tile(tx, ty)
                }),
    {
        let (base, overlay) = tool.tiles();
        self.set_base(x, y, base);
        let ghost mid = *self;
        self.set_overlay(x, y, overlay);
        proof {
            assert forall|i: int| 0 <= i < old(self).doors@.len() implies #[trigger] self.doors@[i]
                == (Door {
                x: (old(self).doors@[i].x + old(self).grow_left(x as int)) as i32,
                y: (old(self).doors@[i].y + old(self).grow_top(y as int)) as i32,
                dir: old(self).doors@[i].dir,
            }) by {
                assert(self.doors@[i] == (Door {
                    x: (mid.doors@[i].x + mid.grow_left(x as int)) as i32,
                    y: (mid.doors@[i].y + mid.grow_top(y as int)) as i32,
                    dir: mid.doors@[i].dir,
                }));
            }
            assert forall|i: int|
                0 <= i < old(self).templates@.len() implies #[trigger] self.templates@[i].x
                == old(self).templates@[i].x + old(self).grow_left(x as int) * 1000
                && self.templates@[i].y == old(self).templates@[i].y + old(self).grow_top(y as int)
                * 1000 && self.templates@[i].kind == old(self).templates@[i].kind by {
                assert(self.templates@[i].x == mid.templates@[i].x + mid.grow_left(x as int) * 1000);
                assert(mid.templates@[i].x == old(self).templates@[i].x + old(self).grow_left(
                    x as int,
                ) * 1000);
            }
        }
    }

    /// Takes away the door on a world tile, if there is one. Tells whether
    /// a door was taken away.
    pub fn remove_door(&mut self, x: i32, y: i32) -> (removed: bool)
        requires
            old(self).wf(),
        ensures
            final(self).wf(),
            removed == (find_door(old(self).doors@, x - old(self).x, y - old(self).y, 0) < old(
                self,
            ).doors@.len()),
            final(self).doors@ == without_door(old(self).doors@, x - old(self).x, y - old(self).y),
            final(self).base == old(self).base && final(self).overlay == old(self).overlay,
            final(self).x == old(self).x && final(self).y == old(self).y,
            final(self).w == old(self).w && final(self).h == old(self).h,
            final(self).templates == old(self).templates,
    {
        let cx: i64 = x as i64 - self.x as i64;
        let cy: i64 = y as i64 - self.y as i64;
        let n = self.doors.len();
        let mut k: usize = 0;
        while k < n && !(self.doors[k].x as i64 == cx && self.doors[k].y as i64 == cy)
            invariant
                n == self.doors@.len(),
                k <= n,
                *self == *old(self),
                cx == x - self.x,
                cy == y - self.y,
                find_door(self.doors@, cx as int, cy as int, 0) == find_door(
                    self.doors@,
                    cx as int,
                    cy as int,
                    k as int,
                ),
            decreases n - k,
        {
            k += 1;
        }
        if k < n {
            self.doors.remove(k);
            proof {
                assert forall|i: int| 0 <= i < self.doors@.len() implies self.door_inside(
                    #[trigger] self.doors@[i],
                ) by {
                    if i < k {
                        assert(self.doors@[i] == old(self).doors@[i]);
                    } else {
                        assert(self.doors@[i] == old(self).doors@[i + 1]);
                    }
                }
            }
            true
        } else {
            false
        }
    }

    /// Applies a door tool to a world tile: a direction puts a door there,
    /// growing the room if the tile lies outside, and `Remove` takes the
    /// door there away.
    pub fn apply_door_tool(&mut self, x: i32, y: i32, tool: DoorSelection)
        requires
            old(self).wf(),
            tool != DoorSelection::Remove ==> old(self).can_grow_to(x as int, y as int),
        ensures
            final(self).wf(),
            forall|tx: int, ty: int| final(self).tile(tx, ty) == old(self).tile(tx, ty),
            tool == DoorSelection::Remove ==> final(self).doors@ == without_door(
                old(self).doors@,
                x - old(self).x,
                y - old(self).y,
            ),
            tool != DoorSelection::Remove ==> final(self).contains(x as int, y as int) && exists|
                i: int,
            |
                0 <= i < final(self).doors@.len() && #[trigger] final(self).doors@[i] == (Door {
                    x: (x - final(self).x) as i32,
                    y: (y - final(self).y) as i32,
                    dir: door_tool_dir(tool),
                }),
    {
        match tool {
            DoorSelection::Up => self.set_door(x, y, DoorDir::Up),
            DoorSelection::Down => self.set_door(x, y, DoorDir::Down),
            DoorSelection::Left => self.set_door(x, y, DoorDir::Left),
            DoorSelection::Right => self.set_door(x, y, DoorDir::Right),
            DoorSelection::Remove => {
                self.remove_door(x, y);
            },
        }
        proof {
            if tool != DoorSelection::Remove {
                let moved = old(self).doors_moved(
                    old(self).grow_left(x as int),
                    old(self).grow_top(y as int),
                );
                let d = Door {
                    x: (x - self.x) as i32,
                    y: (y - self.y) as i32,
                    dir: door_tool_dir(tool),
                };
                crate::edit::lemma_find_door(moved, d.x as int, d.y as int, 0);
                let k = find_door(moved, d.x as int, d.y as int, 0);
                if k < moved.len() {
                    assert(self.doors@[k] == d);
                } else {
                    assert(self.doors@[moved.len() as int] == d);
                }
            }
        }
    }
}

/// The direction of the door that a door tool puts; `Remove` puts none,
/// and stands for `Up` here.
pub open spec fn door_tool_dir(tool: DoorSelection) -> DoorDir {
    match tool {
        DoorSelection::Down => DoorDir::Down,
        DoorSelection::Left => DoorDir::Left,
        DoorSelection::Right => DoorDir::Right,
        _ => DoorDir::Up,
    }
}

} // verus!

//! The player: a mover steered by the held buttons, that walks, jumps,
//! hangs on ledges and climbs ladders.

use vstd::prelude::*;
use crate::common::{BoundingBox, Pos};
use crate::input::InputState;
use crate::physics::{
    check_and_snap_hang, hang_spot, integrate_with_platforms, integrated_with_platforms,
};
use crate::tiles::Dir;
use crate::units::{in_limit, tile_index, tile_of};
use crate::world::MapLike;

verus! {

/// Upward velocity of a jump from the ground or from a ladder.
pub const JUMP_VELOCITY: i64 = -190;

/// Upward velocity of a jump from a ledge.
pub const HANG_JUMP_VELOCITY: i64 = -170;

/// What the player is doing.
#[derive(Clone, Copy, Debug, PartialEq, Eq, Structural)]
pub enum PlayerState {
    Normal,
    /// Holding on to a ledge in direction `dir`, at the place `pos`.
    Hanging { dir: Dir, pos: Pos },
    OnLadder,
}

/// The player: its rectangle, whether it stands, and what it is doing.
#[derive(Clone, Copy, Debug, PartialEq, Eq, Structural)]
pub struct Player {
    pub bb: BoundingBox,
    pub on_ground: bool,
    pub state: PlayerState,
    /// Horizontal and climbing speed per step.
    pub speed: i64,
}

/// The tile column under the middle of a rectangle.
pub open spec fn middle_column(bb: BoundingBox) -> int {
    tile_of(bb.x + bb.w / 2)
}

/// The tile row under the middle of a rectangle.
pub open spec fn middle_row(bb: BoundingBox) -> int {
    tile_of(bb.y + bb.h / 2)
}

/// The horizontal velocity that the held buttons ask for.
pub open spec fn walk_velocity(speed: int, input: InputState) -> int {
    if input.left {
        -speed
    } else if input.right {
        speed
    } else {
        0
    }
}

/// A step of a player that hangs on a ledge: it stays at the ledge, and a
/// jump lets go, upwards or, with down held, just down.
pub open spec fn hanging_step(p: Player, pos: Pos, input: InputState) -> Player {
    let bb = BoundingBox { x: pos.x, y: pos.y, vy: 0, ..p.bb };
    if input.jump {
        Player {
            bb: BoundingBox {
                vy: if input.down {
                    0
                } else {
                    -170i64
                },
                ..bb
            },
            on_ground: false,
            state: PlayerState::Normal,
            ..p
        }
    } else {
        Player { bb, on_ground: false, ..p }
    }
}

/// A step of a player that walks or falls. The buttons set the velocity, a
/// step of movement is tried, and then, in this order: with up or down held
/// on a ladder the player takes hold of the ladder, centred on its column;
/// falling and pressing towards a ledge it takes hold of the ledge; else it
/// moves.
pub open spec fn normal_step<M: MapLike>(p: Player, input: InputState, map: &M) -> Player {
    let start = BoundingBox {
        vx: walk_velocity(p.speed as int, input) as i64,
        vy: if input.jump && p.on_ground {
            -190i64
        } else {
            p.bb.vy
        },
        ..p.bb
    };
    let res = integrated_with_platforms(map, start, true);
    let new_bb = res.new_bb;
    let col = middle_column(new_bb);
    let pressing_left = input.left && !input.right;
    let pressing_right = input.right && !input.left;
    let dir = if pressing_right {
        Dir::Right
    } else {
        Dir::Left
    };
    if map.tile_at(col, middle_row(new_bb)).1.ladder() && (input.up || input.down) && !(input.down
        && p.on_ground) {
        Player {
            bb: BoundingBox { x: (col * 1000 + 500 - start.w / 2) as i64, ..start },
            state: PlayerState::OnLadder,
            ..p
        }
    } else if start.vy > 0 && (pressing_left || pressing_right) && hang_spot(
        map,
        start,
        new_bb,
        dir,
    ).is_some() {
        Player {
            bb: BoundingBox { vy: 0, ..start },
            on_ground: false,
            state: PlayerState::Hanging { dir, pos: hang_spot(map, start, new_bb, dir).unwrap() },
            ..p
        }
    } else {
        Player { bb: new_bb, on_ground: res.on_bottom, ..p }
    }
}

/// A step of a player on a ladder. A jump lets go upwards. With up held the
/// player climbs while there is ladder at its head. With down held it
/// climbs down, and steps off onto solid ground or where the ladder ends.
pub open spec fn ladder_step<M: MapLike>(p: Player, input: InputState, map: &M) -> Player {
    let col = middle_column(p.bb);
    let head = tile_of(p.bb.y as int);
    let ladder_at_head = map.tile_at(col, head).1.ladder();
    let ladder_below = map.tile_at(col, head + 1).1.ladder();
    if input.jump {
        Player { bb: BoundingBox { vy: -190i64, ..p.bb }, state: PlayerState::Normal, ..p }
    } else if input.up && !input.down {
        if ladder_at_head {
            Player {
                bb: BoundingBox { y: (p.bb.y - p.speed) as i64, vy: (-p.speed) as i64, ..p.bb },
                ..p
            }
        } else {
            Player { bb: BoundingBox { vy: 0, ..p.bb }, ..p }
        }
    } else if input.down && !input.up {
        if map.tile_at(col, tile_of(p.bb.y + p.bb.h)).0.solid() || (!ladder_at_head
            && !ladder_below) {
            Player {
                bb: BoundingBox { vy: 0, ..p.bb },
                on_ground: true,
                state: PlayerState::Normal,
                ..p
            }
        } else {
            Player { bb: BoundingBox { y: (p.bb.y + p.speed) as i64, vy: p.speed, ..p.bb }, ..p }
        }
    } else {
        Player { bb: BoundingBox { vy: 0, ..p.bb }, ..p }
    }
}

/// One step of the player.
pub open spec fn player_step<M: MapLike>(p: Player, input: InputState, map: &M) -> Player {
    match p.state {
        PlayerState::Hanging { dir, pos } => hanging_step(p, pos, input),
        PlayerState::Normal => normal_step(p, input, map),
        PlayerState::OnLadder => ladder_step(p, input, map),
    }
}

impl Player {
    /// A player can take a step when its rectangle is in range, its speed
    /// is not negative and within the limit, and the place where it hangs,
    /// if it hangs, is within the limit.
    pub open spec fn wf(&self) -> bool {
        &&& self.bb.in_range()
        &&& 0 <= self.speed && in_limit(self.speed as int)
        &&& match self.state {
            PlayerState::Hanging { dir, pos } => in_limit(pos.x as int) && in_limit(pos.y as int),
            _ => true,
        }
    }

    /// Tells whether the player can take a step.
    pub fn check_wf(&self) -> (r: bool)
        ensures
            r == self.wf(),
    {
        let lim: i64 = 700_000_000_000;
        let place_ok = match self.state {
            PlayerState::Hanging { dir, pos } => -lim <= pos.x && pos.x <= lim && -lim <= pos.y
                && pos.y <= lim,
            _ => true,
        };
        self.bb.check_in_range() && 0 <= self.speed && self.speed <= lim && place_ok
    }

    /// A player at rest at `(x, y)`, six tenths of a tile wide and eight
    /// tenths high.
    pub fn new(x: i64, y: i64) -> (p: Player)
        ensures
            p == (Player {
                bb: BoundingBox { x, y, w: 600, h: 800, vx: 0, vy: 0 },
                on_ground: false,
                state: PlayerState::Normal,
                speed: 40,
            }),
    {
        Player {
            bb: BoundingBox { x, y, w: 600, h: 800, vx: 0, vy: 0 },
            on_ground: false,
            state: PlayerState::Normal,
            speed: 40,
        }
    }

    /// Lets the player take one step in `map` with the buttons `input` held.
    pub fn update<M: MapLike>(&mut self, input: &InputState, map: &M)
        requires
            old(self).wf(),
            map.wf(),
        ensures
            *final(self) == player_step(*old(self), *input, map),
    {
        match self.state {
            PlayerState::Hanging { dir, pos } => {
                self.bb.x = pos.x;
                self.bb.y = pos.y;
                self.bb.vy = 0;
                self.on_ground = false;
                if input.jump {
                    self.state = PlayerState::Normal;
                    if input.down {
                        self.bb.vy = 0;
                    } else {
                        self.bb.vy = HANG_JUMP_VELOCITY;
                    }
                }
            },
            PlayerState::Normal => {
                if input.left {
                    self.bb.vx = -self.speed;
                } else if input.right {
                    self.bb.vx = self.speed;
                } else {
                    self.bb.vx = 0;
                }
                if input.jump && self.on_ground {
                    self.bb.vy = JUMP_VELOCITY;
                }
                let res = integrate_with_platforms(map, &self.bb, true);
                let new_bb = res.new_bb;
                let col: i32 = tile_index(new_bb.x + new_bb.w / 2);
                let row: i32 = tile_index(new_bb.y + new_bb.h / 2);
                let could_ladder = map.is_ladder_at(col, row);
                if could_ladder && (input.up || input.down) && !(input.down && self.on_ground) {
                    self.state = PlayerState::OnLadder;
                    self.bb.x = col as i64 * 1000 + 500 - self.bb.w / 2;
                    return;
                }
                if self.bb.vy > 0 {
                    let pressing_left = input.left && !input.right;
                    let pressing_right = input.right && !input.left;
                    if pressing_left || pressing_right {
                        let dir: Dir = if pressing_right { Dir::Right } else { Dir::Left };
                        if let Some(hang_pos) = check_and_snap_hang(&self.bb, &new_bb, map, dir) {
                            self.state = PlayerState::Hanging { dir, pos: hang_pos };
                            self.bb.vy = 0;
                            self.on_ground = false;
                            return;
                        }
                    }
                }
                self.bb = new_bb;
                self.on_ground = res.on_bottom;
            },
            PlayerState::OnLadder => {
                if input.jump {
                    self.state = PlayerState::Normal;
                    self.bb.vy = JUMP_VELOCITY;
                    return;
                }
                let col: i32 = tile_index(self.bb.x + self.bb.w / 2);
                let head: i32 = tile_index(self.bb.y);
                let ladder_at_head = map.is_ladder_at(col, head);
                let ladder_below = map.is_ladder_at(col, head + 1);
                if input.up && !input.down {
                    if ladder_at_head {
                        self.bb.vy = -self.speed;
                    } else {
                        self.bb.vy = 0;
                        return;
                    }
                } else if input.down && !input.up {
                    self.bb.vy = self.speed;
                    let feet: i32 = tile_index(self.bb.y + self.bb.h);
                    if map.is_solid_at(col, feet) || (!ladder_at_head && !ladder_below) {
                        self.state = PlayerState::Normal;
                        self.on_ground = true;
                        self.bb.vy = 0;
                        return;
                    }
                } else {
                    self.bb.vy = 0;
                }
                self.bb.y = self.bb.y + self.bb.vy;
            },
        }
    }
}

} // verus!

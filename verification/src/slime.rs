//! The slime: it sits for a while, then jumps in a direction drawn at
//! random, and sits again.

use vstd::prelude::*;
use crate::animation::{AnimationConfig, AnimationConfigResult, AnimationHandler, AnimationMode};
use crate::common::BoundingBox;
use crate::enemies::Health;
use crate::physics::{integrate_kinematic, integrated, KinematicResult};
use crate::random::random_below;
use crate::tiles::Dir;
use crate::world::MapLike;

verus! {

/// Steps that a jump lasts, from crouching to landing.
pub const JUMP_TOTAL_FRAMES: u32 = 320;

/// Steps that a slime crouches before it leaves the ground.
pub const JUMP_BEFORE_JUMP: u32 = 120;

/// Steps that a slime sits between two jumps.
pub const IDLING_FRAMES: u32 = 300;

/// The animation states of a slime.
#[derive(Clone, Copy, Debug)]
pub enum SlimeAnimationState {
    Idle,
    Jumping,
}

impl PartialEq for SlimeAnimationState {
    fn eq(&self, other: &Self) -> (r: bool) {
        match (self, other) {
            (SlimeAnimationState::Idle, SlimeAnimationState::Idle) => true,
            (SlimeAnimationState::Jumping, SlimeAnimationState::Jumping) => true,
            _ => false,
        }
    }
}

impl vstd::std_specs::cmp::PartialEqSpecImpl for SlimeAnimationState {
    open spec fn obeys_eq_spec() -> bool {
        true
    }

    open spec fn eq_spec(&self, other: &Self) -> bool {
        *self == *other
    }
}

impl AnimationConfig for SlimeAnimationState {
    open spec fn config(&self) -> AnimationConfigResult {
        match self {
            SlimeAnimationState::Idle => AnimationConfigResult {
                start: 0,
                end: 1,
                dur: 40,
                mode: AnimationMode::Loop,
            },
            SlimeAnimationState::Jumping => AnimationConfigResult {
                start: 2,
                end: 5,
                dur: 40,
                mode: AnimationMode::Once,
            },
        }
    }

    fn get_config(&self) -> (r: AnimationConfigResult) {
        match self {
            SlimeAnimationState::Idle => AnimationConfigResult::new(0, 1, 40),
            SlimeAnimationState::Jumping => AnimationConfigResult::new_no_loop(2, 5, 40),
        }
    }
}

/// What a slime is doing, and for how many more steps.
#[derive(Clone, Copy, Debug, PartialEq, Eq, Structural)]
pub enum SlimeState {
    Idle { frames_remaining: u32 },
    Jumping { frames_remaining: u32 },
}

/// A slime.
pub struct Slime {
    pub bb: BoundingBox,
    pub health: Health,
    /// Steps for which the slime cannot be hurt again.
    pub immunity_frames: u32,
    pub dir: Dir,
    pub animation_handler: AnimationHandler<SlimeAnimationState>,
    pub state: SlimeState,
}

/// The animation of a slime after a step in which it shows `shown`: it
/// starts anew if it showed something else, and counts one step.
pub open spec fn slime_animation(h: AnimationHandler<SlimeAnimationState>, shown: SlimeAnimationState)
    -> AnimationHandler<SlimeAnimationState> {
    AnimationHandler {
        state: shown,
        current_frame: if h.state == shown {
            (h.current_frame + 1) as u32
        } else {
            1
        },
    }
}

/// The slime after one step in which the move `res` was made and `turn` was
/// drawn. A sitting slime stands still; when its time is up it starts a jump
/// towards `turn`. A jumping slime crouches for `JUMP_BEFORE_JUMP` steps,
/// leaves the ground, drifts in its direction, and sits down again when the
/// time of the jump is up or when it has landed.
pub open spec fn slime_step(s: Slime, res: KinematicResult, turn: Dir) -> Slime {
    let immunity: u32 = if s.immunity_frames > 0 {
        (s.immunity_frames - 1) as u32
    } else {
        0
    };
    match s.state {
        SlimeState::Idle { frames_remaining } => Slime {
            bb: BoundingBox { vx: 0, ..res.new_bb },
            health: s.health,
            immunity_frames: immunity,
            dir: if frames_remaining == 0 {
                turn
            } else {
                s.dir
            },
            animation_handler: slime_animation(s.animation_handler, SlimeAnimationState::Idle),
            state: if frames_remaining == 0 {
                SlimeState::Jumping { frames_remaining: 320 }
            } else {
                SlimeState::Idle { frames_remaining: (frames_remaining - 1) as u32 }
            },
        },
        SlimeState::Jumping { frames_remaining } => Slime {
            bb: BoundingBox {
                vx: if frames_remaining <= 200 {
                    match s.dir {
                        Dir::Right => 60i64,
                        Dir::Left => -60i64,
                    }
                } else {
                    res.new_bb.vx
                },
                vy: if frames_remaining == 200 {
                    -200i64
                } else {
                    res.new_bb.vy
                },
                ..res.new_bb
            },
            health: s.health,
            immunity_frames: immunity,
            dir: s.dir,
            animation_handler: slime_animation(s.animation_handler, SlimeAnimationState::Jumping),
            state: if frames_remaining == 0 || (res.on_bottom && frames_remaining < 199) {
                SlimeState::Idle { frames_remaining: 300 }
            } else {
                SlimeState::Jumping { frames_remaining: (frames_remaining - 1) as u32 }
            },
        },
    }
}

impl Slime {
    /// A slime at `(x, y)` with two lives that sits, looks to the right,
    /// and will jump after a hundred steps.
    pub fn new(x: i64, y: i64) -> (s: Slime)
        ensures
            s.bb == (BoundingBox { x, y, w: 625, h: 625, vx: 20, vy: 0 }),
            s.health == (Health { current: 2, max: 2 }),
            s.immunity_frames == 0,
            s.dir == Dir::Right,
            s.animation_handler.state == SlimeAnimationState::Idle,
            s.animation_handler.current_frame == 0,
            s.state == (SlimeState::Idle { frames_remaining: 100 }),
    {
        Slime {
            bb: BoundingBox { x, y, w: 625, h: 625, vx: 20, vy: 0 },
            health: Health { current: 2, max: 2 },
            immunity_frames: 0,
            dir: Dir::Right,
            animation_handler: AnimationHandler::new(SlimeAnimationState::Idle),
            state: SlimeState::Idle { frames_remaining: 100 },
        }
    }

    /// Lets the slime take one step under gravity, with `turn` as the
    /// direction of its next jump if a jump starts in this step.
    pub fn update_with<M: MapLike>(&mut self, map: &M, turn: Dir)
        requires
            old(self).bb.in_range(),
            old(self).animation_handler.current_frame < u32::MAX,
            map.wf(),
        ensures
            *final(self) == slime_step(*old(self), integrated(map, old(self).bb, true), turn),
    {
        let result = integrate_kinematic(map, &self.bb, true);
        self.bb = result.new_bb;
        self.immunity_frames = if self.immunity_frames > 0 { self.immunity_frames - 1 } else { 0 };
        match self.state {
            SlimeState::Idle { frames_remaining } => {
                self.animation_handler.set_state(SlimeAnimationState::Idle);
                self.bb.vx = 0;
                if frames_remaining == 0 {
                    self.state = SlimeState::Jumping { frames_remaining: JUMP_TOTAL_FRAMES };
                    self.dir = turn;
                } else {
                    self.state = SlimeState::Idle { frames_remaining: frames_remaining - 1 };
                }
            },
            SlimeState::Jumping { frames_remaining } => {
                self.animation_handler.set_state(SlimeAnimationState::Jumping);
                if frames_remaining == JUMP_TOTAL_FRAMES - JUMP_BEFORE_JUMP {
                    self.bb.vy = -200;
                }
                if frames_remaining <= JUMP_TOTAL_FRAMES - JUMP_BEFORE_JUMP {
                    self.bb.vx = match self.dir {
                        Dir::Right => 60,
                        Dir::Left => -60,
                    };
                }
                if frames_remaining == 0 || (result.on_bottom && frames_remaining
                    < JUMP_TOTAL_FRAMES - JUMP_BEFORE_JUMP - 1) {
                    self.state = SlimeState::Idle { frames_remaining: IDLING_FRAMES };
                } else {
                    self.state = SlimeState::Jumping { frames_remaining: frames_remaining - 1 };
                }
            },
        }
        self.animation_handler.increment_frame();
    }

    /// Lets the slime take one step under gravity. Where a jump starts in
    /// this step, its direction is drawn at random.
    pub fn update<M: MapLike>(&mut self, map: &M)
        requires
            old(self).bb.in_range(),
            old(self).animation_handler.current_frame < u32::MAX,
            map.wf(),
        ensures
            *final(self) == slime_step(*old(self), integrated(map, old(self).bb, true), Dir::Left)
                || *final(self) == slime_step(
                *old(self),
                integrated(map, old(self).bb, true),
                Dir::Right,
            ),
            old(self).state != (SlimeState::Idle { frames_remaining: 0 }) ==> *final(self)
                == slime_step(*old(self), integrated(map, old(self).bb, true), old(self).dir),
    {
        let starts_jump = match self.state {
            SlimeState::Idle { frames_remaining } => frames_remaining == 0,
            _ => false,
        };
        let turn = if starts_jump {
            if random_below(2) == 0 {
                Dir::Left
            } else {
                Dir::Right
            }
        } else {
            self.dir
        };
        self.update_with(map, turn);
    }

    /// A stomp hurts the slime by one and makes it sit for fifty steps.
    pub fn got_stomped(&mut self)
        requires
            old(self).health.current > 0,
        ensures
            *final(self) == (Slime {
                immunity_frames: 10,
                state: SlimeState::Idle { frames_remaining: 50 },
                health: Health {
                    current: (old(self).health.current - 1) as u32,
                    max: old(self).health.max,
                },
                ..*old(self)
            }),
    {
        self.immunity_frames = 10;
        self.state = SlimeState::Idle { frames_remaining: 50 };
        self.health.current -= 1;
    }

    /// Tells whether a stomp can hurt the slime now.
    pub fn can_be_stomped(&self) -> (r: bool)
        ensures
            r == (self.immunity_frames == 0),
    {
        self.immunity_frames == 0
    }

    /// A hit hurts the slime as a stomp does, unless it cannot be hurt now.
    pub fn got_hit(&mut self)
        requires
            old(self).health.current > 0,
        ensures
            old(self).immunity_frames != 0 ==> *final(self) == *old(self),
            old(self).immunity_frames == 0 ==> *final(self) == (Slime {
                immunity_frames: 10,
                state: SlimeState::Idle { frames_remaining: 50 },
                health: Health {
                    current: (old(self).health.current - 1) as u32,
                    max: old(self).health.max,
                },
                ..*old(self)
            }),
    {
        if self.immunity_frames == 0 {
            self.immunity_frames = 10;
            self.state = SlimeState::Idle { frames_remaining: 50 };
            self.health.current -= 1;
        }
    }

    /// Tells whether a hit can hurt the slime now.
    pub fn can_be_hit(&self) -> (r: bool)
        ensures
            r == (self.immunity_frames == 0),
    {
        self.immunity_frames == 0
    }

    /// Tells whether the slime has no life left and can leave the game.
    pub fn should_remove(&self) -> (r: bool)
        ensures
            r == (self.health.current == 0),
    {
        self.health.current == 0
    }

    /// How much a touch of the slime hurts: two while it jumps, else one.
    pub fn contact_damage(&self) -> (r: u32)
        ensures
            r == (match self.state {
                SlimeState::Jumping { frames_remaining } => 2u32,
                SlimeState::Idle { frames_remaining } => 1u32,
            }),
    {
        match self.state {
            SlimeState::Jumping { frames_remaining } => 2,
            SlimeState::Idle { frames_remaining } => 1,
        }
    }

    /// The life of the slime.
    pub fn get_health(&self) -> (r: Health)
        ensures
            r == self.health,
    {
        self.health
    }

    /// The atlas frame to show now.
    pub fn get_atlas_index(&self) -> (r: u32)
        ensures
            r == self.animation_handler.state.config().frame_at(
                self.animation_handler.current_frame as int,
            ),
    {
        self.animation_handler.get_atlas_index()
    }

    /// Tells whether the slime looks to the right.
    pub fn goes_right(&self) -> (r: bool)
        ensures
            r == (self.dir == Dir::Right),
    {
        self.dir.goes_right()
    }
}

} // verus!

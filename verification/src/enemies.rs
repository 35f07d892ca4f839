//! What enemies share: how they can be hit and how much life they have; the
//! worm and the burrower.

use vstd::prelude::*;
use crate::animation::{AnimationConfig, AnimationConfigResult, AnimationHandler, AnimationMode};
use crate::common::BoundingBox;
use crate::physics::{integrate_kinematic, integrated};
use crate::tiles::Dir;
use crate::world::MapLike;

verus! {

/// The ways in which the player can hit an enemy.
#[derive(Clone, Copy, Debug, PartialEq, Eq, Structural)]
pub enum EnemyHitType {
    Swing,
    Stomp,
}

/// Whether a hit landed.
#[derive(Clone, Copy, Debug, PartialEq, Eq, Structural)]
pub enum EnemyHitResult {
    GotHit,
    DidNotHit,
}

/// The animation states of a worm.
#[derive(Clone, Copy, Debug)]
pub enum WormAnimationState {
    Moving,
}

impl PartialEq for WormAnimationState {
    fn eq(&self, other: &Self) -> (r: bool) {
        match (self, other) {
            (WormAnimationState::Moving, WormAnimationState::Moving) => true,
        }
    }
}

impl vstd::std_specs::cmp::PartialEqSpecImpl for WormAnimationState {
    open spec fn obeys_eq_spec() -> bool {
        true
    }

    open spec fn eq_spec(&self, other: &Self) -> bool {
        *self == *other
    }
}

impl AnimationConfig for WormAnimationState {
    open spec fn config(&self) -> AnimationConfigResult {
        match self {
            WormAnimationState::Moving => AnimationConfigResult {
                start: 0,
                end: 5,
                dur: 10,
                mode: AnimationMode::Loop,
            },
        }
    }

    fn get_config(&self) -> (r: AnimationConfigResult) {
        match self {
            WormAnimationState::Moving => AnimationConfigResult::new(0, 5, 10),
        }
    }
}

/// How much life an enemy has, and how much it can have.
#[derive(Clone, Copy, Debug, PartialEq, Eq, Structural)]
pub struct Health {
    pub current: u32,
    pub max: u32,
}

/// A worm: it crawls in one direction until something stops it, and then
/// turns round.
pub struct Worm {
    pub bb: BoundingBox,
    pub animation_handler: AnimationHandler<WormAnimationState>,
    pub dir: Dir,
    pub is_dead: bool,
}

/// Crawling speed of a worm per step.
pub const WORM_SPEED: i64 = 10;

impl Worm {
    /// A living worm at `(x, y)` that looks to the left.
    pub fn new(x: i64, y: i64) -> (w: Worm)
        ensures
            w.bb == (BoundingBox { x, y, w: 875, h: 375, vx: 0, vy: 0 }),
            w.animation_handler.state == WormAnimationState::Moving,
            w.animation_handler.current_frame == 0,
            w.dir == Dir::Left,
            !w.is_dead,
    {
        Worm {
            bb: BoundingBox { x, y, w: 875, h: 375, vx: 0, vy: 0 },
            animation_handler: AnimationHandler::new(WormAnimationState::Moving),
            dir: Dir::Left,
            is_dead: false,
        }
    }

    /// The rectangle that a worm sets out with in a step: its own, with the
    /// crawling speed in its direction.
    pub open spec fn crawling(&self) -> BoundingBox {
        BoundingBox {
            vx: match self.dir {
                Dir::Left => -10i64,
                Dir::Right => 10i64,
            },
            ..self.bb
        }
    }

    /// Lets the worm crawl for one step under gravity. Stopped on its
    /// right it turns left, stopped on its left it turns right.
    pub fn update<M: MapLike>(&mut self, map: &M)
        requires
            old(self).bb.in_range(),
            old(self).animation_handler.current_frame < u32::MAX,
            map.wf(),
        ensures
            final(self).bb == integrated(map, old(self).crawling(), true).new_bb,
            final(self).dir == (if integrated(map, old(self).crawling(), true).on_left {
                Dir::Right
            } else if integrated(map, old(self).crawling(), true).on_right {
                Dir::Left
            } else {
                old(self).dir
            }),
            final(self).animation_handler.current_frame == old(self).animation_handler.current_frame
                + 1,
            final(self).animation_handler.state == old(self).animation_handler.state,
            final(self).is_dead == old(self).is_dead,
    {
        match self.dir {
            Dir::Left => {
                self.bb.vx = -WORM_SPEED;
            },
            Dir::Right => {
                self.bb.vx = WORM_SPEED;
            },
        }
        let res = integrate_kinematic(map, &self.bb, true);
        self.bb = res.new_bb;
        if res.on_right {
            self.dir = Dir::Left;
        }
        if res.on_left {
            self.dir = Dir::Right;
        }
        self.animation_handler.set_state(WormAnimationState::Moving);
        self.animation_handler.increment_frame();
    }

    /// Tells whether the enemy is dead and can leave the game.
    pub fn should_remove(&self) -> (r: bool)
        ensures
            r == self.is_dead,
    {
        self.is_dead
    }

    /// The life of the enemy: one of one.
    pub fn get_health(&self) -> (r: Health)
        ensures
            r == (Health { current: 1, max: 1 }),
    {
        Health { current: 1, max: 1 }
    }

    /// Any hit kills a worm.
    pub fn maybe_got_hit(&mut self, hit_type: EnemyHitType) -> (r: EnemyHitResult)
        ensures
            r == EnemyHitResult::GotHit,
            final(self).is_dead,
            final(self).bb == old(self).bb,
            final(self).dir == old(self).dir,
            final(self).animation_handler == old(self).animation_handler,
    {
        self.is_dead = true;
        EnemyHitResult::GotHit
    }

    /// A worm hurts the player by one on touch.
    pub fn maybe_damage_player(&self) -> (r: Option<u32>)
        ensures
            r == Some(1u32),
    {
        Some(1)
    }

    /// The atlas frame to show now.
    pub fn get_atlas_index(&self) -> (r: u32)
        ensures
            r == (self.animation_handler.current_frame / 10) % 6,
    {
        self.animation_handler.get_atlas_index()
    }
}

/// The animation states of a burrower, which are its states of mind too.
#[derive(Clone, Copy, Debug)]
pub enum BurrowerAnimationState {
    Wiggling,
    Burbing,
    BurrowingUp,
    BurrowingDown,
    Digging,
    Hidden,
}

impl PartialEq for BurrowerAnimationState {
    fn eq(&self, other: &Self) -> (r: bool) {
        match (self, other) {
            (BurrowerAnimationState::Wiggling, BurrowerAnimationState::Wiggling) => true,
            (BurrowerAnimationState::Burbing, BurrowerAnimationState::Burbing) => true,
            (BurrowerAnimationState::BurrowingUp, BurrowerAnimationState::BurrowingUp) => true,
            (BurrowerAnimationState::BurrowingDown, BurrowerAnimationState::BurrowingDown) => true,
            (BurrowerAnimationState::Digging, BurrowerAnimationState::Digging) => true,
            (BurrowerAnimationState::Hidden, BurrowerAnimationState::Hidden) => true,
            _ => false,
        }
    }
}

impl vstd::std_specs::cmp::PartialEqSpecImpl for BurrowerAnimationState {
    open spec fn obeys_eq_spec() -> bool {
        true
    }

    open spec fn eq_spec(&self, other: &Self) -> bool {
        *self == *other
    }
}

impl AnimationConfig for BurrowerAnimationState {
    open spec fn config(&self) -> AnimationConfigResult {
        match self {
            BurrowerAnimationState::Wiggling => AnimationConfigResult {
                start: 0,
                end: 3,
                dur: 10,
                mode: AnimationMode::Loop,
            },
            BurrowerAnimationState::Burbing => AnimationConfigResult {
                start: 4,
                end: 6,
                dur: 8,
                mode: AnimationMode::Once,
            },
            BurrowerAnimationState::BurrowingUp => AnimationConfigResult {
                start: 7,
                end: 12,
                dur: 6,
                mode: AnimationMode::ReverseOnce,
            },
            BurrowerAnimationState::BurrowingDown => AnimationConfigResult {
                start: 7,
                end: 12,
                dur: 6,
                mode: AnimationMode::Once,
            },
            BurrowerAnimationState::Digging => AnimationConfigResult {
                start: 13,
                end: 16,
                dur: 6,
                mode: AnimationMode::Loop,
            },
            BurrowerAnimationState::Hidden => AnimationConfigResult {
                start: 0,
                end: 1,
                dur: 10,
                mode: AnimationMode::Loop,
            },
        }
    }

    fn get_config(&self) -> (r: AnimationConfigResult) {
        match self {
            BurrowerAnimationState::Wiggling => AnimationConfigResult::new(0, 3, 10),
            BurrowerAnimationState::Burbing => AnimationConfigResult::new_no_loop(4, 6, 8),
            BurrowerAnimationState::BurrowingUp => AnimationConfigResult::new_reverse_no_loop(
                7,
                12,
                6,
            ),
            BurrowerAnimationState::BurrowingDown => AnimationConfigResult::new_no_loop(7, 12, 6),
            BurrowerAnimationState::Digging => AnimationConfigResult::new(13, 16, 6),
            BurrowerAnimationState::Hidden => AnimationConfigResult::new(0, 1, 10),
        }
    }
}

/// The state that follows a state of a burrower, and for how many steps
/// the burrower stays in it: it digs, comes up, burps, wiggles, goes down,
/// hides, and digs again.
pub open spec fn burrower_next(s: BurrowerAnimationState) -> (BurrowerAnimationState, u32) {
    match s {
        BurrowerAnimationState::BurrowingUp => (BurrowerAnimationState::Burbing, 60),
        BurrowerAnimationState::Burbing => (BurrowerAnimationState::Wiggling, 180),
        BurrowerAnimationState::Wiggling => (BurrowerAnimationState::BurrowingDown, 30),
        BurrowerAnimationState::BurrowingDown => (BurrowerAnimationState::Hidden, 120),
        BurrowerAnimationState::Hidden => (BurrowerAnimationState::Digging, 90),
        BurrowerAnimationState::Digging => (BurrowerAnimationState::BurrowingUp, 30),
    }
}

/// True for the states in which a burrower is under the ground, where
/// nothing hits it and it hurts nobody.
pub open spec fn burrower_is_under(s: BurrowerAnimationState) -> bool {
    s == BurrowerAnimationState::Hidden || s == BurrowerAnimationState::Digging
}

/// A burrower: it stays in one place and comes out of the ground from time
/// to time.
pub struct Burrower {
    pub bb: BoundingBox,
    pub animation_handler: AnimationHandler<BurrowerAnimationState>,
    pub frames_remaining: u32,
    pub is_dead: bool,
}

impl Burrower {
    /// A living burrower at `(x, y)` that digs and is about to come up.
    pub fn new(x: i64, y: i64) -> (b: Burrower)
        ensures
            b.bb == (BoundingBox { x, y, w: 500, h: 625, vx: 0, vy: 0 }),
            b.animation_handler.state == BurrowerAnimationState::Digging,
            b.animation_handler.current_frame == 0,
            b.frames_remaining == 0,
            !b.is_dead,
    {
        Burrower {
            bb: BoundingBox { x, y, w: 500, h: 625, vx: 0, vy: 0 },
            frames_remaining: 0,
            animation_handler: AnimationHandler::new(BurrowerAnimationState::Digging),
            is_dead: false,
        }
    }

    /// Lets one step go by. When the time in the current state is used up,
    /// the burrower enters the next state and its animation starts anew.
    pub fn update(&mut self)
        requires
            old(self).animation_handler.current_frame < u32::MAX,
        ensures
            final(self).bb == old(self).bb,
            final(self).is_dead == old(self).is_dead,
            final(self).animation_handler.state == (if old(self).frames_remaining == 0 {
                burrower_next(old(self).animation_handler.state).0
            } else {
                old(self).animation_handler.state
            }),
            final(self).frames_remaining == (if old(self).frames_remaining == 0 {
                burrower_next(old(self).animation_handler.state).1 - 1
            } else {
                old(self).frames_remaining - 1
            }),
            final(self).animation_handler.current_frame == (if old(self).frames_remaining == 0 {
                1
            } else {
                old(self).animation_handler.current_frame + 1
            }),
    {
        if self.frames_remaining == 0 {
            match self.animation_handler.state {
                BurrowerAnimationState::BurrowingUp => {
                    self.frames_remaining = 60;
                    self.animation_handler.set_state(BurrowerAnimationState::Burbing);
                },
                BurrowerAnimationState::Burbing => {
                    self.frames_remaining = 180;
                    self.animation_handler.set_state(BurrowerAnimationState::Wiggling);
                },
                BurrowerAnimationState::Wiggling => {
                    self.frames_remaining = 30;
                    self.animation_handler.set_state(BurrowerAnimationState::BurrowingDown);
                },
                BurrowerAnimationState::BurrowingDown => {
                    self.frames_remaining = 120;
                    self.animation_handler.set_state(BurrowerAnimationState::Hidden);
                },
                BurrowerAnimationState::Hidden => {
                    self.frames_remaining = 90;
                    self.animation_handler.set_state(BurrowerAnimationState::Digging);
                },
                BurrowerAnimationState::Digging => {
                    self.frames_remaining = 30;
                    self.animation_handler.set_state(BurrowerAnimationState::BurrowingUp);
                },
            }
        }
        self.frames_remaining -= 1;
        self.animation_handler.increment_frame();
    }

    /// Tells whether the enemy is dead and can leave the game.
    pub fn should_remove(&self) -> (r: bool)
        ensures
            r == self.is_dead,
    {
        self.is_dead
    }

    /// The life of the enemy: one of one.
    pub fn get_health(&self) -> (r: Health)
        ensures
            r == (Health { current: 1, max: 1 }),
    {
        Health { current: 1, max: 1 }
    }

    /// A hit kills a burrower unless it is under the ground.
    pub fn maybe_got_hit(&mut self, hit_type: EnemyHitType) -> (r: EnemyHitResult)
        ensures
            r == (if burrower_is_under(old(self).animation_handler.state) {
                EnemyHitResult::DidNotHit
            } else {
                EnemyHitResult::GotHit
            }),
            final(self).is_dead == (old(self).is_dead || !burrower_is_under(
                old(self).animation_handler.state,
            )),
            final(self).bb == old(self).bb,
            final(self).animation_handler == old(self).animation_handler,
            final(self).frames_remaining == old(self).frames_remaining,
    {
        match self.animation_handler.state {
            BurrowerAnimationState::Hidden => EnemyHitResult::DidNotHit,
            BurrowerAnimationState::Digging => EnemyHitResult::DidNotHit,
            _ => {
                self.is_dead = true;
                EnemyHitResult::GotHit
            },
        }
    }

    /// A burrower hurts the player by one on touch unless it is under the
    /// ground.
    pub fn maybe_damage_player(&self) -> (r: Option<u32>)
        ensures
            r == (if burrower_is_under(self.animation_handler.state) {
                None
            } else {
                Some(1u32)
            }),
    {
        match self.animation_handler.state {
            BurrowerAnimationState::Hidden => None,
            BurrowerAnimationState::Digging => None,
            _ => Some(1),
        }
    }

    /// Tells whether the burrower is to be drawn: a hidden one is not.
    pub fn is_drawn(&self) -> (r: bool)
        ensures
            r == (self.animation_handler.state != BurrowerAnimationState::Hidden),
    {
        match self.animation_handler.state {
            BurrowerAnimationState::Hidden => false,
            _ => true,
        }
    }
}

} // verus!

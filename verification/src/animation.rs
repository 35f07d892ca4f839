//! Frame bookkeeping for sprite animations.

use vstd::prelude::*;
use vstd::std_specs::cmp::PartialEqSpec;

verus! {

/// How a run of frames is played.
#[derive(Clone, Copy, Debug, PartialEq, Eq, Structural)]
pub enum AnimationMode {
    /// From the first frame to the last, and then from the first again.
    Loop,
    /// From the first frame to the last, which then stays.
    Once,
    /// From the last frame to the first, which then stays.
    ReverseOnce,
}

/// A run of atlas frames: the first and the last frame, for how many steps
/// each frame is shown, and how the run is played.
#[derive(Clone, Copy, Debug, PartialEq, Eq, Structural)]
pub struct AnimationConfigResult {
    pub start: u32,
    pub end: u32,
    pub dur: u32,
    pub mode: AnimationMode,
}

impl AnimationConfigResult {
    /// A run is usable when it has at least one frame, each shown for at
    /// least one step, and its length fits the machine word.
    pub open spec fn wf(&self) -> bool {
        self.start <= self.end && self.dur > 0 && self.end - self.start < u32::MAX
    }

    /// The place in the run, counted from 0, that is reached after `frame`
    /// steps when the run is played once and then stays.
    pub open spec fn place_once(&self, frame: int) -> int {
        if frame / (self.dur as int) < self.end - self.start {
            frame / (self.dur as int)
        } else {
            self.end - self.start
        }
    }

    /// The atlas frame shown at step `frame`.
    pub open spec fn frame_at(&self, frame: int) -> int {
        match self.mode {
            AnimationMode::Loop => self.start + (frame / (self.dur as int)) % (self.end - self.start
                + 1),
            AnimationMode::Once => self.start + self.place_once(frame),
            AnimationMode::ReverseOnce => self.end - self.place_once(frame),
        }
    }

    /// A run that starts over after its last frame.
    pub fn new(start: u32, end: u32, dur: u32) -> (r: Self)
        ensures
            r == (AnimationConfigResult { start, end, dur, mode: AnimationMode::Loop }),
    {
        Self { start, end, dur, mode: AnimationMode::Loop }
    }

    /// A run that is played once and stays on its last frame.
    pub fn new_no_loop(start: u32, end: u32, dur: u32) -> (r: Self)
        ensures
            r == (AnimationConfigResult { start, end, dur, mode: AnimationMode::Once }),
    {
        Self { start, end, dur, mode: AnimationMode::Once }
    }

    /// A run that is played once backwards and stays on its first frame.
    pub fn new_reverse_no_loop(start: u32, end: u32, dur: u32) -> (r: Self)
        ensures
            r == (AnimationConfigResult { start, end, dur, mode: AnimationMode::ReverseOnce }),
    {
        Self { start, end, dur, mode: AnimationMode::ReverseOnce }
    }
}

/// A state of an animated thing that knows which frames show it.
pub trait AnimationConfig: Sized {
    /// The run of frames of this state.
    spec fn config(&self) -> AnimationConfigResult;

    fn get_config(&self) -> (r: AnimationConfigResult)
        ensures
            r == self.config(),
            r.wf(),
    ;
}

/// The animation state of a thing and the number of steps it has been in it.
pub struct AnimationHandler<T> {
    pub state: T,
    pub current_frame: u32,
}

impl<T: AnimationConfig + PartialEq> AnimationHandler<T> {
    /// A handler in the state `initial_state` that has counted no step yet.
    pub fn new(initial_state: T) -> (r: Self)
        ensures
            r.state == initial_state,
            r.current_frame == 0,
    {
        AnimationHandler { state: initial_state, current_frame: 0 }
    }

    /// Changes the state and starts counting steps anew, unless the new
    /// state equals the current one. What "equals" means is known only for
    /// a state type whose `==` has a stated meaning.
    pub fn set_state(&mut self, new_state: T)
        ensures
            *final(self) == *old(self) || (final(self).state == new_state
                && final(self).current_frame == 0),
            T::obeys_eq_spec() && old(self).state.eq_spec(&new_state) ==> *final(self) == *old(self),
            T::obeys_eq_spec() && !old(self).state.eq_spec(&new_state) ==> final(self).state
                == new_state && final(self).current_frame == 0,
    {
        if self.state != new_state {
            self.current_frame = 0;
            self.state = new_state;
        }
    }

    /// Counts one step.
    pub fn increment_frame(&mut self)
        requires
            old(self).current_frame < u32::MAX,
        ensures
            final(self).current_frame == old(self).current_frame + 1,
            final(self).state == old(self).state,
    {
        self.current_frame += 1;
    }

    /// The atlas frame to show now.
    pub fn get_atlas_index(&self) -> (r: u32)
        ensures
            r == self.state.config().frame_at(self.current_frame as int),
            self.state.config().start <= r <= self.state.config().end,
    {
        let config = self.state.get_config();
        let steps: u32 = self.current_frame / config.dur;
        let last: u32 = config.end - config.start;
        match config.mode {
            AnimationMode::Loop => config.start + steps % (last + 1),
            AnimationMode::Once => config.start + (if steps < last { steps } else { last }),
            AnimationMode::ReverseOnce => config.end - (if steps < last { steps } else { last }),
        }
    }

    /// The state the thing is in.
    pub fn current_state(&self) -> (r: &T)
        ensures
            *r == self.state,
    {
        &self.state
    }
}

} // verus!

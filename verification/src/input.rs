//! What the player asks for in one frame.

use vstd::prelude::*;

verus! {

/// The buttons held in one frame.
#[derive(Clone, Copy, Debug, PartialEq, Eq, Structural)]
pub struct InputState {
    pub left: bool,
    pub right: bool,
    pub up: bool,
    pub jump: bool,
    pub down: bool,
    pub swing: bool,
}

impl Default for InputState {
    fn default() -> (r: Self)
        ensures
            r == (InputState {
                left: false,
                right: false,
                up: false,
                jump: false,
                down: false,
                swing: false,
            }),
    {
        InputState { left: false, right: false, up: false, jump: false, down: false, swing: false }
    }
}

} // verus!

//! The kinds of item that lie around in a dungeon.

use vstd::prelude::*;

verus! {

/// The kinds of item.
#[derive(Clone, Copy, Debug, PartialEq, Eq, Structural)]
pub enum ItemType {
    Coin,
    SmallStone,
    LargeStone,
    Box,
}

impl ItemType {
    /// Width and height of an item of this kind, in pixels.
    pub open spec fn spec_size_px(self) -> (u32, u32) {
        match self {
            ItemType::Coin => (5, 5),
            ItemType::SmallStone => (4, 4),
            ItemType::LargeStone => (8, 8),
            ItemType::Box => (8, 10),
        }
    }

    /// Width and height of an item of this kind, in pixels.
    pub fn size_px(self) -> (r: (u32, u32))
        ensures
            r == self.spec_size_px(),
    {
        match self {
            ItemType::Coin => (5, 5),
            ItemType::SmallStone => (4, 4),
            ItemType::LargeStone => (8, 8),
            ItemType::Box => (8, 10),
        }
    }
}

} // verus!

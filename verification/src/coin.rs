//! A coin: half a tile wide and high, that falls until it lies on something.

use vstd::prelude::*;
use crate::common::BoundingBox;
use crate::physics::{integrate_kinematic, integrated};
use crate::world::MapLike;

verus! {

/// A coin and where it is.
#[derive(Clone, Copy, Debug, PartialEq, Eq, Structural)]
pub struct Coin {
    pub bb: BoundingBox,
}

impl Coin {
    /// A coin at rest with its top-left corner at `(x, y)`.
    pub fn new(x: i64, y: i64) -> (c: Coin)
        ensures
            c.bb == (BoundingBox { x, y, w: 500, h: 500, vx: 0, vy: 0 }),
    {
        Coin { bb: BoundingBox { x, y, w: 500, h: 500, vx: 0, vy: 0 } }
    }

    /// Lets the coin move for one step under gravity.
    pub fn update<M: MapLike>(&mut self, map: &M)
        requires
            old(self).bb.in_range(),
            map.wf(),
        ensures
            final(self).bb == integrated(map, old(self).bb, true).new_bb,
    {
        let res = integrate_kinematic(map, &self.bb, true);
        self.bb = res.new_bb;
    }

    /// Tells whether the coin shares a region of positive area with `bb`.
    pub fn overlaps(&self, bb: &BoundingBox) -> (r: bool)
        ensures
            r == self.bb.spec_overlaps(bb),
    {
        self.bb.overlaps(bb)
    }
}

} // verus!

//! Positions and moving rectangles, in thousandths of a tile.

use vstd::prelude::*;
use crate::units::{in_limit, rect_in_span};

verus! {

/// A point in world space.
#[derive(Clone, Copy, Debug, PartialEq, Eq, Structural)]
pub struct Pos {
    pub x: i64,
    pub y: i64,
}

/// An axis-aligned rectangle with a velocity per step.
#[derive(Clone, Copy, Debug, PartialEq, Eq, Structural)]
pub struct BoundingBox {
    pub x: i64,
    pub y: i64,
    pub w: i64,
    pub h: i64,
    pub vx: i64,
    pub vy: i64,
}

impl BoundingBox {
    /// A rectangle has a positive width and height.
    pub open spec fn wf(&self) -> bool {
        self.w > 0 && self.h > 0
    }

    /// True when the rectangle is well formed and each of its six numbers is
    /// small enough for the movement code to add them up.
    pub open spec fn in_range(&self) -> bool {
        &&& self.wf()
        &&& in_limit(self.x as int)
        &&& in_limit(self.y as int)
        &&& in_limit(self.w as int)
        &&& in_limit(self.h as int)
        &&& in_limit(self.vx as int)
        &&& in_limit(self.vy as int)
    }

    /// True when the rectangle has a positive size and every point of it has
    /// a tile index that fits `i32`. Every rectangle in range is in span, and
    /// so is every rectangle that a step of movement makes of one.
    pub open spec fn in_span(&self) -> bool {
        rect_in_span(self.x as int, self.y as int, self.w as int, self.h as int)
    }

    /// True when the two rectangles share a region of positive area.
    pub open spec fn spec_overlaps(&self, other: &BoundingBox) -> bool {
        !(self.x + self.w <= other.x || other.x + other.w <= self.x || self.y + self.h <= other.y
            || other.y + other.h <= self.y)
    }

    /// Tells whether the rectangle is in range for the movement code.
    pub fn check_in_range(&self) -> (r: bool)
        ensures
            r == self.in_range(),
    {
        let lim: i64 = 700_000_000_000;
        self.w > 0 && self.h > 0 && -lim <= self.x && self.x <= lim && -lim <= self.y && self.y
            <= lim && self.w <= lim && self.h <= lim && -lim <= self.vx && self.vx <= lim && -lim
            <= self.vy && self.vy <= lim
    }

    /// Tells whether the rectangle is in span.
    pub fn check_in_span(&self) -> (r: bool)
        ensures
            r == self.in_span(),
    {
        let span: i64 = 2_147_483_647_000;
        self.w > 0 && self.h > 0 && -span <= self.x && self.x <= span && self.w <= span - self.x
            && -span <= self.y && self.y <= span && self.h <= span - self.y
    }

    /// The rectangle moved by its velocity, whatever is in the way.
    pub fn iterate(&self) -> (r: BoundingBox)
        requires
            self.in_range(),
        ensures
            r == (BoundingBox { x: (self.x + self.vx) as i64, y: (self.y + self.vy) as i64, ..*self }),
    {
        BoundingBox {
            x: self.x + self.vx,
            y: self.y + self.vy,
            w: self.w,
            h: self.h,
            vx: self.vx,
            vy: self.vy,
        }
    }

    /// Tells whether two rectangles share a region of positive area.
    pub fn overlaps(&self, other: &BoundingBox) -> (r: bool)
        ensures
            r == self.spec_overlaps(other),
    {
        let right: i128 = self.x as i128 + self.w as i128;
        let bottom: i128 = self.y as i128 + self.h as i128;
        let other_right: i128 = other.x as i128 + other.w as i128;
        let other_bottom: i128 = other.y as i128 + other.h as i128;
        !(right <= other.x as i128 || other_right <= self.x as i128 || bottom <= other.y as i128
            || other_bottom <= self.y as i128)
    }
}

} // verus!

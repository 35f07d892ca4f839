//! The two tile layers and the directions used by movers and doors.

use vstd::prelude::*;

verus! {

/// The structural layer of a cell.
#[derive(Clone, Copy, Debug, PartialEq, Eq, Structural)]
pub enum BaseTile {
    /// Outside the authored footprint of a room; blocks movement.
    NotPartOfRoom,
    /// Walkable space inside the footprint.
    Empty,
    Stone,
    Wood,
}

/// The secondary layer of a cell, independent of solidity.
#[derive(Clone, Copy, Debug, PartialEq, Eq, Structural)]
pub enum OverlayTile {
    Nothing,
    Ladder,
    Platform,
    LadderPlatform,
}

/// Horizontal direction of a mover.
#[derive(Clone, Copy, Debug, PartialEq, Eq, Structural)]
pub enum Dir {
    Left,
    Right,
}

/// The side of a room that a door opens towards.
#[derive(Clone, Copy, Debug, PartialEq, Eq, Structural)]
pub enum DoorDir {
    Left,
    Right,
    Up,
    Down,
}

impl BaseTile {
    /// A base tile blocks movement unless it is `Empty`.
    pub open spec fn solid(self) -> bool {
        self != BaseTile::Empty
    }

    /// Tells whether the tile blocks movement.
    pub fn is_solid(self) -> (r: bool)
        ensures
            r == self.solid(),
    {
        match self {
            BaseTile::Empty => false,
            _ => true,
        }
    }
}

impl OverlayTile {
    /// True for the overlays that can be climbed.
    pub open spec fn ladder(self) -> bool {
        self == OverlayTile::Ladder || self == OverlayTile::LadderPlatform
    }

    /// True for the overlays that can be landed on from above.
    pub open spec fn platform(self) -> bool {
        self == OverlayTile::Platform || self == OverlayTile::LadderPlatform
    }

    /// Tells whether the overlay can be climbed.
    pub fn is_ladder(self) -> (r: bool)
        ensures
            r == self.ladder(),
    {
        match self {
            OverlayTile::Ladder => true,
            OverlayTile::LadderPlatform => true,
            _ => false,
        }
    }

    /// Tells whether the overlay can be landed on from above.
    pub fn is_platform(self) -> (r: bool)
        ensures
            r == self.platform(),
    {
        match self {
            OverlayTile::Platform => true,
            OverlayTile::LadderPlatform => true,
            _ => false,
        }
    }
}

impl Dir {
    /// True for `Right`.
    pub open spec fn spec_goes_right(self) -> bool {
        self == Dir::Right
    }

    /// Tells whether the direction is `Right`.
    pub fn goes_right(self) -> (r: bool)
        ensures
            r == self.spec_goes_right(),
    {
        match self {
            Dir::Right => true,
            Dir::Left => false,
        }
    }
}

impl DoorDir {
    /// The direction a matching door must face: Up pairs with Down, Left with Right.
    pub open spec fn spec_opposite(self) -> DoorDir {
        match self {
            DoorDir::Left => DoorDir::Right,
            DoorDir::Right => DoorDir::Left,
            DoorDir::Up => DoorDir::Down,
            DoorDir::Down => DoorDir::Up,
        }
    }

    /// The direction that a matching door must face.
    pub fn opposite(self) -> (r: DoorDir)
        ensures
            r == self.spec_opposite(),
    {
        match self {
            DoorDir::Left => DoorDir::Right,
            DoorDir::Right => DoorDir::Left,
            DoorDir::Up => DoorDir::Down,
            DoorDir::Down => DoorDir::Up,
        }
    }
}

} // verus!

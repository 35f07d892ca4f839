//! Tile worlds, rooms, kinematic movement and dungeon assembly for a
//! tile-based platformer, with machine-checked contracts.

pub mod animation;
pub mod assembler;
pub mod assembly;
pub mod atlas;
pub mod audit;
pub mod coin;
pub mod common;
pub mod dungeon;
pub mod edit;
pub mod editor;
pub mod enemies;
pub mod folder;
pub mod game_map;
pub mod grid;
pub mod input;
pub mod item;
pub mod physics;
pub mod player;
pub mod random;
pub mod resize;
pub mod room;
pub mod slime;
pub mod tiles;
pub mod units;
pub mod world;

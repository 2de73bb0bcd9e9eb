//! Core logic of a turn-based tile-grid roguelike: the map model, the
//! procedural map builders, the ordered turn-resolution pipeline, the
//! spawn tables and the save/load snapshot model.
//!
//! Rendering, keyboard decoding and file access live outside this crate;
//! everything here works on plain values and is verified.

pub mod combat;
pub mod components;
pub mod fov;
pub mod map;
pub mod map_builders;
pub mod pathfinding;
pub mod player;
pub mod rect;
pub mod gamelog;
pub mod rng;
pub mod runstate;
pub mod saveload;
pub mod spawner;
pub mod systems;
pub mod world;

use vstd::prelude::*;

verus! {

} // verus!

//! The procedural map builders: interchangeable algorithms that produce a
//! complete, playable map, a start position on a floor tile, and spawn
//! regions, behind one tagged-variant interface.

pub mod common;
pub mod simple_map;
pub mod bsp_dungeon;
pub mod bsp_interior;
pub mod cellular_automata;
pub mod drunkards;

use vstd::prelude::*;
use crate::map::GameMap;
use crate::components::Position;
use crate::world::{World, world_extends};
use simple_map::SimpleMapBuilder;
use bsp_dungeon::BspDungeonBuilder;
use bsp_interior::BspInteriorBuilder;
use cellular_automata::CellularAutomataBuilder;
use drunkards::DrunkardsWalkBuilder;
use common::builder_output_ok;

verus! {

/// Map generation failed: the generated terrain held no floor the player
/// could stand on, or too little of it to place both a start and a
/// staircase.
#[derive(Clone, Copy, PartialEq, Eq, Structural, Debug)]
pub enum MapBuildError {
    NoFloor,
    TooSmall,
}

/// One of the interchangeable builder algorithms.
pub enum MapBuilder {
    Simple(SimpleMapBuilder),
    BspDungeon(BspDungeonBuilder),
    BspInterior(BspInteriorBuilder),
    Cellular(CellularAutomataBuilder),
    Drunkard(DrunkardsWalkBuilder),
}

impl MapBuilder {
    /// The built map: well-formed, with exactly one staircase and the
    /// start on a floor tile.
    pub open spec fn built(self) -> bool {
        match self {
            MapBuilder::Simple(b) => b.built,
            MapBuilder::BspDungeon(b) => b.built,
            MapBuilder::BspInterior(b) => b.built,
            MapBuilder::Cellular(b) => b.built,
            MapBuilder::Drunkard(b) => b.built,
        }
    }

    pub open spec fn spec_map(self) -> GameMap {
        match self {
            MapBuilder::Simple(b) => b.map,
            MapBuilder::BspDungeon(b) => b.map,
            MapBuilder::BspInterior(b) => b.map,
            MapBuilder::Cellular(b) => b.map,
            MapBuilder::Drunkard(b) => b.map,
        }
    }

    pub open spec fn inv(self) -> bool {
        match self {
            MapBuilder::Simple(b) => b.inv(),
            MapBuilder::BspDungeon(b) => b.inv(),
            MapBuilder::BspInterior(b) => b.inv(),
            MapBuilder::Cellular(b) => b.inv(),
            MapBuilder::Drunkard(b) => b.inv(),
        }
    }

    pub open spec fn spec_depth(self) -> int {
        match self {
            MapBuilder::Simple(b) => b.depth as int,
            MapBuilder::BspDungeon(b) => b.depth as int,
            MapBuilder::BspInterior(b) => b.depth as int,
            MapBuilder::Cellular(b) => b.depth as int,
            MapBuilder::Drunkard(b) => b.depth as int,
        }
    }

    pub open spec fn spec_start(self) -> Position {
        match self {
            MapBuilder::Simple(b) => b.starting_position,
            MapBuilder::BspDungeon(b) => b.starting_position,
            MapBuilder::BspInterior(b) => b.starting_position,
            MapBuilder::Cellular(b) => b.starting_position,
            MapBuilder::Drunkard(b) => b.starting_position,
        }
    }

    /// Runs the algorithm. On success the map has exactly one staircase
    /// and a valid start on a floor tile; the flood-fill based algorithms
    /// also guarantee every floor tile reachable from the start.
    pub fn build_map(&mut self, rng: &mut bracket_random::prelude::RandomNumberGenerator) -> (r:
        Result<(), MapBuildError>)
        requires
            old(self).inv(),
        ensures
            final(self).inv(),
            final(self).spec_depth() == old(self).spec_depth(),
            r is Ok ==> final(self).built() && builder_output_ok(
                final(self).spec_map(),
                final(self).spec_start(),
            ),
    {
        match self {
            MapBuilder::Simple(b) => b.build_map(rng),
            MapBuilder::BspDungeon(b) => b.build_map(rng),
            MapBuilder::BspInterior(b) => b.build_map(rng),
            MapBuilder::Cellular(b) => b.build_map(rng),
            MapBuilder::Drunkard(b) => b.build_map(rng),
        }
    }

    /// A copy of the generated map.
    pub fn get_map(&self) -> (m: GameMap)
        requires
            self.inv(),
        ensures
            m.wf(),
            common::same_map(m, self.spec_map()),
    {
        match self {
            MapBuilder::Simple(b) => b.get_map(),
            MapBuilder::BspDungeon(b) => b.get_map(),
            MapBuilder::BspInterior(b) => b.get_map(),
            MapBuilder::Cellular(b) => b.get_map(),
            MapBuilder::Drunkard(b) => b.get_map(),
        }
    }

    pub fn get_starting_position(&self) -> (p: Position)
        ensures
            p == self.spec_start(),
    {
        match self {
            MapBuilder::Simple(b) => b.get_starting_position(),
            MapBuilder::BspDungeon(b) => b.get_starting_position(),
            MapBuilder::BspInterior(b) => b.get_starting_position(),
            MapBuilder::Cellular(b) => b.get_starting_position(),
            MapBuilder::Drunkard(b) => b.get_starting_position(),
        }
    }

    /// Populates the world over the generated rooms or regions.
    pub fn spawn_entities(
        &self,
        world: &mut World,
        rng: &mut bracket_random::prelude::RandomNumberGenerator,
    )
        requires
            self.inv(),
            old(world).wf(),
            1 <= self.spec_depth() <= 1000,
        ensures
            final(world).wf(),
            world_extends(*old(world), *final(world)),
    {
        match self {
            MapBuilder::Simple(b) => b.spawn_entities(world, rng),
            MapBuilder::BspDungeon(b) => b.spawn_entities(world, rng),
            MapBuilder::BspInterior(b) => b.spawn_entities(world, rng),
            MapBuilder::Cellular(b) => b.spawn_entities(world, rng),
            MapBuilder::Drunkard(b) => b.spawn_entities(world, rng),
        }
    }

    /// The generation playback: one snapshot per carving step, when the
    /// builder was made with snapshots enabled.
    pub fn get_snapshot_history(self) -> (h: Vec<GameMap>) {
        match self {
            MapBuilder::Simple(b) => b.history,
            MapBuilder::BspDungeon(b) => b.history,
            MapBuilder::BspInterior(b) => b.history,
            MapBuilder::Cellular(b) => b.history,
            MapBuilder::Drunkard(b) => b.history,
        }
    }
}

/// The selection policy: one fixed variant today, switchable by depth or
/// taste tomorrow.
pub fn random_builder(new_depth: i32) -> (b: MapBuilder)
    requires
        1 <= new_depth <= 1000,
    ensures
        !b.built(),
        b.inv(),
        b.spec_depth() == new_depth,
{
    MapBuilder::Cellular(CellularAutomataBuilder::new(new_depth))
}

} // verus!

//! The drunkard's-walk builder: staggering diggers carve floor outward
//! from the centre; like the other flood-fill builders, unreachable floor
//! is walled off and the stairs land on the farthest reachable point.

use vstd::prelude::*;
use crate::map::{GameMap, TileType, spec_idx, lemma_xy_idx};
use crate::components::Position;
use crate::world::{World, world_extends};
use crate::rng::roll_dice;
use crate::pathfinding::UNREACHED;
use crate::map_builders::MapBuildError;
use crate::map_builders::common::{
    builder_output_ok, floor_connected, clone_map, snapshot_of, same_map, cull_unreachable,
    build_noise_regions, lemma_reachable_same_blocked, lemma_marking_same_blocked,
    stairs_at_farthest, hop_marking, flood_build_ok,
};

verus! {

pub struct DrunkardsWalkBuilder {
    pub map: GameMap,
    pub starting_position: Position,
    pub depth: i32,
    pub history: Vec<GameMap>,
    pub noise_areas: Vec<(i32, Vec<usize>)>,
    pub snapshot_enabled: bool,
    pub built: bool,
}

impl DrunkardsWalkBuilder {
    pub open spec fn inv(self) -> bool {
        &&& self.map.wf()
        &&& forall|r: int, k: int|
            0 <= r < self.noise_areas.len() && 0 <= k < self.noise_areas@[r].1.len()
                ==> (#[trigger] self.noise_areas@[r].1@[k]) < 3440
        &&& forall|r: int|
            0 <= r < self.noise_areas.len() ==> (#[trigger] self.noise_areas@[r]).1.len() <= 3440
    }

    pub fn new(new_depth: i32) -> (b: DrunkardsWalkBuilder)
        ensures
            b.inv(),
            !b.built,
            b.depth == new_depth,
    {
        DrunkardsWalkBuilder {
            map: GameMap::new(new_depth),
            starting_position: Position { x: 0, y: 0 },
            depth: new_depth,
            history: Vec::new(),
            noise_areas: Vec::new(),
            snapshot_enabled: false,
            built: false,
        }
    }

    pub fn take_snapshot(&mut self)
        requires
            old(self).inv(),
        ensures
            final(self).inv(),
            *final(self) == (DrunkardsWalkBuilder { history: final(self).history, ..*old(self) }),
    {
        if self.snapshot_enabled {
            let snap = snapshot_of(&self.map);
            self.history.push(snap);
        }
    }

    /// Sends staggering diggers out from the centre, walls off whatever
    /// ended up unreachable, places the stairs at the farthest reachable
    /// point, and groups the floor into noise regions.
    #[verifier::spinoff_prover]
    #[verifier::rlimit(60)]
    pub fn build_map(&mut self, rng: &mut bracket_random::prelude::RandomNumberGenerator) -> (r:
        Result<(), MapBuildError>)
        requires
            old(self).inv(),
        ensures
            final(self).inv(),
            final(self).depth == old(self).depth,
            r is Ok ==> final(self).built && builder_output_ok(
                final(self).map,
                final(self).starting_position,
            ) && floor_connected(final(self).map, final(self).starting_position) && (exists|dist: Seq<u32>|
                #[trigger] flood_build_ok(final(self).map, final(self).starting_position, dist)),
    {
        let mut m = GameMap::new(self.depth);
        let sx: i32 = 40;
        let sy: i32 = 21;
        let start_idx = m.xy_idx(sx, sy);
        m.tiles.set(start_idx, TileType::Floor);
        // Diggers stagger out from the centre, carving as they go.
        let mut digger: usize = 0;
        while digger < 80
            invariant
                m.wf(),
                m.no_downstairs(),
                start_idx < 3440,
                m.tiles@[start_idx as int] == TileType::Floor,
            decreases 80 - digger,
        {
            let mut x: i32 = 40;
            let mut y: i32 = 21;
            let mut life: usize = 0;
            while life < 200
                invariant
                    m.wf(),
                    m.no_downstairs(),
                    start_idx < 3440,
                    m.tiles@[start_idx as int] == TileType::Floor,
                    1 <= x <= 78,
                    1 <= y <= 41,
                decreases 200 - life,
            {
                let idx = m.xy_idx(x, y);
                m.tiles.set(idx, TileType::Floor);
                let dir = roll_dice(rng, 1, 4);
                if dir == 1 && x > 1 {
                    x = x - 1;
                } else if dir == 2 && x < 78 {
                    x = x + 1;
                } else if dir == 3 && y > 1 {
                    y = y - 1;
                } else if dir == 4 && y < 41 {
                    y = y + 1;
                }
                life = life + 1;
            }
            digger = digger + 1;
        }
        proof {
            assert(start_idx == spec_idx(sx as int, sy as int));
        }
        // Wall off unreachable floor and place the stairs at the farthest
        // reachable point.
        let (exit_tile, gdist) = cull_unreachable(&mut m, start_idx);
        let ghost m_cull = m;
        match exit_tile {
            None => Err(MapBuildError::NoFloor),
            Some(t) => {
                if t == start_idx {
                    return Err(MapBuildError::TooSmall);
                }
                m.tiles.set(t, TileType::DownStairs);
                proof {
                    assert(m.single_downstairs_at(t as int)) by {
                        assert forall|j: int|
                            0 <= j < 3440 && j != t implies #[trigger] m.tiles@[j]
                            != TileType::DownStairs by {
                            assert(m_cull.tiles@[j] == m.tiles@[j]);
                        }
                    }
                    assert forall|i: int|
                        0 <= i < 3440 && #[trigger] m.tiles@[i] == TileType::Floor implies m.reachable(
                        start_idx as int,
                        i,
                    ) by {
                        assert(m_cull.tiles@[i] == TileType::Floor);
                        lemma_reachable_same_blocked(m_cull, m, start_idx as int, i);
                    }
                    lemma_xy_idx(sx as int, sy as int);
                    lemma_marking_same_blocked(m_cull, m, start_idx as int, gdist@);
                    assert(m.single_downstairs_at(t as int));
                    assert forall|i: int|
                        0 <= i < 3440 && #[trigger] m.tiles@[i] == TileType::Floor implies gdist@[i]
                        != UNREACHED && gdist@[i] <= gdist@[t as int] by {
                        assert(m_cull.tiles@[i] == TileType::Floor);
                    }
                    assert(stairs_at_farthest(m, start_idx as int, gdist@));
                    assert(flood_build_ok(m, Position { x: sx, y: sy }, gdist@));
                }
                let seed = roll_dice(rng, 1, 65536);
                let regions = build_noise_regions(&m, seed as u64);
                self.map = m;
                self.starting_position = Position { x: sx, y: sy };
                self.noise_areas = regions;
                self.built = true;
                self.take_snapshot();
                Ok(())
            },
        }
    }

    pub fn get_map(&self) -> (m: GameMap)
        requires
            self.inv(),
        ensures
            m.wf(),
            same_map(m, self.map),
    {
        clone_map(&self.map)
    }

    pub fn get_starting_position(&self) -> (p: Position)
        ensures
            p == self.starting_position,
    {
        self.starting_position
    }

    /// Populates the map: one spawn pass per noise region.
    pub fn spawn_entities(
        &self,
        world: &mut World,
        rng: &mut bracket_random::prelude::RandomNumberGenerator,
    )
        requires
            self.inv(),
            old(world).wf(),
            1 <= self.depth <= 1000,
        ensures
            final(world).wf(),
            world_extends(*old(world), *final(world)),
    {
        let mut r: usize = 0;
        let ghost w_start = *world;
        while r < self.noise_areas.len()
            invariant
                self.inv(),
                world.wf(),
                1 <= self.depth <= 1000,
                r <= self.noise_areas.len(),
                world_extends(w_start, *world),
            decreases self.noise_areas.len() - r,
        {
            let ghost w_iter = *world;
            if world.alive.len() + 4000 <= 65536 && world.next_marker < 0xFFFF_FFFE_0000_0000 {
                crate::spawner::spawn_region(world, rng, &self.noise_areas[r].1, self.depth);
            }
            proof {
                crate::world::lemma_extends_trans(w_start, w_iter, *world);
            }
            r = r + 1;
        }
    }
}

} // verus!

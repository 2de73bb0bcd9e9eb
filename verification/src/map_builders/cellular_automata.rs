//! The cellular-automata builder: coin-flip noise smoothed by a
//! neighbour-count rule, a start near the centre, unreachable floor
//! walled off by flood fill, the stairs at the farthest reachable point,
//! and noise-bucket spawn regions.

use vstd::prelude::*;
use crate::map::{GameMap, TileType, spec_idx, spec_x, spec_y, lemma_xy_idx};
use crate::components::Position;
use crate::world::{World, world_extends};
use crate::rng::roll_dice;
use crate::pathfinding::UNREACHED;
use crate::map_builders::MapBuildError;
use crate::map_builders::common::{
    builder_output_ok, floor_connected, clone_map, snapshot_of, same_map, cull_unreachable,
    build_noise_regions, lemma_reachable_same_blocked, lemma_marking_same_blocked,
    stairs_at_farthest, hop_marking, flood_build_ok,
};

verus! {

/// 1 when the tile at `j` is a wall.
pub open spec fn wall_at(tiles: Seq<TileType>, j: int) -> int {
    if tiles[j] == TileType::Wall {
        1
    } else {
        0
    }
}

/// How many of the eight neighbours of interior tile `i` are walls.
pub open spec fn wall_neighbors(tiles: Seq<TileType>, i: int) -> int {
    wall_at(tiles, i - 1) + wall_at(tiles, i + 1) + wall_at(tiles, i - 80) + wall_at(tiles, i + 80)
        + wall_at(tiles, i - 81) + wall_at(tiles, i - 79) + wall_at(tiles, i + 79) + wall_at(
        tiles,
        i + 81,
    )
}

/// A tile with a full ring of neighbours on the grid.
pub open spec fn interior(i: int) -> bool {
    1 <= spec_x(i) <= 78 && 1 <= spec_y(i) <= 41
}

/// One smoothing pass of the automaton: an interior tile becomes a wall
/// when more than four or none of its eight neighbours are walls, and a
/// floor otherwise; the border is untouched.
pub fn smooth_pass(tiles: &Vec<TileType>) -> (r: Vec<TileType>)
    requires
        tiles.len() == 3440,
    ensures
        r.len() == 3440,
        forall|i: int|
            0 <= i < 3440 && interior(i) ==> #[trigger] r@[i] == (
            if wall_neighbors(tiles@, i) > 4 || wall_neighbors(tiles@, i) == 0 {
                TileType::Wall
            } else {
                TileType::Floor
            }),
        forall|i: int| 0 <= i < 3440 && !interior(i) ==> #[trigger] r@[i] == tiles@[i],
{
    let mut r: Vec<TileType> = Vec::new();
    let mut c: usize = 0;
    while c < 3440
        invariant
            tiles.len() == 3440,
            c <= 3440,
            r@ =~= tiles@.take(c as int),
        decreases 3440 - c,
    {
        r.push(tiles[c]);
        proof {
            assert(r@ =~= tiles@.take(c + 1));
        }
        c = c + 1;
    }
    proof {
        assert(r@ =~= tiles@);
    }
    let mut y: i32 = 1;
    while y < 42
        invariant
            tiles.len() == 3440,
            r.len() == 3440,
            1 <= y <= 42,
            forall|i: int|
                0 <= i < 3440 && interior(i) && spec_y(i) < y ==> #[trigger] r@[i] == (
                if wall_neighbors(tiles@, i) > 4 || wall_neighbors(tiles@, i) == 0 {
                    TileType::Wall
                } else {
                    TileType::Floor
                }),
            forall|i: int|
                0 <= i < 3440 && (!interior(i) || spec_y(i) >= y) ==> #[trigger] r@[i]
                    == tiles@[i],
        decreases 42 - y,
    {
        let mut x: i32 = 1;
        while x < 79
            invariant
                tiles.len() == 3440,
                r.len() == 3440,
                1 <= y < 42,
                1 <= x <= 79,
                forall|i: int|
                    0 <= i < 3440 && interior(i) && (spec_y(i) < y || (spec_y(i) == y && spec_x(i)
                        < x)) ==> #[trigger] r@[i] == (
                    if wall_neighbors(tiles@, i) > 4 || wall_neighbors(tiles@, i) == 0 {
                        TileType::Wall
                    } else {
                        TileType::Floor
                    }),
                forall|i: int|
                    0 <= i < 3440 && (!interior(i) || spec_y(i) > y || (spec_y(i) == y && spec_x(i)
                        >= x)) ==> #[trigger] r@[i] == tiles@[i],
            decreases 79 - x,
        {
            let idx: usize = (y as usize) * 80 + (x as usize);
            proof {
                lemma_xy_idx(x as int, y as int);
            }
            let mut neighbors: i32 = 0;
            if tiles[idx - 1] == TileType::Wall {
                neighbors = neighbors + 1;
            }
            if tiles[idx + 1] == TileType::Wall {
                neighbors = neighbors + 1;
            }
            if tiles[idx - 80] == TileType::Wall {
                neighbors = neighbors + 1;
            }
            if tiles[idx + 80] == TileType::Wall {
                neighbors = neighbors + 1;
            }
            if tiles[idx - 81] == TileType::Wall {
                neighbors = neighbors + 1;
            }
            if tiles[idx - 79] == TileType::Wall {
                neighbors = neighbors + 1;
            }
            if tiles[idx + 79] == TileType::Wall {
                neighbors = neighbors + 1;
            }
            if tiles[idx + 81] == TileType::Wall {
                neighbors = neighbors + 1;
            }
            proof {
                assert(neighbors == wall_neighbors(tiles@, idx as int));
            }
            if neighbors > 4 || neighbors == 0 {
                r.set(idx, TileType::Wall);
            } else {
                r.set(idx, TileType::Floor);
            }
            x = x + 1;
        }
        y = y + 1;
    }
    r
}

pub struct CellularAutomataBuilder {
    pub map: GameMap,
    pub starting_position: Position,
    pub depth: i32,
    pub history: Vec<GameMap>,
    pub noise_areas: Vec<(i32, Vec<usize>)>,
    pub snapshot_enabled: bool,
    pub built: bool,
}

impl CellularAutomataBuilder {
    pub open spec fn inv(self) -> bool {
        &&& self.map.wf()
        &&& forall|r: int, k: int|
            0 <= r < self.noise_areas.len() && 0 <= k < self.noise_areas@[r].1.len()
                ==> (#[trigger] self.noise_areas@[r].1@[k]) < 3440
        &&& forall|r: int|
            0 <= r < self.noise_areas.len() ==> (#[trigger] self.noise_areas@[r]).1.len() <= 3440
    }

    pub fn new(new_depth: i32) -> (b: CellularAutomataBuilder)
        ensures
            b.inv(),
            !b.built,
            b.depth == new_depth,
    {
        CellularAutomataBuilder {
            map: GameMap::new(new_depth),
            starting_position: Position { x: 0, y: 0 },
            depth: new_depth,
            history: Vec::new(),
            noise_areas: Vec::new(),
            snapshot_enabled: false,
            built: false,
        }
    }

    pub fn take_snapshot(&mut self)
        requires
            old(self).inv(),
        ensures
            final(self).inv(),
            *final(self) == (CellularAutomataBuilder { history: final(self).history, ..*old(self) }),
    {
        if self.snapshot_enabled {
            let snap = snapshot_of(&self.map);
            self.history.push(snap);
        }
    }

    /// Runs the automaton. On success the map is well-formed with exactly
    /// one staircase (at the farthest reachable point), the start is on a
    /// floor tile near the centre, and every floor tile is reachable from
    /// the start; a floorless or too-small cave reports a build failure
    /// instead.
    pub fn build_map(&mut self, rng: &mut bracket_random::prelude::RandomNumberGenerator) -> (r:
        Result<(), MapBuildError>)
        requires
            old(self).inv(),
        ensures
            final(self).inv(),
            final(self).depth == old(self).depth,
            r is Ok ==> final(self).built && builder_output_ok(
                final(self).map,
                final(self).starting_position,
            ) && floor_connected(final(self).map, final(self).starting_position) && (exists|dist: Seq<u32>|
                #[trigger] flood_build_ok(final(self).map, final(self).starting_position, dist)),
    {
        let mut m = GameMap::new(self.depth);
        // Seed the interior with biased coin-flip noise.
        let mut y: i32 = 1;
        while y < 42
            invariant
                m.wf(),
                1 <= y <= 42,
                m.no_downstairs(),
            decreases 42 - y,
        {
            let mut x: i32 = 1;
            while x < 79
                invariant
                    m.wf(),
                    1 <= y < 42,
                    1 <= x <= 79,
                    m.no_downstairs(),
                decreases 79 - x,
            {
                let roll = roll_dice(rng, 1, 100);
                let idx = m.xy_idx(x, y);
                if roll > 55 {
                    m.tiles.set(idx, TileType::Floor);
                } else {
                    m.tiles.set(idx, TileType::Wall);
                }
                x = x + 1;
            }
            y = y + 1;
        }
        // Smooth the noise.
        let mut pass: usize = 0;
        while pass < 15
            invariant
                m.wf(),
                pass <= 15,
                m.no_downstairs(),
            decreases 15 - pass,
        {
            let new_tiles = smooth_pass(&m.tiles);
            proof {
                assert forall|i: int| 0 <= i < 3440 implies new_tiles@[i] != TileType::DownStairs by {
                    if interior(i) {
                    } else {
                        assert(new_tiles@[i] == m.tiles@[i]);
                    }
                }
            }
            m.tiles = new_tiles;
            pass = pass + 1;
        }
        // Start near the centre: walk left until a floor tile turns up.
        let mut sx: i32 = 40;
        let sy: i32 = 21;
        let mut start_idx = m.xy_idx(sx, sy);
        while sx > 1 && m.tiles[start_idx] != TileType::Floor
            invariant
                m.wf(),
                1 <= sx <= 40,
                start_idx == spec_idx(sx as int, sy as int),
                start_idx < 3440,
            decreases sx,
        {
            sx = sx - 1;
            start_idx = m.xy_idx(sx, sy);
        }
        if m.tiles[start_idx] != TileType::Floor {
            return Err(MapBuildError::NoFloor);
        }
        // Wall off unreachable floor and place the stairs at the farthest
        // reachable point.
        let (exit_tile, gdist) = cull_unreachable(&mut m, start_idx);
        let ghost m_cull = m;
        match exit_tile {
            None => Err(MapBuildError::NoFloor),
            Some(t) => {
                if t == start_idx {
                    return Err(MapBuildError::TooSmall);
                }
                m.tiles.set(t, TileType::DownStairs);
                proof {
                    assert(m.single_downstairs_at(t as int)) by {
                        assert forall|j: int|
                            0 <= j < 3440 && j != t implies #[trigger] m.tiles@[j]
                            != TileType::DownStairs by {
                            assert(m_cull.tiles@[j] == m.tiles@[j]);
                        }
                    }
                    assert forall|i: int|
                        0 <= i < 3440 && #[trigger] m.tiles@[i] == TileType::Floor implies m.reachable(
                        start_idx as int,
                        i,
                    ) by {
                        assert(m_cull.tiles@[i] == TileType::Floor);
                        lemma_reachable_same_blocked(m_cull, m, start_idx as int, i);
                    }
                    lemma_xy_idx(sx as int, sy as int);
                    lemma_marking_same_blocked(m_cull, m, start_idx as int, gdist@);
                    assert(m.single_downstairs_at(t as int));
                    assert forall|i: int|
                        0 <= i < 3440 && #[trigger] m.tiles@[i] == TileType::Floor implies gdist@[i]
                        != UNREACHED && gdist@[i] <= gdist@[t as int] by {
                        assert(m_cull.tiles@[i] == TileType::Floor);
                    }
                    assert(stairs_at_farthest(m, start_idx as int, gdist@));
                    assert(flood_build_ok(m, Position { x: sx, y: sy }, gdist@));
                }
                // Group the floor into noise regions for spawning.
                let seed = roll_dice(rng, 1, 65536);
                let regions = build_noise_regions(&m, seed as u64);
                self.map = m;
                self.starting_position = Position { x: sx, y: sy };
                self.noise_areas = regions;
                self.built = true;
                self.take_snapshot();
                Ok(())
            },
        }
    }

    pub fn get_map(&self) -> (m: GameMap)
        requires
            self.inv(),
        ensures
            m.wf(),
            same_map(m, self.map),
    {
        clone_map(&self.map)
    }

    pub fn get_starting_position(&self) -> (p: Position)
        ensures
            p == self.starting_position,
    {
        self.starting_position
    }

    /// Populates the map: one spawn pass per noise region.
    pub fn spawn_entities(
        &self,
        world: &mut World,
        rng: &mut bracket_random::prelude::RandomNumberGenerator,
    )
        requires
            self.inv(),
            old(world).wf(),
            1 <= self.depth <= 1000,
        ensures
            final(world).wf(),
            world_extends(*old(world), *final(world)),
    {
        let mut r: usize = 0;
        let ghost w_start = *world;
        while r < self.noise_areas.len()
            invariant
                self.inv(),
                world.wf(),
                1 <= self.depth <= 1000,
                r <= self.noise_areas.len(),
                world_extends(w_start, *world),
            decreases self.noise_areas.len() - r,
        {
            let ghost w_iter = *world;
            if world.alive.len() + 4000 <= 65536 && world.next_marker < 0xFFFF_FFFE_0000_0000 {
                crate::spawner::spawn_region(world, rng, &self.noise_areas[r].1, self.depth);
            }
            proof {
                crate::world::lemma_extends_trans(w_start, w_iter, *world);
            }
            r = r + 1;
        }
    }
}

} // verus!

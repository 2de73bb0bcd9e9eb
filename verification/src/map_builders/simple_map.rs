//! The rooms-and-corridors builder: non-overlapping rectangular rooms
//! joined by L-shaped tunnels, stairs at the last room's centre, start at
//! the first room's centre.

use vstd::prelude::*;
use crate::map::{GameMap, TileType, spec_idx, lemma_xy_idx};
use crate::rect::Rect;
use crate::components::Position;
use crate::world::{World, world_extends};
use crate::rng::{roll_dice, rand_range};
use crate::map_builders::MapBuildError;
use crate::map_builders::common::{builder_output_ok, floor_connected, clone_map, snapshot_of, same_map, room_ok, place_stairs_and_start, stairs_at_last_room};

verus! {

pub struct SimpleMapBuilder {
    pub map: GameMap,
    pub starting_position: Position,
    pub depth: i32,
    pub rooms: Vec<Rect>,
    pub history: Vec<GameMap>,
    pub snapshot_enabled: bool,
    pub built: bool,
}

impl SimpleMapBuilder {
    pub open spec fn inv(self) -> bool {
        &&& self.map.wf()
        &&& forall|k: int|
            0 <= k < self.rooms.len() ==> (#[trigger] self.rooms@[k]).wf() && self.rooms@[k].x2
                < 80 && self.rooms@[k].y2 < 43
    }

    pub fn new(new_depth: i32) -> (b: SimpleMapBuilder)
        ensures
            b.inv(),
            !b.built,
            b.depth == new_depth,
    {
        SimpleMapBuilder {
            map: GameMap::new(new_depth),
            starting_position: Position { x: 0, y: 0 },
            depth: new_depth,
            rooms: Vec::new(),
            history: Vec::new(),
            snapshot_enabled: false,
            built: false,
        }
    }

    pub fn take_snapshot(&mut self)
        requires
            old(self).inv(),
        ensures
            final(self).inv(),
            *final(self) == (SimpleMapBuilder { history: final(self).history, ..*old(self) }),
    {
        if self.snapshot_enabled {
            let snap = snapshot_of(&self.map);
            self.history.push(snap);
        }
    }

    /// Samples up to thirty non-overlapping rooms, joins consecutive rooms
    /// with L-shaped tunnels, places the stairs at the last room's centre
    /// and the start at the first room's centre (nudging the stairs one
    /// tile aside when both fall together). The first sampled room always
    /// fits, so this builder always succeeds.
    pub fn build_map(&mut self, rng: &mut bracket_random::prelude::RandomNumberGenerator) -> (r:
        Result<(), MapBuildError>)
        requires
            old(self).inv(),
        ensures
            final(self).inv(),
            final(self).depth == old(self).depth,
            r is Ok,
            final(self).built,
            builder_output_ok(final(self).map, final(self).starting_position),
            floor_connected(final(self).map, final(self).starting_position),
            final(self).rooms.len() >= 1,
            final(self).starting_position.x == final(self).rooms@[0].spec_center().0,
            final(self).starting_position.y == final(self).rooms@[0].spec_center().1,
            stairs_at_last_room(final(self).map, final(self).rooms@),
            forall|k1: int, k2: int|
                0 <= k1 < final(self).rooms.len() && 0 <= k2 < final(self).rooms.len() && k1 != k2
                    ==> !(#[trigger] final(self).rooms@[k1]).spec_intersect(
                    #[trigger] final(self).rooms@[k2],
                ),
    {
        let mut m = GameMap::new(self.depth);
        let mut rooms: Vec<Rect> = Vec::new();
        let mut i: usize = 0;
        while i < 30
            invariant
                m.wf(),
                i <= 30,
                m.no_downstairs(),
                rooms.len() <= i,
                rooms.len() <= 30,
                i >= 1 ==> rooms.len() >= 1,
                forall|k: int| 0 <= k < rooms.len() ==> room_ok(m, #[trigger] rooms@[k]),
                forall|k1: int, k2: int|
                    0 <= k1 < rooms.len() && 0 <= k2 < rooms.len() && k1 != k2 ==> !(
                    #[trigger] rooms@[k1]).spec_intersect(#[trigger] rooms@[k2]),
            decreases 30 - i,
        {
            let w = rand_range(rng, 6, 10);
            let h = rand_range(rng, 6, 10);
            let x = roll_dice(rng, 1, 80 - w - 1) - 1;
            let y = roll_dice(rng, 1, 43 - h - 1) - 1;
            let new_room = Rect::new(x, y, w, h);
            let mut ok = true;
            let mut k: usize = 0;
            while k < rooms.len()
                invariant
                    k <= rooms.len(),
                    ok == (forall|k2: int|
                        0 <= k2 < k ==> !new_room.spec_intersect(#[trigger] rooms@[k2])),
                decreases rooms.len() - k,
            {
                if new_room.intersect(&rooms[k]) {
                    ok = false;
                }
                k = k + 1;
            }
            if ok {
                let ghost m0 = m;
                m.apply_room_to_map(&new_room);
                proof {
                    let (cx, cy) = new_room.spec_center();
                    lemma_xy_idx(cx, cy);
                    assert(GameMap::in_room(new_room, cx, cy));
                    assert(m.tiles@[spec_idx(cx, cy)] == TileType::Floor);
                    assert forall|k2: int|
                        0 <= k2 < rooms.len() implies room_ok(m, #[trigger] rooms@[k2]) by {
                        let (ox, oy) = rooms@[k2].spec_center();
                        lemma_xy_idx(ox, oy);
                    }
                }
                if rooms.len() > 0 {
                    let (new_x, new_y) = new_room.center();
                    let last = rooms.len() - 1;
                    let (prev_x, prev_y) = rooms[last].center();
                    let ghost m1 = m;
                    if rand_range(rng, 0, 2) == 1 {
                        m.apply_horizontal_tunnel(prev_x, new_x, prev_y);
                        m.apply_vertical_tunnel(prev_y, new_y, new_x);
                    } else {
                        m.apply_vertical_tunnel(prev_y, new_y, prev_x);
                        m.apply_horizontal_tunnel(prev_x, new_x, new_y);
                    }
                    proof {
                        assert forall|k2: int|
                            0 <= k2 < rooms.len() implies room_ok(m, #[trigger] rooms@[k2]) by {
                            let (ox, oy) = rooms@[k2].spec_center();
                            lemma_xy_idx(ox, oy);
                        }
                        let (cx, cy) = new_room.spec_center();
                        lemma_xy_idx(cx, cy);
                    }
                }
                let ghost rooms0 = rooms@;
                rooms.push(new_room);
                proof {
                    assert forall|k1: int, k2: int|
                        0 <= k1 < rooms.len() && 0 <= k2 < rooms.len() && k1 != k2 implies !(
                    #[trigger] rooms@[k1]).spec_intersect(#[trigger] rooms@[k2]) by {
                        if k1 < rooms0.len() && k2 < rooms0.len() {
                        } else if k2 == rooms0.len() {
                            assert(!new_room.spec_intersect(rooms0[k1]));
                        } else {
                            assert(!new_room.spec_intersect(rooms0[k2]));
                        }
                    }
                }
            }
            i = i + 1;
        }
        let start = place_stairs_and_start(&mut m, &rooms);
        self.map = m;
        self.starting_position = start;
        self.rooms = rooms;
        self.built = true;
        self.take_snapshot();
        Ok(())
    }

    pub fn get_map(&self) -> (m: GameMap)
        requires
            self.inv(),
        ensures
            m.wf(),
            same_map(m, self.map),
    {
        clone_map(&self.map)
    }

    pub fn get_starting_position(&self) -> (p: Position)
        ensures
            p == self.starting_position,
    {
        self.starting_position
    }

    /// Populates every room but the first (the player's).
    pub fn spawn_entities(
        &self,
        world: &mut World,
        rng: &mut bracket_random::prelude::RandomNumberGenerator,
    )
        requires
            self.inv(),
            old(world).wf(),
            1 <= self.depth <= 1000,
        ensures
            final(world).wf(),
            world_extends(*old(world), *final(world)),
    {
        let mut r: usize = 1;
        let ghost w_start = *world;
        proof {
            assert(world_extends(w_start, *world));
        }
        while r < self.rooms.len()
            invariant
                self.inv(),
                world.wf(),
                1 <= self.depth <= 1000,
                1 <= r,
                world_extends(w_start, *world),
            decreases self.rooms.len() - r,
        {
            let ghost w_iter = *world;
            if world.alive.len() + 4000 <= 65536 && world.next_marker < 0xFFFF_FFFE_0000_0000 {
                crate::spawner::spawn_room(world, &self.map, rng, &self.rooms[r], self.depth);
            }
            proof {
                crate::world::lemma_extends_trans(w_start, w_iter, *world);
            }
            r = r + 1;
        }
    }
}

} // verus!

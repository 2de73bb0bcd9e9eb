//! The BSP interior builder: the whole map recursively split into rooms
//! that are all carved, joined by stepped corridors.

use vstd::prelude::*;
use crate::map::{GameMap, TileType, lemma_xy_idx};
use crate::rect::Rect;
use crate::components::Position;
use crate::world::{World, world_extends};
use crate::rng::roll_dice;
use crate::map_builders::MapBuildError;
use crate::map_builders::common::{
    builder_output_ok, floor_connected, clone_map, snapshot_of, same_map, room_ok,
    place_stairs_and_start, draw_corridor, stairs_at_last_room,
};

verus! {

pub const MIN_ROOM_SIZE: i32 = 8;

/// A partition that stays on the map.
pub open spec fn part_ok(r: Rect) -> bool {
    r.wf() && 1 <= r.x1 && r.x2 <= 78 && 1 <= r.y1 && r.y2 <= 41 && r.x2 - r.x1 >= 2 && r.y2 - r.y1
        >= 2
}

/// Every cell of every room is floor in the given tile sheet.
pub open spec fn leaves_carved(tiles: Seq<TileType>, rooms: Seq<Rect>) -> bool {
    &&& tiles.len() == 3440
    &&& forall|k: int, x: int, y: int|
        #![trigger rooms[k], crate::map::spec_idx(x, y)]
        0 <= k < rooms.len() && GameMap::in_room(rooms[k], x, y) ==> tiles[crate::map::spec_idx(
            x,
            y,
        )] == TileType::Floor
}

/// `cur` refines `pre`: a tile changed only by walling off floor or by
/// becoming the staircase.
pub open spec fn tiles_refine(pre: Seq<TileType>, cur: Seq<TileType>) -> bool {
    &&& pre.len() == 3440
    &&& cur.len() == 3440
    &&& forall|i: int|
        0 <= i < 3440 ==> (#[trigger] cur[i] == pre[i] || (pre[i] == TileType::Floor && cur[i]
            == TileType::Wall) || cur[i] == TileType::DownStairs)
}

pub struct BspInteriorBuilder {
    pub map: GameMap,
    pub starting_position: Position,
    pub depth: i32,
    pub rooms: Vec<Rect>,
    pub history: Vec<GameMap>,
    pub snapshot_enabled: bool,
    pub built: bool,
}

/// Recursively splits `rect` horizontally or vertically until the halves
/// drop under the minimum room size, collecting the leaves.
fn split_into_rooms(
    out: &mut Vec<Rect>,
    rect: Rect,
    rng: &mut bracket_random::prelude::RandomNumberGenerator,
)
    requires
        part_ok(rect),
        forall|k: int| 0 <= k < old(out).len() ==> part_ok(#[trigger] old(out)@[k]),
    ensures
        forall|k: int| 0 <= k < final(out).len() ==> part_ok(#[trigger] final(out)@[k]),
        final(out).len() >= old(out).len() + 1,
        final(out).len() <= old(out).len() + (rect.x2 - rect.x1) * (rect.y2 - rect.y1),
    decreases (rect.x2 - rect.x1) + (rect.y2 - rect.y1),
{
    let width = rect.x2 - rect.x1;
    let height = rect.y2 - rect.y1;
    let half_width = width / 2;
    let half_height = height / 2;
    proof {
        vstd::arithmetic::div_mod::lemma_fundamental_div_mod(width as int, 2);
        vstd::arithmetic::div_mod::lemma_mod_bound(width as int, 2);
        vstd::arithmetic::div_mod::lemma_fundamental_div_mod(height as int, 2);
        vstd::arithmetic::div_mod::lemma_mod_bound(height as int, 2);
    }
    let split = roll_dice(rng, 1, 4);
    if split <= 2 && half_width > MIN_ROOM_SIZE {
        // Split along x: the halves keep the height.
        let h1 = Rect { x1: rect.x1, y1: rect.y1, x2: rect.x1 + half_width, y2: rect.y2 };
        let h2 = Rect { x1: rect.x1 + half_width, y1: rect.y1, x2: rect.x2, y2: rect.y2 };
        split_into_rooms(out, h1, rng);
        split_into_rooms(out, h2, rng);
        proof {
            assert((h1.x2 - h1.x1) * (h1.y2 - h1.y1) + (h2.x2 - h2.x1) * (h2.y2 - h2.y1) == (
            rect.x2 - rect.x1) * (rect.y2 - rect.y1)) by (nonlinear_arith)
                requires
                    h1.x1 == rect.x1 && h1.x2 == rect.x1 + half_width && h1.y1 == rect.y1
                        && h1.y2 == rect.y2,
                    h2.x1 == rect.x1 + half_width && h2.x2 == rect.x2 && h2.y1 == rect.y1
                        && h2.y2 == rect.y2,
            ;
        }
    } else if split > 2 && half_height > MIN_ROOM_SIZE {
        // Split along y.
        let v1 = Rect { x1: rect.x1, y1: rect.y1, x2: rect.x2, y2: rect.y1 + half_height };
        let v2 = Rect { x1: rect.x1, y1: rect.y1 + half_height, x2: rect.x2, y2: rect.y2 };
        split_into_rooms(out, v1, rng);
        split_into_rooms(out, v2, rng);
        proof {
            assert((v1.x2 - v1.x1) * (v1.y2 - v1.y1) + (v2.x2 - v2.x1) * (v2.y2 - v2.y1) == (
            rect.x2 - rect.x1) * (rect.y2 - rect.y1)) by (nonlinear_arith)
                requires
                    v1.x1 == rect.x1 && v1.x2 == rect.x2 && v1.y1 == rect.y1 && v1.y2 == rect.y1
                        + half_height,
                    v2.x1 == rect.x1 && v2.x2 == rect.x2 && v2.y1 == rect.y1 + half_height
                        && v2.y2 == rect.y2,
            ;
        }
    } else {
        out.push(rect);
        proof {
            assert((rect.x2 - rect.x1) * (rect.y2 - rect.y1) >= 1) by (nonlinear_arith)
                requires
                    rect.x2 - rect.x1 >= 2,
                    rect.y2 - rect.y1 >= 2,
            ;
        }
    }
}

impl BspInteriorBuilder {
    pub open spec fn inv(self) -> bool {
        &&& self.map.wf()
        &&& forall|k: int|
            0 <= k < self.rooms.len() ==> (#[trigger] self.rooms@[k]).wf() && self.rooms@[k].x2
                < 80 && self.rooms@[k].y2 < 43
    }

    pub fn new(new_depth: i32) -> (b: BspInteriorBuilder)
        ensures
            b.inv(),
            !b.built,
            b.depth == new_depth,
    {
        BspInteriorBuilder {
            map: GameMap::new(new_depth),
            starting_position: Position { x: 0, y: 0 },
            depth: new_depth,
            rooms: Vec::new(),
            history: Vec::new(),
            snapshot_enabled: false,
            built: false,
        }
    }

    pub fn take_snapshot(&mut self)
        requires
            old(self).inv(),
        ensures
            final(self).inv(),
            *final(self) == (BspInteriorBuilder { history: final(self).history, ..*old(self) }),
    {
        if self.snapshot_enabled {
            let snap = snapshot_of(&self.map);
            self.history.push(snap);
        }
    }

    /// Splits the interior into rooms, carves them all, joins consecutive
    /// rooms with corridors, and places stairs and start.
    pub fn build_map(&mut self, rng: &mut bracket_random::prelude::RandomNumberGenerator) -> (r:
        Result<(), MapBuildError>)
        requires
            old(self).inv(),
        ensures
            final(self).inv(),
            final(self).depth == old(self).depth,
            r is Ok,
            final(self).built,
            builder_output_ok(final(self).map, final(self).starting_position),
            floor_connected(final(self).map, final(self).starting_position),
            // Every leaf partition was carved to floor; the final map then
            // only walls off what the culling found unreachable or places
            // the staircase.
            exists|pre: Seq<TileType>|
                #[trigger] leaves_carved(pre, final(self).rooms@) && tiles_refine(
                    pre,
                    final(self).map.tiles@,
                ),
            final(self).rooms.len() >= 1,
            final(self).starting_position.x == final(self).rooms@[0].spec_center().0,
            final(self).starting_position.y == final(self).rooms@[0].spec_center().1,
            stairs_at_last_room(final(self).map, final(self).rooms@),
    {
        let mut m = GameMap::new(self.depth);
        let mut parts: Vec<Rect> = Vec::new();
        split_into_rooms(&mut parts, Rect { x1: 1, y1: 1, x2: 78, y2: 41 }, rng);
        proof {
            assert(parts.len() >= 1);
            assert(parts.len() <= 77 * 40);
        }
        let mut rooms: Vec<Rect> = Vec::new();
        let mut i: usize = 0;
        while i < parts.len()
            invariant
                m.wf(),
                m.no_downstairs(),
                i <= parts.len(),
                parts.len() <= 3080,
                forall|k: int| 0 <= k < parts.len() ==> part_ok(#[trigger] parts@[k]),
                forall|k: int| 0 <= k < rooms.len() ==> room_ok(m, #[trigger] rooms@[k]),
                leaves_carved(m.tiles@, rooms@),
                rooms.len() == i,
            decreases parts.len() - i,
        {
            let room = parts[i];
            let ghost rooms0 = rooms@;
            m.apply_room_to_map(&room);
            proof {
                let (cx, cy) = room.spec_center();
                lemma_xy_idx(cx, cy);
                assert(GameMap::in_room(room, cx, cy));
                assert forall|k2: int|
                    0 <= k2 < rooms.len() implies room_ok(m, #[trigger] rooms@[k2]) by {
                    let (ox, oy) = rooms@[k2].spec_center();
                    lemma_xy_idx(ox, oy);
                }
            }
            rooms.push(room);
            proof {
                assert forall|k: int, x: int, y: int|
                    #![trigger rooms@[k], crate::map::spec_idx(x, y)]
                    0 <= k < rooms.len() && GameMap::in_room(rooms@[k], x, y) implies
                    m.tiles@[crate::map::spec_idx(x, y)] == TileType::Floor by {
                    lemma_xy_idx(x, y);
                    if k < rooms0.len() {
                        assert(rooms@[k] == rooms0[k]);
                    } else {
                        assert(rooms@[k] == room);
                    }
                }
            }
            i = i + 1;
        }
        let mut ci: usize = 0;
        while ci + 1 < rooms.len()
            invariant
                m.wf(),
                m.no_downstairs(),
                rooms.len() >= 1,
                ci <= rooms.len(),
                rooms.len() <= 3080,
                forall|k: int| 0 <= k < rooms.len() ==> room_ok(m, #[trigger] rooms@[k]),
                leaves_carved(m.tiles@, rooms@),
            decreases rooms.len() - ci,
        {
            let room = rooms[ci];
            let next_room = rooms[ci + 1];
            let sx = room.x1 + roll_dice(rng, 1, room.x2 - room.x1);
            let sy = room.y1 + roll_dice(rng, 1, room.y2 - room.y1);
            let ex = next_room.x1 + roll_dice(rng, 1, next_room.x2 - next_room.x1);
            let ey = next_room.y1 + roll_dice(rng, 1, next_room.y2 - next_room.y1);
            let ghost m0 = m;
            draw_corridor(&mut m, sx, sy, ex, ey);
            proof {
                assert forall|k2: int|
                    0 <= k2 < rooms.len() implies room_ok(m, #[trigger] rooms@[k2]) by {
                    let (ox, oy) = rooms@[k2].spec_center();
                    lemma_xy_idx(ox, oy);
                }
                assert forall|k: int, x: int, y: int|
                    #![trigger rooms@[k], crate::map::spec_idx(x, y)]
                    0 <= k < rooms.len() && GameMap::in_room(rooms@[k], x, y) implies
                    m.tiles@[crate::map::spec_idx(x, y)] == TileType::Floor by {
                    lemma_xy_idx(x, y);
                    assert(m0.tiles@[crate::map::spec_idx(x, y)] == TileType::Floor);
                }
            }
            ci = ci + 1;
        }
        let ghost pre_cull = m.tiles@;
        let start = place_stairs_and_start(&mut m, &rooms);
        proof {
            assert(leaves_carved(pre_cull, rooms@));
            assert(tiles_refine(pre_cull, m.tiles@));
        }
        self.map = m;
        self.starting_position = start;
        self.rooms = rooms;
        self.built = true;
        self.take_snapshot();
        Ok(())
    }

    pub fn get_map(&self) -> (m: GameMap)
        requires
            self.inv(),
        ensures
            m.wf(),
            same_map(m, self.map),
    {
        clone_map(&self.map)
    }

    pub fn get_starting_position(&self) -> (p: Position)
        ensures
            p == self.starting_position,
    {
        self.starting_position
    }

    /// Populates every room but the first (the player's).
    pub fn spawn_entities(
        &self,
        world: &mut World,
        rng: &mut bracket_random::prelude::RandomNumberGenerator,
    )
        requires
            self.inv(),
            old(world).wf(),
            1 <= self.depth <= 1000,
        ensures
            final(world).wf(),
            world_extends(*old(world), *final(world)),
    {
        let mut r: usize = 1;
        let ghost w_start = *world;
        while r < self.rooms.len()
            invariant
                self.inv(),
                world.wf(),
                1 <= self.depth <= 1000,
                1 <= r,
                world_extends(w_start, *world),
            decreases self.rooms.len() - r,
        {
            let ghost w_iter = *world;
            if world.alive.len() + 4000 <= 65536 && world.next_marker < 0xFFFF_FFFE_0000_0000 {
                crate::spawner::spawn_room(world, &self.map, rng, &self.rooms[r], self.depth);
            }
            proof {
                crate::world::lemma_extends_trans(w_start, w_iter, *world);
            }
            r = r + 1;
        }
    }
}

} // verus!

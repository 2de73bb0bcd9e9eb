//! The BSP dungeon builder: recursively quartered partitions, random
//! sub-rectangles rejected unless their two-tile margin is still solid
//! wall, rooms joined in x-order by stepped corridors.

use vstd::prelude::*;
use crate::map::{GameMap, TileType, spec_idx, lemma_xy_idx};
use crate::rect::Rect;
use crate::components::Position;
use crate::world::{World, world_extends};
use crate::rng::roll_dice;
use crate::map_builders::MapBuildError;
use crate::map_builders::common::{
    builder_output_ok, floor_connected, clone_map, snapshot_of, same_map, room_ok,
    place_stairs_and_start, draw_corridor, stairs_at_last_room,
};

verus! {

/// A partition rectangle: in order and comfortably bounded.
pub open spec fn rect_ok(r: Rect) -> bool {
    r.wf() && r.x2 <= 1000 && r.y2 <= 1000
}

pub struct BspDungeonBuilder {
    pub map: GameMap,
    pub starting_position: Position,
    pub depth: i32,
    pub rooms: Vec<Rect>,
    pub history: Vec<GameMap>,
    pub rects: Vec<Rect>,
    pub snapshot_enabled: bool,
    pub built: bool,
}

impl BspDungeonBuilder {
    pub open spec fn inv(self) -> bool {
        &&& self.map.wf()
        &&& forall|k: int|
            0 <= k < self.rooms.len() ==> (#[trigger] self.rooms@[k]).wf() && self.rooms@[k].x2
                < 80 && self.rooms@[k].y2 < 43
    }

    pub fn new(new_depth: i32) -> (b: BspDungeonBuilder)
        ensures
            b.inv(),
            !b.built,
            b.depth == new_depth,
    {
        BspDungeonBuilder {
            map: GameMap::new(new_depth),
            starting_position: Position { x: 0, y: 0 },
            depth: new_depth,
            rooms: Vec::new(),
            history: Vec::new(),
            rects: Vec::new(),
            snapshot_enabled: false,
            built: false,
        }
    }

    pub fn take_snapshot(&mut self)
        requires
            old(self).inv(),
        ensures
            final(self).inv(),
            *final(self) == (BspDungeonBuilder { history: final(self).history, ..*old(self) }),
    {
        if self.snapshot_enabled {
            let snap = snapshot_of(&self.map);
            self.history.push(snap);
        }
    }

    /// Quarters `rect` and adds the quadrants to the partition list.
    fn add_subrects(rects: &mut Vec<Rect>, rect: Rect)
        requires
            rect_ok(rect),
            forall|k: int| 0 <= k < old(rects).len() ==> rect_ok(#[trigger] old(rects)@[k]),
            old(rects).len() <= 2000,
        ensures
            forall|k: int| 0 <= k < final(rects).len() ==> rect_ok(#[trigger] final(rects)@[k]),
            final(rects).len() <= old(rects).len() + 4,
            final(rects).len() >= old(rects).len(),
    {
        let width = rect.x2 - rect.x1;
        let height = rect.y2 - rect.y1;
        let hf_width = if width / 2 > 1 {
            width / 2
        } else {
            1
        };
        let hf_height = if height / 2 > 1 {
            height / 2
        } else {
            1
        };
        proof {
            vstd::arithmetic::div_mod::lemma_fundamental_div_mod(width as int, 2);
            vstd::arithmetic::div_mod::lemma_mod_bound(width as int, 2);
            vstd::arithmetic::div_mod::lemma_fundamental_div_mod(height as int, 2);
            vstd::arithmetic::div_mod::lemma_mod_bound(height as int, 2);
        }
        let candidates: [Rect; 4] = [
            Rect::new(rect.x1, rect.y1, hf_width, hf_height),
            Rect::new(rect.x1, rect.y1 + hf_height, hf_width, hf_height),
            Rect::new(rect.x1 + hf_width, rect.y1, hf_width, hf_height),
            Rect::new(rect.x1 + hf_width, rect.y1 + hf_height, hf_width, hf_height),
        ];
        let mut c: usize = 0;
        while c < 4
            invariant
                c <= 4,
                forall|j: int| 0 <= j < 4 ==> (#[trigger] candidates@[j]).wf(),
                forall|k: int| 0 <= k < rects.len() ==> rect_ok(#[trigger] rects@[k]),
                rects.len() <= old(rects).len() + c,
                rects.len() >= old(rects).len(),
            decreases 4 - c,
        {
            let cand = candidates[c];
            if cand.x2 <= 1000 && cand.y2 <= 1000 {
                rects.push(cand);
            }
            c = c + 1;
        }
    }

    /// Picks a random partition rectangle.
    fn get_random_rect(
        rects: &Vec<Rect>,
        rng: &mut bracket_random::prelude::RandomNumberGenerator,
    ) -> (r: Rect)
        requires
            rects.len() >= 1,
            rects.len() <= 3000,
            forall|k: int| 0 <= k < rects.len() ==> rect_ok(#[trigger] rects@[k]),
        ensures
            rect_ok(r),
    {
        if rects.len() == 1 {
            return rects[0];
        }
        let idx = (roll_dice(rng, 1, rects.len() as i32) - 1) as usize;
        rects[idx]
    }

    /// Picks a random sub-rectangle of a partition, three to ten tiles a
    /// side, at a random offset.
    fn get_random_sub_rect(
        rect: Rect,
        rng: &mut bracket_random::prelude::RandomNumberGenerator,
    ) -> (r: Rect)
        requires
            rect_ok(rect),
        ensures
            r.wf(),
            r.x2 <= 1030,
            r.y2 <= 1030,
            r.x2 - r.x1 >= 3,
            r.y2 - r.y1 >= 3,
    {
        let rect_width = rect.x2 - rect.x1;
        let rect_height = rect.y2 - rect.y1;
        let wmax = if rect_width < 10 {
            if rect_width < 1 {
                1
            } else {
                rect_width
            }
        } else {
            10
        };
        let hmax = if rect_height < 10 {
            if rect_height < 1 {
                1
            } else {
                rect_height
            }
        } else {
            10
        };
        let wroll = roll_dice(rng, 1, wmax) - 1;
        let hroll = roll_dice(rng, 1, hmax) - 1;
        let w = if wroll > 3 {
            wroll + 1
        } else {
            4
        };
        let h = if hroll > 3 {
            hroll + 1
        } else {
            4
        };
        let x1 = rect.x1 + roll_dice(rng, 1, 6) - 1;
        let y1 = rect.y1 + roll_dice(rng, 1, 6) - 1;
        Rect::new(x1, y1, w, h)
    }

    /// Every tile of the box is still solid wall.
    pub open spec fn region_all_wall(m: GameMap, x1: int, y1: int, x2: int, y2: int) -> bool {
        forall|px: int, py: int|
            #![trigger spec_idx(px, py)]
            x1 <= px <= x2 && y1 <= py <= y2 ==> m.tiles@[spec_idx(px, py)] == TileType::Wall
    }

    /// A candidate room is possible exactly when its two-tile margin lies
    /// on the map and everything under the expanded box is still solid
    /// wall (the margin check against existing floor).
    fn is_possible(m: &GameMap, rect: Rect) -> (r: bool)
        requires
            m.wf(),
            rect.wf(),
            rect.x2 <= 1030,
            rect.y2 <= 1030,
        ensures
            r == (3 <= rect.x1 && rect.x2 <= 76 && 3 <= rect.y1 && rect.y2 <= 39
                && Self::region_all_wall(
                *m,
                rect.x1 - 2,
                rect.y1 - 2,
                rect.x2 + 2,
                rect.y2 + 2,
            )),
            r ==> rect.x2 < 80 && rect.y2 < 43 && rect.x1 >= 1 && rect.y1 >= 1,
    {
        if rect.x1 < 3 || rect.x2 > 76 || rect.y1 < 3 || rect.y2 > 39 {
            return false;
        }
        let mut y = rect.y1 - 2;
        let mut can_build = true;
        while y <= rect.y2 + 2
            invariant
                m.wf(),
                rect.wf(),
                3 <= rect.x1,
                rect.x2 <= 76,
                3 <= rect.y1,
                rect.y2 <= 39,
                rect.y1 - 2 <= y <= rect.y2 + 3,
                can_build == (forall|px: int, py: int|
                    #![trigger spec_idx(px, py)]
                    rect.x1 - 2 <= px <= rect.x2 + 2 && rect.y1 - 2 <= py < y ==> m.tiles@[spec_idx(
                        px,
                        py,
                    )] == TileType::Wall),
            decreases rect.y2 + 3 - y,
        {
            let mut x = rect.x1 - 2;
            let row_start = can_build;
            while x <= rect.x2 + 2
                invariant
                    m.wf(),
                    rect.wf(),
                    3 <= rect.x1,
                    rect.x2 <= 76,
                    3 <= rect.y1,
                    rect.y2 <= 39,
                    rect.y1 - 2 <= y <= rect.y2 + 2,
                    rect.x1 - 2 <= x <= rect.x2 + 3,
                    can_build == (row_start && forall|px: int|
                        #![trigger m.tiles@[spec_idx(px, y as int)]]
                        rect.x1 - 2 <= px < x ==> m.tiles@[spec_idx(px, y as int)]
                            == TileType::Wall),
                decreases rect.x2 + 3 - x,
            {
                let idx = m.xy_idx(x, y);
                if m.tiles[idx] != TileType::Wall {
                    can_build = false;
                }
                proof {
                    crate::map::lemma_xy_idx(x as int, y as int);
                }
                x = x + 1;
            }
            proof {
                assert forall|px: int, py: int|
                    #![trigger spec_idx(px, py)]
                    rect.x1 - 2 <= px <= rect.x2 + 2 && rect.y1 - 2 <= py < y + 1 implies (
                can_build ==> m.tiles@[spec_idx(px, py)] == TileType::Wall) by {
                    if can_build {
                        if py < y {
                        } else {
                            assert(m.tiles@[spec_idx(px, y as int)] == TileType::Wall);
                        }
                    }
                }
                if !can_build {
                    if row_start {
                        let px = choose|px: int|
                            rect.x1 - 2 <= px < rect.x2 + 3 && #[trigger] m.tiles@[spec_idx(
                                px,
                                y as int,
                            )] != TileType::Wall;
                        assert(spec_idx(px, y as int) == spec_idx(px, y as int));
                    }
                }
            }
            y = y + 1;
        }
        can_build
    }

    /// Partitions the map, carves every possible candidate room, joins the
    /// rooms in x-order with stepped corridors, and places stairs and
    /// start.
    pub fn build_map(&mut self, rng: &mut bracket_random::prelude::RandomNumberGenerator) -> (r:
        Result<(), MapBuildError>)
        requires
            old(self).inv(),
        ensures
            final(self).inv(),
            final(self).depth == old(self).depth,
            r is Ok ==> final(self).built && builder_output_ok(
                final(self).map,
                final(self).starting_position,
            ) && floor_connected(final(self).map, final(self).starting_position) && final(self).rooms.len() >= 1 && final(self).starting_position.x == final(self).rooms@[0].spec_center().0 && final(self).starting_position.y == final(self).rooms@[0].spec_center().1 && stairs_at_last_room(
                final(self).map,
                final(self).rooms@,
            ) && (forall|k1: int, k2: int|
                0 <= k1 < k2 < final(self).rooms.len() ==> (#[trigger] final(self).rooms@[k1]).x1
                    <= (#[trigger] final(self).rooms@[k2]).x1) && (forall|k: int|
                0 <= k < final(self).rooms.len() ==> 3 <= (#[trigger] final(self).rooms@[k]).x1
                    && final(self).rooms@[k].x2 <= 76 && 3 <= final(self).rooms@[k].y1 && final(self).rooms@[k].y2 <= 39),
    {
        let mut m = GameMap::new(self.depth);
        let mut rects: Vec<Rect> = Vec::new();
        let mut rooms: Vec<Rect> = Vec::new();
        rects.push(Rect::new(2, 2, 75, 40));
        let first = rects[0];
        Self::add_subrects(&mut rects, first);
        let mut tries: usize = 0;
        while tries < 240
            invariant
                m.wf(),
                m.no_downstairs(),
                tries <= 240,
                rects.len() >= 1,
                rects.len() <= 1100,
                forall|k: int| 0 <= k < rects.len() ==> rect_ok(#[trigger] rects@[k]),
                rooms.len() <= 240,
                forall|k: int| 0 <= k < rooms.len() ==> room_ok(m, #[trigger] rooms@[k]),
                forall|k: int|
                    0 <= k < rooms.len() ==> 3 <= (#[trigger] rooms@[k]).x1 && rooms@[k].x2 <= 76
                        && 3 <= rooms@[k].y1 && rooms@[k].y2 <= 39,
            decreases 240 - tries,
        {
            let rect = Self::get_random_rect(&rects, rng);
            let candidate = Self::get_random_sub_rect(rect, rng);
            if Self::is_possible(&m, candidate) {
                m.apply_room_to_map(&candidate);
                proof {
                    let (cx, cy) = candidate.spec_center();
                    lemma_xy_idx(cx, cy);
                    assert(GameMap::in_room(candidate, cx, cy));
                    assert forall|k2: int|
                        0 <= k2 < rooms.len() implies room_ok(m, #[trigger] rooms@[k2]) by {
                        let (ox, oy) = rooms@[k2].spec_center();
                        lemma_xy_idx(ox, oy);
                    }
                }
                if rooms.len() < 240 {
                    rooms.push(candidate);
                }
                if rects.len() <= 1090 {
                    Self::add_subrects(&mut rects, rect);
                }
            }
            tries = tries + 1;
        }
        if rooms.len() == 0 {
            return Err(MapBuildError::NoFloor);
        }
        // Order rooms by their left edge so corridors sweep across the map.
        let ghost n_rooms = rooms.len();
        let mut si: usize = 1;
        while si < rooms.len()
            invariant
                m.wf(),
                rooms.len() == n_rooms,
                1 <= si,
                rooms.len() >= 1,
                rooms.len() <= 240,
                forall|k: int| 0 <= k < rooms.len() ==> room_ok(m, #[trigger] rooms@[k]),
                forall|k: int|
                    0 <= k < rooms.len() ==> 3 <= (#[trigger] rooms@[k]).x1 && rooms@[k].x2 <= 76
                        && 3 <= rooms@[k].y1 && rooms@[k].y2 <= 39,
                forall|k1: int, k2: int|
                    0 <= k1 < k2 < si ==> (#[trigger] rooms@[k1]).x1 <= (#[trigger] rooms@[k2]).x1,
            decreases rooms.len() - si,
        {
            let mut sj: usize = si;
            while sj > 0 && rooms[sj - 1].x1 > rooms[sj].x1
                invariant
                    m.wf(),
                    rooms.len() == n_rooms,
                    si < rooms.len(),
                    sj <= si,
                    forall|k: int| 0 <= k < rooms.len() ==> room_ok(m, #[trigger] rooms@[k]),
                    forall|k: int|
                        0 <= k < rooms.len() ==> 3 <= (#[trigger] rooms@[k]).x1 && rooms@[k].x2
                            <= 76 && 3 <= rooms@[k].y1 && rooms@[k].y2 <= 39,
                    forall|k1: int, k2: int|
                        0 <= k1 < k2 <= si && k2 != sj ==> (#[trigger] rooms@[k1]).x1 <= (
                        #[trigger] rooms@[k2]).x1,
                decreases sj,
            {
                let a = rooms[sj - 1];
                let b = rooms[sj];
                rooms.set(sj - 1, b);
                rooms.set(sj, a);
                proof {
                    assert forall|k1: int, k2: int|
                        0 <= k1 < k2 <= si && k2 != sj - 1 implies (#[trigger] rooms@[k1]).x1 <= (
                    #[trigger] rooms@[k2]).x1 by {}
                }
                sj = sj - 1;
            }
            proof {
                assert forall|k1: int, k2: int|
                    0 <= k1 < k2 <= si implies (#[trigger] rooms@[k1]).x1 <= (
                #[trigger] rooms@[k2]).x1 by {
                    if k2 == sj {
                        if sj > 0 {
                            if k1 == sj - 1 {
                            } else {
                                assert(rooms@[k1].x1 <= rooms@[sj - 1].x1);
                            }
                        }
                    }
                }
            }
            si = si + 1;
        }
        // Join consecutive rooms.
        let mut ci: usize = 0;
        while ci + 1 < rooms.len()
            invariant
                m.wf(),
                m.no_downstairs(),
                rooms.len() >= 1,
                rooms.len() <= 240,
                ci <= rooms.len(),
                forall|k: int| 0 <= k < rooms.len() ==> room_ok(m, #[trigger] rooms@[k]),
            decreases rooms.len() - ci,
        {
            let room = rooms[ci];
            let next_room = rooms[ci + 1];
            let sx = room.x1 + roll_dice(rng, 1, room.x2 - room.x1);
            let sy = room.y1 + roll_dice(rng, 1, room.y2 - room.y1);
            let ex = next_room.x1 + roll_dice(rng, 1, next_room.x2 - next_room.x1);
            let ey = next_room.y1 + roll_dice(rng, 1, next_room.y2 - next_room.y1);
            draw_corridor(&mut m, sx, sy, ex, ey);
            proof {
                assert forall|k2: int|
                    0 <= k2 < rooms.len() implies room_ok(m, #[trigger] rooms@[k2]) by {
                    let (ox, oy) = rooms@[k2].spec_center();
                    lemma_xy_idx(ox, oy);
                }
            }
            ci = ci + 1;
        }
        let start = place_stairs_and_start(&mut m, &rooms);
        self.map = m;
        self.starting_position = start;
        self.rooms = rooms;
        self.built = true;
        self.take_snapshot();
        Ok(())
    }

    pub fn get_map(&self) -> (m: GameMap)
        requires
            self.inv(),
        ensures
            m.wf(),
            same_map(m, self.map),
    {
        clone_map(&self.map)
    }

    pub fn get_starting_position(&self) -> (p: Position)
        ensures
            p == self.starting_position,
    {
        self.starting_position
    }

    /// Populates every room but the first (the player's).
    pub fn spawn_entities(
        &self,
        world: &mut World,
        rng: &mut bracket_random::prelude::RandomNumberGenerator,
    )
        requires
            self.inv(),
            old(world).wf(),
            1 <= self.depth <= 1000,
        ensures
            final(world).wf(),
            world_extends(*old(world), *final(world)),
    {
        let mut r: usize = 1;
        let ghost w_start = *world;
        while r < self.rooms.len()
            invariant
                self.inv(),
                world.wf(),
                1 <= self.depth <= 1000,
                1 <= r,
                world_extends(w_start, *world),
            decreases self.rooms.len() - r,
        {
            let ghost w_iter = *world;
            if world.alive.len() + 4000 <= 65536 && world.next_marker < 0xFFFF_FFFE_0000_0000 {
                crate::spawner::spawn_room(world, &self.map, rng, &self.rooms[r], self.depth);
            }
            proof {
                crate::world::lemma_extends_trans(w_start, w_iter, *world);
            }
            r = r + 1;
        }
    }
}

} // verus!

//! The tile grid: tile types, visibility bitsets, blocking, per-tile
//! occupant lists, and the exit relation that pathing and reachability
//! are defined over.

use vstd::prelude::*;
use crate::components::Entity;
use crate::rect::Rect;

verus! {

pub const MAPWIDTH: usize = 80;
pub const MAPHEIGHT: usize = 43;
pub const MAPCOUNT: usize = 3440;

#[derive(Clone, Copy, PartialEq, Eq, Structural, Debug)]
pub enum TileType {
    Wall,
    Floor,
    DownStairs,
}

/// A tile an entity can stand on.
pub open spec fn walkable(t: TileType) -> bool {
    t == TileType::Floor || t == TileType::DownStairs
}

/// Column of a tile index.
pub open spec fn spec_x(i: int) -> int {
    i % 80
}

/// Row of a tile index.
pub open spec fn spec_y(i: int) -> int {
    i / 80
}

/// Row-major index of a coordinate pair.
pub open spec fn spec_idx(x: int, y: int) -> int {
    y * 80 + x
}

/// Index arithmetic: composing `spec_idx` with the coordinate projections
/// gives the coordinates back, and the index lies on the grid.
pub proof fn lemma_xy_idx(x: int, y: int)
    requires
        0 <= x < 80,
        0 <= y < 43,
    ensures
        spec_x(spec_idx(x, y)) == x,
        spec_y(spec_idx(x, y)) == y,
        0 <= spec_idx(x, y) < 3440,
{
    vstd::arithmetic::div_mod::lemma_fundamental_div_mod_converse(spec_idx(x, y), 80, y, x);
}

/// Eight-neighbourhood adjacency between two tile indices.
pub open spec fn adj8(a: int, b: int) -> bool {
    let dx = spec_x(b) - spec_x(a);
    let dy = spec_y(b) - spec_y(a);
    &&& -1 <= dx <= 1
    &&& -1 <= dy <= 1
    &&& (dx != 0 || dy != 0)
}

#[derive(Clone, PartialEq, Eq, Debug)]
pub struct GameMap {
    pub tiles: Vec<TileType>,
    pub width: i32,
    pub height: i32,
    pub revealed_tiles: Vec<bool>,
    pub visible_tiles: Vec<bool>,
    pub blocked: Vec<bool>,
    pub depth: i32,
    pub bloodstains: Vec<usize>,
    /// Per-tile occupant lists: a per-turn cache rebuilt by the indexing
    /// pass, never persisted.
    pub tile_content: Vec<Vec<Entity>>,
}

impl GameMap {
    pub open spec fn wf(self) -> bool {
        &&& self.width == 80
        &&& self.height == 43
        &&& self.tiles.len() == 3440
        &&& self.revealed_tiles.len() == 3440
        &&& self.visible_tiles.len() == 3440
        &&& self.blocked.len() == 3440
        &&& self.tile_content.len() == 3440
    }

    /// A coordinate whose index lies on the grid.
    pub open spec fn spec_in_bounds(x: int, y: int) -> bool {
        0 <= x < 80 && 0 <= y < 43
    }

    /// A tile a step may end on: inside the playable border and not blocked.
    pub open spec fn valid_dest(self, x: int, y: int) -> bool {
        &&& 1 <= x <= 78
        &&& 1 <= y <= 41
        &&& !self.blocked@[spec_idx(x, y)]
    }

    /// One legal move of the exit relation: `b` is an eight-neighbour of `a`
    /// and a tile a mover may enter.
    pub open spec fn step(self, a: int, b: int) -> bool {
        &&& 0 <= a < 3440
        &&& adj8(a, b)
        &&& self.valid_dest(spec_x(b), spec_y(b))
    }

    /// Cost of a step: straight moves cost 100, diagonal moves 145
    /// (hundredths, so that costs stay integers).
    pub open spec fn spec_exit_cost(a: int, b: int) -> int {
        if spec_x(b) == spec_x(a) || spec_y(b) == spec_y(a) {
            100
        } else {
            145
        }
    }

    /// A walk along the exit relation.
    pub open spec fn is_path(self, p: Seq<int>) -> bool {
        forall|i: int| 0 <= i < p.len() - 1 ==> self.step(#[trigger] p[i], p[i + 1])
    }

    /// `t` can be reached from `s` by some walk along the exit relation.
    pub open spec fn reachable(self, s: int, t: int) -> bool {
        exists|p: Seq<int>|
            p.len() >= 1 && p.first() == s && p.last() == t && self.is_path(p)
    }

    pub proof fn lemma_reachable_refl(self, s: int)
        ensures
            self.reachable(s, s),
    {
        let p = seq![s];
        assert(p.len() >= 1 && p.first() == s && p.last() == s && self.is_path(p));
    }

    pub proof fn lemma_reachable_step(self, s: int, t: int, u: int)
        requires
            self.reachable(s, t),
            self.step(t, u),
        ensures
            self.reachable(s, u),
    {
        let p = choose|p: Seq<int>|
            p.len() >= 1 && p.first() == s && p.last() == t && self.is_path(p);
        let q = p.push(u);
        assert forall|i: int| 0 <= i < q.len() - 1 implies self.step(#[trigger] q[i], q[i + 1]) by {
            if i < p.len() - 1 {
                assert(self.step(p[i], p[i + 1]));
            } else {
                assert(q[i] == p.last());
            }
        }
        assert(q.len() >= 1 && q.first() == s && q.last() == u && self.is_path(q));
    }

    /// Exactly one down-staircase, and it sits at index `i`.
    pub open spec fn single_downstairs_at(self, i: int) -> bool {
        &&& 0 <= i < 3440
        &&& self.tiles@[i] == TileType::DownStairs
        &&& forall|j: int|
            0 <= j < 3440 && j != i ==> #[trigger] self.tiles@[j] != TileType::DownStairs
    }

    pub open spec fn has_single_downstairs(self) -> bool {
        exists|i: int| self.single_downstairs_at(i)
    }

    pub open spec fn no_downstairs(self) -> bool {
        forall|j: int| 0 <= j < 3440 ==> #[trigger] self.tiles@[j] != TileType::DownStairs
    }

    /// A fresh map of the given depth: all walls, nothing revealed, nothing
    /// blocked, no occupants, no bloodstains.
    pub fn new(new_depth: i32) -> (m: GameMap)
        ensures
            m.wf(),
            m.depth == new_depth,
            forall|i: int| 0 <= i < 3440 ==> #[trigger] m.tiles@[i] == TileType::Wall,
            forall|i: int| 0 <= i < 3440 ==> !(#[trigger] m.revealed_tiles@[i]),
            forall|i: int| 0 <= i < 3440 ==> !(#[trigger] m.visible_tiles@[i]),
            forall|i: int| 0 <= i < 3440 ==> !(#[trigger] m.blocked@[i]),
            forall|i: int| 0 <= i < 3440 ==> (#[trigger] m.tile_content@[i])@ =~= Seq::<Entity>::empty(),
            m.bloodstains@ =~= Seq::<usize>::empty(),
            m.no_downstairs(),
    {
        let mut tiles: Vec<TileType> = Vec::new();
        let mut revealed: Vec<bool> = Vec::new();
        let mut visible: Vec<bool> = Vec::new();
        let mut blocked: Vec<bool> = Vec::new();
        let mut content: Vec<Vec<Entity>> = Vec::new();
        let mut i: usize = 0;
        while i < MAPCOUNT
            invariant
                i <= 3440,
                tiles.len() == i,
                revealed.len() == i,
                visible.len() == i,
                blocked.len() == i,
                content.len() == i,
                forall|j: int| 0 <= j < i ==> #[trigger] tiles@[j] == TileType::Wall,
                forall|j: int| 0 <= j < i ==> !(#[trigger] revealed@[j]),
                forall|j: int| 0 <= j < i ==> !(#[trigger] visible@[j]),
                forall|j: int| 0 <= j < i ==> !(#[trigger] blocked@[j]),
                forall|j: int| 0 <= j < i ==> (#[trigger] content@[j])@ =~= Seq::<Entity>::empty(),
            decreases 3440 - i,
        {
            tiles.push(TileType::Wall);
            revealed.push(false);
            visible.push(false);
            blocked.push(false);
            content.push(Vec::new());
            i = i + 1;
        }
        GameMap {
            tiles,
            width: 80,
            height: 43,
            revealed_tiles: revealed,
            visible_tiles: visible,
            blocked,
            depth: new_depth,
            bloodstains: Vec::new(),
            tile_content: content,
        }
    }

    /// Row-major index of an in-bounds coordinate; callers pre-validate
    /// the bounds.
    pub fn xy_idx(&self, x: i32, y: i32) -> (idx: usize)
        requires
            GameMap::spec_in_bounds(x as int, y as int),
        ensures
            idx == spec_idx(x as int, y as int),
            idx < 3440,
    {
        (y as usize) * MAPWIDTH + (x as usize)
    }

    pub fn in_bounds(&self, x: i32, y: i32) -> (r: bool)
        ensures
            r == GameMap::spec_in_bounds(x as int, y as int),
    {
        0 <= x && x < 80 && 0 <= y && y < 43
    }

    /// A tile sight cannot pass through.
    pub open spec fn spec_is_opaque(self, idx: int) -> bool {
        self.tiles@[idx] == TileType::Wall
    }

    pub fn is_opaque(&self, idx: usize) -> (r: bool)
        requires
            self.wf(),
            idx < 3440,
        ensures
            r == self.spec_is_opaque(idx as int),
    {
        self.tiles[idx] == TileType::Wall
    }

    /// Tiles carved by a room: the rectangle's interior, excluding its
    /// top and left edge, as the room builders use it.
    pub open spec fn in_room(room: Rect, x: int, y: int) -> bool {
        room.x1 + 1 <= x <= room.x2 && room.y1 + 1 <= y <= room.y2
    }

    /// Carves a room: every tile of the room becomes floor, everything
    /// else is untouched.
    pub fn apply_room_to_map(&mut self, room: &Rect)
        requires
            old(self).wf(),
            room.wf(),
            room.x2 < 80,
            room.y2 < 43,
        ensures
            final(self).wf(),
            *final(self) == (GameMap { tiles: final(self).tiles, ..*old(self) }),
            final(self).tiles.len() == 3440,
            forall|i: int|
                0 <= i < 3440 ==> #[trigger] final(self).tiles@[i] == (
                    if GameMap::in_room(*room, spec_x(i), spec_y(i)) {
                        TileType::Floor
                    } else {
                        old(self).tiles@[i]
                    }),
    {
        let mut y: i32 = room.y1 + 1;
        while y <= room.y2
            invariant
                self.wf(),
                room.wf(),
                room.x2 < 80,
                room.y2 < 43,
                room.y1 + 1 <= y <= room.y2 + 1,
                *self == (GameMap { tiles: self.tiles, ..*old(self) }),
                forall|i: int|
                    0 <= i < 3440 ==> #[trigger] self.tiles@[i] == (
                        if GameMap::in_room(*room, spec_x(i), spec_y(i)) && spec_y(i) < y {
                            TileType::Floor
                        } else {
                            old(self).tiles@[i]
                        }),
            decreases room.y2 + 1 - y,
        {
            let mut x: i32 = room.x1 + 1;
            while x <= room.x2
                invariant
                    self.wf(),
                    room.wf(),
                    room.x2 < 80,
                    room.y2 < 43,
                    room.y1 + 1 <= y <= room.y2,
                    room.x1 + 1 <= x <= room.x2 + 1,
                    *self == (GameMap { tiles: self.tiles, ..*old(self) }),
                    forall|i: int|
                        0 <= i < 3440 ==> #[trigger] self.tiles@[i] == (
                            if GameMap::in_room(*room, spec_x(i), spec_y(i)) && (spec_y(i) < y
                                || (spec_y(i) == y && spec_x(i) < x)) {
                                TileType::Floor
                            } else {
                                old(self).tiles@[i]
                            }),
                decreases room.x2 + 1 - x,
            {
                let idx = self.xy_idx(x, y);
                self.tiles.set(idx, TileType::Floor);
                proof {
        lemma_xy_idx(x as int, y as int);
                }
                x = x + 1;
            }
            y = y + 1;
        }
    }

    /// Tiles carved by a horizontal tunnel at row `y` between `x1` and `x2`.
    pub open spec fn in_h_tunnel(x1: int, x2: int, y: int, px: int, py: int) -> bool {
        py == y && (if x1 <= x2 { x1 <= px <= x2 } else { x2 <= px <= x1 })
    }

    pub fn apply_horizontal_tunnel(&mut self, x1: i32, x2: i32, y: i32)
        requires
            old(self).wf(),
            0 <= x1 < 80,
            0 <= x2 < 80,
            0 <= y < 43,
        ensures
            final(self).wf(),
            *final(self) == (GameMap { tiles: final(self).tiles, ..*old(self) }),
            forall|i: int|
                0 <= i < 3440 ==> #[trigger] final(self).tiles@[i] == (
                    if GameMap::in_h_tunnel(x1 as int, x2 as int, y as int, spec_x(i), spec_y(i)) {
                        TileType::Floor
                    } else {
                        old(self).tiles@[i]
                    }),
    {
        let lo: i32 = if x1 < x2 { x1 } else { x2 };
        let hi: i32 = if x1 < x2 { x2 } else { x1 };
        let mut x: i32 = lo;
        while x <= hi
            invariant
                self.wf(),
                0 <= lo <= x,
                x <= hi + 1,
                hi < 80,
                0 <= y < 43,
                lo == if x1 < x2 { x1 as int } else { x2 as int },
                hi == if x1 < x2 { x2 as int } else { x1 as int },
                0 <= x1 < 80,
                0 <= x2 < 80,
                *self == (GameMap { tiles: self.tiles, ..*old(self) }),
                forall|i: int|
                    0 <= i < 3440 ==> #[trigger] self.tiles@[i] == (
                        if GameMap::in_h_tunnel(x1 as int, x2 as int, y as int, spec_x(i), spec_y(i))
                            && spec_x(i) < x {
                            TileType::Floor
                        } else {
                            old(self).tiles@[i]
                        }),
            decreases hi + 1 - x,
        {
            let idx = self.xy_idx(x, y);
            self.tiles.set(idx, TileType::Floor);
            proof {
        lemma_xy_idx(x as int, y as int);
            }
            x = x + 1;
        }
    }

    /// Tiles carved by a vertical tunnel at column `x` between `y1` and `y2`.
    pub open spec fn in_v_tunnel(y1: int, y2: int, x: int, px: int, py: int) -> bool {
        px == x && (if y1 <= y2 { y1 <= py <= y2 } else { y2 <= py <= y1 })
    }

    pub fn apply_vertical_tunnel(&mut self, y1: i32, y2: i32, x: i32)
        requires
            old(self).wf(),
            0 <= y1 < 43,
            0 <= y2 < 43,
            0 <= x < 80,
        ensures
            final(self).wf(),
            *final(self) == (GameMap { tiles: final(self).tiles, ..*old(self) }),
            forall|i: int|
                0 <= i < 3440 ==> #[trigger] final(self).tiles@[i] == (
                    if GameMap::in_v_tunnel(y1 as int, y2 as int, x as int, spec_x(i), spec_y(i)) {
                        TileType::Floor
                    } else {
                        old(self).tiles@[i]
                    }),
    {
        let lo: i32 = if y1 < y2 { y1 } else { y2 };
        let hi: i32 = if y1 < y2 { y2 } else { y1 };
        let mut y: i32 = lo;
        while y <= hi
            invariant
                self.wf(),
                0 <= lo <= y,
                y <= hi + 1,
                hi < 43,
                0 <= x < 80,
                lo == if y1 < y2 { y1 as int } else { y2 as int },
                hi == if y1 < y2 { y2 as int } else { y1 as int },
                0 <= y1 < 43,
                0 <= y2 < 43,
                *self == (GameMap { tiles: self.tiles, ..*old(self) }),
                forall|i: int|
                    0 <= i < 3440 ==> #[trigger] self.tiles@[i] == (
                        if GameMap::in_v_tunnel(y1 as int, y2 as int, x as int, spec_x(i), spec_y(i))
                            && spec_y(i) < y {
                            TileType::Floor
                        } else {
                            old(self).tiles@[i]
                        }),
            decreases hi + 1 - y,
        {
            let idx = self.xy_idx(x, y);
            self.tiles.set(idx, TileType::Floor);
            proof {
        lemma_xy_idx(x as int, y as int);
            }
            y = y + 1;
        }
    }

    /// Recomputes `blocked` from the tiles alone: exactly the walls block.
    /// The indexing pass afterwards also blocks tiles with blocking
    /// occupants.
    pub fn populate_blocked(&mut self)
        requires
            old(self).wf(),
        ensures
            final(self).wf(),
            *final(self) == (GameMap { blocked: final(self).blocked, ..*old(self) }),
            forall|i: int|
                0 <= i < 3440 ==> #[trigger] final(self).blocked@[i] == (old(self).tiles@[i] == TileType::Wall),
    {
        let mut i: usize = 0;
        while i < MAPCOUNT
            invariant
                self.wf(),
                i <= 3440,
                *self == (GameMap { blocked: self.blocked, ..*old(self) }),
                forall|j: int|
                    0 <= j < i ==> #[trigger] self.blocked@[j] == (old(self).tiles@[j]
                        == TileType::Wall),
                forall|j: int| i <= j < 3440 ==> #[trigger] self.blocked@[j] == old(self).blocked@[j],
            decreases 3440 - i,
        {
            let b = self.tiles[i] == TileType::Wall;
            self.blocked.set(i, b);
            i = i + 1;
        }
    }

    /// Empties every tile's occupant list.
    pub fn clear_content_index(&mut self)
        requires
            old(self).wf(),
        ensures
            final(self).wf(),
            *final(self) == (GameMap { tile_content: final(self).tile_content, ..*old(self) }),
            forall|i: int|
                0 <= i < 3440 ==> (#[trigger] final(self).tile_content@[i])@ =~= Seq::<Entity>::empty(),
    {
        let mut i: usize = 0;
        while i < MAPCOUNT
            invariant
                self.wf(),
                i <= 3440,
                *self == (GameMap { tile_content: self.tile_content, ..*old(self) }),
                forall|j: int|
                    0 <= j < i ==> (#[trigger] self.tile_content@[j])@ =~= Seq::<Entity>::empty(),
            decreases 3440 - i,
        {
            self.tile_content.set(i, Vec::new());
            i = i + 1;
        }
    }

    /// Records a bloodstain on a tile.
    pub fn add_bloodstain(&mut self, idx: usize)
        requires
            old(self).wf(),
            idx < 3440,
        ensures
            final(self).wf(),
            *final(self) == (GameMap { bloodstains: final(self).bloodstains, ..*old(self) }),
            final(self).bloodstains@ == old(self).bloodstains@.push(idx),
    {
        self.bloodstains.push(idx);
    }

    fn is_exit_valid(&self, x: i32, y: i32) -> (r: bool)
        requires
            self.wf(),
        ensures
            r == self.valid_dest(x as int, y as int),
    {
        if x < 1 || x > 78 || y < 1 || y > 41 {
            return false;
        }
        let idx = self.xy_idx(x, y);
        !self.blocked[idx]
    }

    /// All legal single steps out of `idx`, with their costs: exactly the
    /// tiles the exit relation admits.
    pub fn get_available_exits(&self, idx: usize) -> (r: Vec<(usize, i32)>)
        requires
            self.wf(),
            idx < 3440,
        ensures
            forall|k: int|
                0 <= k < r.len() ==> self.step(idx as int, (#[trigger] r@[k]).0 as int)
                    && r@[k].0 < 3440
                    && r@[k].1 == GameMap::spec_exit_cost(idx as int, r@[k].0 as int),
            forall|b: int| self.step(idx as int, b) ==> exists|k: int|
                0 <= k < r.len() && (#[trigger] r@[k]).0 == b,
            forall|k1: int, k2: int|
                0 <= k1 < r.len() && 0 <= k2 < r.len() && k1 != k2 ==> (#[trigger] r@[k1]).0 != (
                #[trigger] r@[k2]).0,
    {
        proof {
            vstd::arithmetic::div_mod::lemma_fundamental_div_mod(idx as int, 80);
            vstd::arithmetic::div_mod::lemma_mod_bound(idx as int, 80);
            vstd::arithmetic::div_mod::lemma_div_pos_is_pos(idx as int, 80);
            assert(spec_y(idx as int) < 43) by {
                if idx as int / 80 >= 43 {
                    vstd::arithmetic::div_mod::lemma_div_is_ordered(3440, idx as int, 80);
                }
            }
        }
        let x: i32 = (idx % MAPWIDTH) as i32;
        let y: i32 = (idx / MAPWIDTH) as i32;
        let mut r: Vec<(usize, i32)> = Vec::new();
        let ghost mut ds: Seq<int> = Seq::empty();

        let deltas: [(i32, i32); 8] = [
            (-1, 0),
            (1, 0),
            (0, -1),
            (0, 1),
            (-1, -1),
            (1, -1),
            (-1, 1),
            (1, 1),
        ];
        let mut d: usize = 0;
        while d < 8
            invariant
                self.wf(),
                idx < 3440,
                x == spec_x(idx as int),
                y == spec_y(idx as int),
                0 <= x < 80,
                0 <= y < 43,
                idx as int == spec_idx(x as int, y as int),
                d <= 8,
                deltas@ =~= seq![
                    (-1i32, 0i32), (1i32, 0i32), (0i32, -1i32), (0i32, 1i32),
                    (-1i32, -1i32), (1i32, -1i32), (-1i32, 1i32), (1i32, 1i32),
                ],
                forall|k: int|
                    0 <= k < r.len() ==> self.step(idx as int, (#[trigger] r@[k]).0 as int)
                        && r@[k].0 < 3440
                        && r@[k].1 == GameMap::spec_exit_cost(idx as int, r@[k].0 as int),
                forall|j: int|
                    0 <= j < d && self.step(
                        idx as int,
                        spec_idx(x + (#[trigger] deltas@[j]).0, y + deltas@[j].1),
                    ) ==> exists|k: int|
                        0 <= k < r.len() && (#[trigger] r@[k]).0 == spec_idx(
                            x + deltas@[j].0,
                            y + deltas@[j].1,
                        ),
                ds.len() == r.len(),
                forall|k: int| 0 <= k < ds.len() ==> 0 <= #[trigger] ds[k] < d,
                forall|k1: int, k2: int| 0 <= k1 < k2 < ds.len() ==> ds[k1] < ds[k2],
                forall|k: int|
                    0 <= k < ds.len() ==> (#[trigger] r@[k]).0 == spec_idx(
                        x + deltas@[ds[k]].0,
                        y + deltas@[ds[k]].1,
                    ),
            decreases 8 - d,
        {
            let ghost r0 = r@;
            let (dx, dy) = deltas[d];
            let nx = x + dx;
            let ny = y + dy;
            let mut pushed = false;
            if self.is_exit_valid(nx, ny) {
                let nidx = self.xy_idx(nx, ny);
                proof {
                    lemma_xy_idx(nx as int, ny as int);
                }
                let cost: i32 = if dx == 0 || dy == 0 {
                    100
                } else {
                    145
                };
                r.push((nidx, cost));
                pushed = true;
                proof {
                    ds = ds.push(d as int);
                }
            } else {
                proof {
                    let nxi = nx as int;
                    let nyi = ny as int;
                    let b = spec_idx(nxi, nyi);
                    if 0 <= nxi < 80 {
                        vstd::arithmetic::div_mod::lemma_fundamental_div_mod_converse(b, 80, nyi, nxi);
                    } else if nxi == -1 {
                        vstd::arithmetic::div_mod::lemma_fundamental_div_mod_converse(b, 80, nyi - 1, 79);
                    } else {
                        vstd::arithmetic::div_mod::lemma_fundamental_div_mod_converse(b, 80, nyi + 1, 0);
                    }
                    assert(!self.step(idx as int, b));
                }
            }
            proof {
                assert forall|j: int|
                    0 <= j < d + 1 && self.step(
                        idx as int,
                        spec_idx(x + (#[trigger] deltas@[j]).0, y + deltas@[j].1),
                    ) implies exists|k: int|
                        0 <= k < r.len() && (#[trigger] r@[k]).0 == spec_idx(
                            x + deltas@[j].0,
                            y + deltas@[j].1,
                        ) by {
                    if j < d {
                        let k = choose|k: int|
                            0 <= k < r0.len() && (#[trigger] r0[k]).0 == spec_idx(
                                x + deltas@[j].0,
                                y + deltas@[j].1,
                            );
                        assert(r@[k].0 == spec_idx(x + deltas@[j].0, y + deltas@[j].1));
                    } else {
                        assert(r@[r.len() - 1].0 == spec_idx(x + deltas@[j].0, y + deltas@[j].1));
                    }
                }
            }
            d = d + 1;
        }
        proof {
            assert forall|b: int| self.step(idx as int, b) implies exists|k: int|
                0 <= k < r.len() && (#[trigger] r@[k]).0 == b by {
                vstd::arithmetic::div_mod::lemma_fundamental_div_mod(b, 80);
                let dx = spec_x(b) - x;
                let dy = spec_y(b) - y;
                assert(b == spec_idx(x + dx, y + dy));
                let j: int = if dx == -1 && dy == 0 {
                    0
                } else if dx == 1 && dy == 0 {
                    1
                } else if dx == 0 && dy == -1 {
                    2
                } else if dx == 0 && dy == 1 {
                    3
                } else if dx == -1 && dy == -1 {
                    4
                } else if dx == 1 && dy == -1 {
                    5
                } else if dx == -1 && dy == 1 {
                    6
                } else {
                    7
                };
                assert(0 <= j < 8 && b == spec_idx(x + deltas@[j].0, y + deltas@[j].1));
            }
            assert forall|k1: int, k2: int|
                0 <= k1 < r.len() && 0 <= k2 < r.len() && k1 != k2 implies (#[trigger] r@[k1]).0
                != (#[trigger] r@[k2]).0 by {
                let j1 = ds[k1];
                let j2 = ds[k2];
                assert(deltas@[j1] != deltas@[j2]);
                let x1 = x + deltas@[j1].0;
                let y1 = y + deltas@[j1].1;
                let x2 = x + deltas@[j2].0;
                let y2 = y + deltas@[j2].1;
                assert(self.step(idx as int, r@[k1].0 as int));
                assert(self.step(idx as int, r@[k2].0 as int));
                lemma_xy_idx(x1, y1);
                lemma_xy_idx(x2, y2);
            }
        }
        r
    }
}

} // verus!

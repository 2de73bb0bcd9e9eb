//! Pieces shared by the builders: the output guarantee, map copying for
//! snapshots, corridor carving, and the flood-fill post-processing that
//! walls off unreachable floor and places the stairs at the farthest
//! reachable point.

use vstd::prelude::*;
use crate::map::{GameMap, TileType, spec_idx, spec_x, spec_y, MAPCOUNT};
use crate::components::Position;
use crate::pathfinding::{flood_fill, flood_wf, UNREACHED, lemma_flood_fill_complete};

verus! {

/// What every builder owes: a well-formed map, exactly one staircase, and
/// an in-bounds start on a floor tile that is not the staircase.
pub open spec fn builder_output_ok(m: GameMap, start: Position) -> bool {
    &&& m.wf()
    &&& m.has_single_downstairs()
    &&& GameMap::spec_in_bounds(start.x as int, start.y as int)
    &&& m.tiles@[spec_idx(start.x as int, start.y as int)] == TileType::Floor
}

/// The flood-fill builders additionally owe connectivity: every floor
/// tile left on the map is reachable from the start.
pub open spec fn floor_connected(m: GameMap, start: Position) -> bool {
    forall|i: int|
        0 <= i < 3440 && #[trigger] m.tiles@[i] == TileType::Floor ==> m.reachable(
            spec_idx(start.x as int, start.y as int),
            i,
        )
}

/// A breadth-first hop marking from `start`: the start at zero, marked
/// tiles reachable, the marking closed under the exit relation, and every
/// marked tile one step dearer than some marked neighbour. Distances
/// count steps — the diagonal-cost weighting of the original flood fill
/// is not modelled, so "farthest" means farthest in steps.
pub open spec fn hop_marking(m: GameMap, start: int, dist: Seq<u32>) -> bool {
    &&& dist.len() == 3440
    &&& 0 <= start < 3440
    &&& dist[start] == 0
    &&& forall|i: int| 0 <= i < 3440 && #[trigger] dist[i] != UNREACHED ==> m.reachable(start, i)
    &&& forall|i: int, b: int|
        0 <= i < 3440 && dist[i] != UNREACHED && #[trigger] m.step(i, b) ==> 0 <= b < 3440
            && dist[b] != UNREACHED
    &&& forall|i: int|
        0 <= i < 3440 && #[trigger] dist[i] != UNREACHED && i != start ==> exists|b: int|
            0 <= b < 3440 && dist[b] != UNREACHED && #[trigger] m.step(b, i) && dist[i] == dist[b]
                + 1
}

/// A hop marking carries over to any map with the same blocked bitset.
pub proof fn lemma_marking_same_blocked(m1: GameMap, m2: GameMap, start: int, dist: Seq<u32>)
    requires
        hop_marking(m1, start, dist),
        m1.blocked@ == m2.blocked@,
    ensures
        hop_marking(m2, start, dist),
{
    assert forall|i: int|
        0 <= i < 3440 && #[trigger] dist[i] != UNREACHED implies m2.reachable(start, i) by {
        lemma_reachable_same_blocked(m1, m2, start, i);
    }
    assert forall|i: int, b: int|
        0 <= i < 3440 && dist[i] != UNREACHED && #[trigger] m2.step(i, b) implies 0 <= b < 3440
        && dist[b] != UNREACHED by {
        assert(m1.step(i, b));
    }
    assert forall|i: int|
        0 <= i < 3440 && #[trigger] dist[i] != UNREACHED && i != start implies exists|b: int|
            0 <= b < 3440 && dist[b] != UNREACHED && #[trigger] m2.step(b, i) && dist[i] == dist[b]
                + 1 by {
        let b = choose|b: int|
            0 <= b < 3440 && dist[b] != UNREACHED && #[trigger] m1.step(b, i) && dist[i] == dist[b]
                + 1;
        assert(m2.step(b, i));
    }
}

/// The stairs placement policy of the flood-fill builders: one staircase,
/// at a tile of maximal hop distance from the start — no floor tile of
/// the map is farther.
pub open spec fn stairs_at_farthest(m: GameMap, start: int, dist: Seq<u32>) -> bool {
    exists|t: int|
        {
            &&& #[trigger] m.single_downstairs_at(t)
            &&& dist[t] != UNREACHED
            &&& forall|i: int|
                0 <= i < 3440 && #[trigger] m.tiles@[i] == TileType::Floor ==> dist[i] != UNREACHED
                    && dist[i] <= dist[t]
        }
}

/// The whole stairs policy of a flood-fill builder in one breath: a hop
/// marking from the start exists under which the staircase sits at the
/// farthest reachable point.
pub open spec fn flood_build_ok(m: GameMap, start: Position, dist: Seq<u32>) -> bool {
    &&& hop_marking(m, spec_idx(start.x as int, start.y as int), dist)
    &&& stairs_at_farthest(m, spec_idx(start.x as int, start.y as int), dist)
}

/// Two maps with the same content (the occupant cache included).
pub open spec fn same_map(a: GameMap, b: GameMap) -> bool {
    &&& a.tiles@ == b.tiles@
    &&& a.width == b.width
    &&& a.height == b.height
    &&& a.revealed_tiles@ == b.revealed_tiles@
    &&& a.visible_tiles@ == b.visible_tiles@
    &&& a.blocked@ == b.blocked@
    &&& a.depth == b.depth
    &&& a.bloodstains@ == b.bloodstains@
    &&& forall|t: int| 0 <= t < a.tile_content.len() ==> (#[trigger] a.tile_content@[t])@ == b.tile_content@[t]@
}

/// A field-by-field copy of a map.
pub fn clone_map(m: &GameMap) -> (r: GameMap)
    requires
        m.wf(),
    ensures
        r.wf(),
        same_map(r, *m),
{
    let mut tiles: Vec<TileType> = Vec::new();
    let mut revealed: Vec<bool> = Vec::new();
    let mut visible: Vec<bool> = Vec::new();
    let mut blocked: Vec<bool> = Vec::new();
    let mut content: Vec<Vec<usize>> = Vec::new();
    let mut bloodstains: Vec<usize> = Vec::new();
    let mut i: usize = 0;
    while i < MAPCOUNT
        invariant
            m.wf(),
            i <= 3440,
            tiles@ =~= m.tiles@.take(i as int),
            revealed@ =~= m.revealed_tiles@.take(i as int),
            visible@ =~= m.visible_tiles@.take(i as int),
            blocked@ =~= m.blocked@.take(i as int),
            content.len() == i,
            forall|t: int| 0 <= t < i ==> (#[trigger] content@[t])@ == m.tile_content@[t]@,
        decreases 3440 - i,
    {
        tiles.push(m.tiles[i]);
        revealed.push(m.revealed_tiles[i]);
        visible.push(m.visible_tiles[i]);
        blocked.push(m.blocked[i]);
        let inner_len = m.tile_content[i].len();
        let mut inner: Vec<usize> = Vec::new();
        let mut k: usize = 0;
        while k < inner_len
            invariant
                m.wf(),
                i < 3440,
                inner_len == m.tile_content@[i as int].len(),
                k <= inner_len,
                inner@ =~= m.tile_content@[i as int]@.take(k as int),
            decreases inner_len - k,
        {
            inner.push(m.tile_content[i][k]);
            proof {
                assert(inner@ =~= m.tile_content@[i as int]@.take(k + 1));
            }
            k = k + 1;
        }
        proof {
            assert(inner@ =~= m.tile_content@[i as int]@);
        }
        content.push(inner);
        proof {
            assert(tiles@ =~= m.tiles@.take(i + 1));
            assert(revealed@ =~= m.revealed_tiles@.take(i + 1));
            assert(visible@ =~= m.visible_tiles@.take(i + 1));
            assert(blocked@ =~= m.blocked@.take(i + 1));
        }
        i = i + 1;
    }
    let mut k: usize = 0;
    while k < m.bloodstains.len()
        invariant
            k <= m.bloodstains.len(),
            bloodstains@ =~= m.bloodstains@.take(k as int),
        decreases m.bloodstains.len() - k,
    {
        bloodstains.push(m.bloodstains[k]);
        proof {
            assert(bloodstains@ =~= m.bloodstains@.take(k + 1));
        }
        k = k + 1;
    }
    proof {
        assert(tiles@ =~= m.tiles@);
        assert(revealed@ =~= m.revealed_tiles@);
        assert(visible@ =~= m.visible_tiles@);
        assert(blocked@ =~= m.blocked@);
        assert(bloodstains@ =~= m.bloodstains@);
    }
    GameMap {
        tiles,
        width: m.width,
        height: m.height,
        revealed_tiles: revealed,
        visible_tiles: visible,
        blocked,
        depth: m.depth,
        bloodstains,
        tile_content: content,
    }
}

/// A snapshot for generation playback: the map with everything revealed.
pub fn snapshot_of(m: &GameMap) -> (r: GameMap)
    requires
        m.wf(),
    ensures
        r.wf(),
        r.tiles@ == m.tiles@,
{
    let mut r = clone_map(m);
    let mut i: usize = 0;
    while i < MAPCOUNT
        invariant
            r.wf(),
            i <= 3440,
            r.tiles@ == m.tiles@,
        decreases 3440 - i,
    {
        r.revealed_tiles.set(i, true);
        i = i + 1;
    }
    r
}

/// Carves an L-free corridor from `(x1, y1)` to `(x2, y2)`: one step at a
/// time, first along x, then along y, every visited tile becoming floor.
/// Already-floor tiles stay floor; no tile ever turns back to wall.
pub fn draw_corridor(m: &mut GameMap, x1: i32, y1: i32, x2: i32, y2: i32)
    requires
        old(m).wf(),
        GameMap::spec_in_bounds(x1 as int, y1 as int),
        GameMap::spec_in_bounds(x2 as int, y2 as int),
    ensures
        final(m).wf(),
        *final(m) == (GameMap { tiles: final(m).tiles, ..*old(m) }),
        forall|i: int|
            0 <= i < 3440 ==> #[trigger] final(m).tiles@[i] == old(m).tiles@[i] || final(m).tiles@[i] == TileType::Floor,
        forall|i: int|
            0 <= i < 3440 && old(m).tiles@[i] == TileType::Floor ==> #[trigger] final(m).tiles@[i]
                == TileType::Floor,
{
    let mut x = x1;
    let mut y = y1;
    while x != x2 || y != y2
        invariant
            m.wf(),
            GameMap::spec_in_bounds(x as int, y as int),
            GameMap::spec_in_bounds(x2 as int, y2 as int),
            *m == (GameMap { tiles: m.tiles, ..*old(m) }),
            forall|i: int|
                0 <= i < 3440 ==> #[trigger] m.tiles@[i] == old(m).tiles@[i] || m.tiles@[i]
                    == TileType::Floor,
            forall|i: int|
                0 <= i < 3440 && old(m).tiles@[i] == TileType::Floor ==> #[trigger] m.tiles@[i]
                    == TileType::Floor,
        decreases
                (if x2 as int - x as int >= 0 {
                    x2 as int - x as int
                } else {
                    x as int - x2 as int
                }) + (if y2 as int - y as int >= 0 {
                    y2 as int - y as int
                } else {
                    y as int - y2 as int
                }),
    {
        if x < x2 {
            x = x + 1;
        } else if x > x2 {
            x = x - 1;
        } else if y < y2 {
            y = y + 1;
        } else {
            y = y - 1;
        }
        let idx = m.xy_idx(x, y);
        m.tiles.set(idx, TileType::Floor);
    }
}

/// Walls off unreachable floor and finds the farthest reachable floor
/// tile from the start, the staircase spot. Returns `None` exactly when
/// no floor tile is reachable from the start. Afterwards every floor
/// tile on the map is reachable from the start.
pub fn cull_unreachable(m: &mut GameMap, start_idx: usize) -> (r: (
    Option<usize>,
    Ghost<Seq<u32>>,
))
    requires
        old(m).wf(),
        start_idx < 3440,
    ensures
        final(m).wf(),
        *final(m) == (GameMap {
            tiles: final(m).tiles,
            blocked: final(m).blocked,
            ..*old(m)
        }),
        forall|i: int|
            0 <= i < 3440 ==> (#[trigger] final(m).tiles@[i] == old(m).tiles@[i] || (old(m).tiles@[i] == TileType::Floor && final(m).tiles@[i] == TileType::Wall)),
        final(m).tiles@[start_idx as int] == old(m).tiles@[start_idx as int],
        forall|i: int|
            0 <= i < 3440 && #[trigger] final(m).tiles@[i] == TileType::Floor ==> final(m).reachable(start_idx as int, i),
        hop_marking(*final(m), start_idx as int, r.1@),
        match r.0 {
            Some(t) => t < 3440 && final(m).tiles@[t as int] == TileType::Floor && final(m).reachable(start_idx as int, t as int) && r.1@[t as int] != UNREACHED
                && forall|i: int|
                0 <= i < 3440 && #[trigger] final(m).tiles@[i] == TileType::Floor ==> r.1@[i]
                    != UNREACHED && r.1@[i] <= r.1@[t as int],
            None => forall|i: int|
                0 <= i < 3440 ==> #[trigger] final(m).tiles@[i] != TileType::Floor,
        },
{
    m.populate_blocked();
    let (dist, _parent) = flood_fill(m, start_idx);
    let ghost m_flood = *m;
    let mut exit_tile: Option<usize> = None;
    let mut exit_dist: u32 = 0;
    let mut i: usize = 0;
    while i < MAPCOUNT
        invariant
            m.wf(),
            start_idx < 3440,
            dist.len() == 3440,
            flood_wf(m_flood, start_idx as int, dist@, _parent@),
            *m == (GameMap { tiles: m.tiles, ..m_flood }),
            m.blocked@ == m_flood.blocked@,
            i <= 3440,
            forall|j: int|
                0 <= j < 3440 ==> (#[trigger] m.tiles@[j] == m_flood.tiles@[j] || (
                m_flood.tiles@[j] == TileType::Floor && m.tiles@[j] == TileType::Wall)),
            forall|j: int|
                0 <= j < i && #[trigger] m.tiles@[j] == TileType::Floor ==> dist@[j] != UNREACHED,
            forall|j: int|
                0 <= j < 3440 && #[trigger] dist@[j] != UNREACHED ==> m.tiles@[j]
                    == m_flood.tiles@[j],
            forall|j: int|
                i <= j < 3440 ==> #[trigger] m.tiles@[j] == m_flood.tiles@[j],
            match exit_tile {
                Some(t) => t < 3440 && m.tiles@[t as int] == TileType::Floor && dist@[t as int]
                    != UNREACHED && dist@[t as int] == exit_dist && forall|j: int|
                    0 <= j < i && #[trigger] m.tiles@[j] == TileType::Floor ==> dist@[j]
                        != UNREACHED && dist@[j] <= exit_dist,
                None => forall|j: int|
                    0 <= j < i ==> #[trigger] m.tiles@[j] != TileType::Floor,
            },
        decreases 3440 - i,
    {
        if m.tiles[i] == TileType::Floor {
            let d = dist[i];
            if d == UNREACHED {
                m.tiles.set(i, TileType::Wall);
            } else {
                match exit_tile {
                    None => {
                        exit_tile = Some(i);
                        exit_dist = d;
                    },
                    Some(_) => {
                        if d > exit_dist {
                            exit_tile = Some(i);
                            exit_dist = d;
                        }
                    },
                }
            }
        }
        i = i + 1;
    }
    proof {
        assert forall|j: int|
            0 <= j < 3440 && #[trigger] m.tiles@[j] == TileType::Floor implies m.reachable(
            start_idx as int,
            j,
        ) by {
            assert(dist@[j] != UNREACHED);
            assert(m_flood.reachable(start_idx as int, j));
            assert(m.blocked@ == m_flood.blocked@);
            lemma_reachable_same_blocked(m_flood, *m, start_idx as int, j);
        }
        match exit_tile {
            Some(t) => {
                lemma_reachable_same_blocked(m_flood, *m, start_idx as int, t as int);
            },
            None => {},
        }
        assert(hop_marking(m_flood, start_idx as int, dist@)) by {
            assert forall|i2: int|
                0 <= i2 < 3440 && #[trigger] dist@[i2] != UNREACHED && i2
                    != start_idx implies exists|b: int|
                    0 <= b < 3440 && dist@[b] != UNREACHED && #[trigger] m_flood.step(b, i2)
                        && dist@[i2] == dist@[b] + 1 by {
                assert(_parent@[i2] < 3440 && dist@[_parent@[i2] as int] != UNREACHED
                    && m_flood.step(_parent@[i2] as int, i2) && dist@[i2] == dist@[_parent@[
                    i2
                ] as int] + 1);
            }
        }
        lemma_marking_same_blocked(m_flood, *m, start_idx as int, dist@);
    }
    (exit_tile, Ghost(dist@))
}

/// Reachability depends only on the blocked bitset, not the tiles.
pub proof fn lemma_reachable_same_blocked(m1: GameMap, m2: GameMap, s: int, t: int)
    requires
        m1.blocked@ == m2.blocked@,
        m1.reachable(s, t),
    ensures
        m2.reachable(s, t),
{
    let p = choose|p: Seq<int>|
        p.len() >= 1 && p.first() == s && p.last() == t && m1.is_path(p);
    assert forall|i: int| 0 <= i < p.len() - 1 implies m2.step(#[trigger] p[i], p[i + 1]) by {
        assert(m1.step(p[i], p[i + 1]));
    }
    assert(p.len() >= 1 && p.first() == s && p.last() == t && m2.is_path(p));
}

/// A deterministic coherent-noise bucket for a tile: the hash of the
/// nearest (by Manhattan distance) jittered feature point of the
/// surrounding coarse grid cells, quantised to a handful of buckets.
pub fn noise_bucket(seed: u64, x: i32, y: i32) -> (b: i32)
    requires
        0 <= x < 80,
        0 <= y < 43,
    ensures
        0 <= b < 32,
{
    let cx: i32 = x / 8;
    let cy: i32 = y / 8;
    let mut best_d: i32 = 1000;
    let mut best_h: u64 = 0;
    let mut dy: i32 = -1;
    while dy <= 1
        invariant
            0 <= x < 80,
            0 <= y < 43,
            0 <= cx <= 10,
            0 <= cy <= 6,
            -1 <= dy <= 2,
            0 <= best_h < 1048576,
        decreases 2 - dy,
    {
        let mut dx: i32 = -1;
        while dx <= 1
            invariant
                0 <= x < 80,
                0 <= y < 43,
                0 <= cx <= 10,
                0 <= cy <= 6,
                -1 <= dy <= 1,
                -1 <= dx <= 2,
                0 <= best_h < 1048576,
            decreases 2 - dx,
        {
            let nx = cx + dx;
            let ny = cy + dy;
            if 0 <= nx && nx <= 10 && 0 <= ny && ny <= 6 {
                let h: u64 = ((seed % 1000003) * 31 + (nx as u64) * 7919 + (ny as u64) * 104729
                    + 17) % 1048576;
                let fx: i32 = nx * 8 + ((h % 8) as i32);
                let fy: i32 = ny * 8 + (((h / 8) % 8) as i32);
                let ddx: i32 = if fx >= x {
                    fx - x
                } else {
                    x - fx
                };
                let ddy: i32 = if fy >= y {
                    fy - y
                } else {
                    y - fy
                };
                let d = ddx + ddy;
                if d < best_d {
                    best_d = d;
                    best_h = h;
                }
            }
            dx = dx + 1;
        }
        dy = dy + 1;
    }
    (best_h % 32) as i32
}

/// Groups the floor tiles of a map into spawn regions by their noise
/// bucket: an association list from bucket to the floor tiles in it.
pub fn build_noise_regions(m: &GameMap, seed: u64) -> (regions: Vec<(i32, Vec<usize>)>)
    requires
        m.wf(),
    ensures
        forall|r: int, k: int|
            0 <= r < regions.len() && 0 <= k < regions@[r].1.len()
                ==> (#[trigger] regions@[r].1@[k]) < 3440,
        regions.len() <= 32,
        forall|r: int| 0 <= r < regions.len() ==> (#[trigger] regions@[r]).1.len() <= 3440,
{
    let mut regions: Vec<(i32, Vec<usize>)> = Vec::new();
    let mut y: i32 = 1;
    while y < 42
        invariant
            m.wf(),
            1 <= y <= 42,
            forall|r: int, k: int|
                0 <= r < regions.len() && 0 <= k < regions@[r].1.len()
                    ==> (#[trigger] regions@[r].1@[k]) < 3440,
            regions.len() <= 32,
            forall|r: int| 0 <= r < regions.len() ==> (#[trigger] regions@[r]).1.len() <= 3440,
            forall|r1: int, r2: int|
                0 <= r1 < regions.len() && 0 <= r2 < regions.len() && r1 != r2
                    ==> (#[trigger] regions@[r1]).0 != (#[trigger] regions@[r2]).0,
        decreases 42 - y,
    {
        let mut x: i32 = 1;
        while x < 79
            invariant
                m.wf(),
                1 <= y < 42,
                1 <= x <= 79,
                forall|r: int, k: int|
                    0 <= r < regions.len() && 0 <= k < regions@[r].1.len()
                        ==> (#[trigger] regions@[r].1@[k]) < 3440,
                regions.len() <= 32,
                forall|r: int| 0 <= r < regions.len() ==> (#[trigger] regions@[r]).1.len() <= 3440,
                forall|r1: int, r2: int|
                    0 <= r1 < regions.len() && 0 <= r2 < regions.len() && r1 != r2
                        ==> (#[trigger] regions@[r1]).0 != (#[trigger] regions@[r2]).0,
            decreases 79 - x,
        {
            let idx = m.xy_idx(x, y);
            if m.tiles[idx] == TileType::Floor {
                let bucket = noise_bucket(seed, x, y);
                let mut found = false;
                let mut r: usize = 0;
                while r < regions.len() && !found
                    invariant
                        idx < 3440,
                        r <= regions.len(),
                        regions.len() <= 32,
                        forall|r2: int|
                            0 <= r2 < regions.len() ==> (#[trigger] regions@[r2]).1.len() <= 3440,
                        found ==> r < regions.len() && regions@[r as int].0 == bucket,
                        forall|r2: int, k: int|
                            0 <= r2 < regions.len() && 0 <= k < regions@[r2].1.len()
                                ==> (#[trigger] regions@[r2].1@[k]) < 3440,
                        forall|r1: int, r2: int|
                            0 <= r1 < regions.len() && 0 <= r2 < regions.len() && r1 != r2
                                ==> (#[trigger] regions@[r1]).0 != (#[trigger] regions@[r2]).0,
                        !found ==> forall|r2: int|
                            0 <= r2 < r ==> (#[trigger] regions@[r2]).0 != bucket,
                    decreases regions.len() - r, (if found { 0int } else { 1int }),
                {
                    if regions[r].0 == bucket {
                        found = true;
                    } else {
                        r = r + 1;
                    }
                }
                if found && regions[r].1.len() < 3440 {
                    let ghost regs0 = regions@;
                    regions[r].1.push(idx);
                    proof {
                        assert(regions@[r as int].0 == regs0[r as int].0);
                        assert forall|r2: int, k: int|
                            0 <= r2 < regions.len() && 0 <= k < regions@[r2].1.len() implies (
                        #[trigger] regions@[r2].1@[k]) < 3440 by {
                            if r2 == r as int && k == regions@[r2].1@.len() - 1 {
                            } else {
                                assert(regs0[r2].1@[k] < 3440);
                            }
                        }
                        assert forall|r1: int, r2: int|
                            0 <= r1 < regions.len() && 0 <= r2 < regions.len() && r1 != r2 implies (
                        #[trigger] regions@[r1]).0 != (#[trigger] regions@[r2]).0 by {
                            assert(regions@[r1].0 == regs0[r1].0);
                            assert(regions@[r2].0 == regs0[r2].0);
                        }
                        assert forall|r2: int|
                            0 <= r2 < regions.len() implies (#[trigger] regions@[r2]).1.len()
                            <= 3440 by {
                            if r2 != r as int {
                                assert(regions@[r2].1.len() == regs0[r2].1.len());
                            }
                        }
                    }
                } else if !found {
                    if regions.len() < 32 {
                        let mut v: Vec<usize> = Vec::new();
                        v.push(idx);
                        let ghost regs0 = regions@;
                        proof {
                            assert(r == regs0.len());
                            assert(forall|r2: int|
                                0 <= r2 < regs0.len() ==> (#[trigger] regs0[r2]).0 != bucket);
                        }
                        regions.push((bucket, v));
                        proof {
                            assert forall|r1: int, r2: int|
                                0 <= r1 < regions.len() && 0 <= r2 < regions.len() && r1
                                    != r2 implies (#[trigger] regions@[r1]).0 != (
                            #[trigger] regions@[r2]).0 by {
                                if r1 < regs0.len() && r2 < regs0.len() {
                                    assert(regions@[r1].0 == regs0[r1].0);
                                    assert(regions@[r2].0 == regs0[r2].0);
                                } else if r1 == regs0.len() {
                                    assert(regions@[r1].0 == bucket);
                                    assert(regions@[r2].0 == regs0[r2].0);
                                    assert(regs0[r2].0 != bucket);
                                } else {
                                    assert(regions@[r2].0 == bucket);
                                    assert(regions@[r1].0 == regs0[r1].0);
                                    assert(regs0[r1].0 != bucket);
                                }
                            }
                            assert forall|r2: int, k: int|
                                0 <= r2 < regions.len() && 0 <= k < regions@[r2].1.len() implies (
                            #[trigger] regions@[r2].1@[k]) < 3440 by {
                                if r2 < regs0.len() {
                                    assert(regs0[r2].1@[k] < 3440);
                                }
                            }
                        }
                    }
                }
            }
            x = x + 1;
        }
        y = y + 1;
    }
    regions
}

/// A room the builders may carve: on the map with a margin for its walls,
/// wide enough for its centre to be interior, and already carved (its
/// centre is floor).
pub open spec fn room_ok(m: GameMap, r: crate::rect::Rect) -> bool {
    &&& r.wf()
    &&& r.x2 < 80
    &&& r.y2 < 43
    &&& r.x2 - r.x1 >= 2
    &&& r.y2 - r.y1 >= 2
    &&& m.tiles@[spec_idx(r.spec_center().0, r.spec_center().1)] == TileType::Floor
}

/// The stairs of a room builder keep the last room's centre whenever that
/// centre remains floor and is not the start itself: only a centre the
/// culling walled off (or the one-room case) sends the stairs to the
/// farthest reachable floor tile instead.
pub open spec fn stairs_at_last_room(m: GameMap, rooms: Seq<crate::rect::Rect>) -> bool {
    rooms[rooms.len() - 1].spec_center() != rooms[0].spec_center() && m.tiles@[spec_idx(
        rooms[rooms.len() - 1].spec_center().0,
        rooms[rooms.len() - 1].spec_center().1,
    )] != TileType::Wall ==> m.tiles@[spec_idx(
        rooms[rooms.len() - 1].spec_center().0,
        rooms[rooms.len() - 1].spec_center().1,
    )] == TileType::DownStairs
}

/// Finishes a room-and-corridor map: the start at the first room's
/// centre, every unreachable floor tile walled off (the connectivity all
/// builders owe), and the stairs at the last room's centre — or, when
/// that centre was culled or is the start itself, at the farthest
/// reachable floor tile.
pub fn place_stairs_and_start(m: &mut GameMap, rooms: &Vec<crate::rect::Rect>) -> (start: Position)
    requires
        old(m).wf(),
        old(m).no_downstairs(),
        rooms.len() >= 1,
        forall|k: int| 0 <= k < rooms.len() ==> room_ok(*old(m), #[trigger] rooms@[k]),
    ensures
        final(m).wf(),
        builder_output_ok(*final(m), start),
        floor_connected(*final(m), start),
        start.x == rooms@[0].spec_center().0,
        start.y == rooms@[0].spec_center().1,
        stairs_at_last_room(*final(m), rooms@),
        // Tiles only change by walling off culled floor or receiving the
        // one staircase.
        forall|i: int|
            0 <= i < 3440 ==> (#[trigger] final(m).tiles@[i] == old(m).tiles@[i] || (old(m).tiles@[i] == TileType::Floor && final(m).tiles@[i] == TileType::Wall) || final(m).tiles@[i]
                == TileType::DownStairs),
{
    let (fx, fy) = rooms[0].center();
    let start_idx = m.xy_idx(fx, fy);
    proof {
        crate::map::lemma_xy_idx(fx as int, fy as int);
    }
    // Wall off whatever the corridors failed to connect.
    let (exit_tile, _gdist) = cull_unreachable(m, start_idx);
    let ghost m_cull = *m;
    let last = rooms.len() - 1;
    let (scx, scy) = rooms[last].center();
    let last_idx = m.xy_idx(scx, scy);
    proof {
        crate::map::lemma_xy_idx(scx as int, scy as int);
    }
    let stairs_idx: usize = if last_idx != start_idx && m.tiles[last_idx] == TileType::Floor {
        last_idx
    } else {
        match exit_tile {
            Some(t) => {
                if t != start_idx {
                    t
                } else {
                    // A single reachable floor tile: nudge the stairs off
                    // the start.
                    if start_idx < 3439 {
                        start_idx + 1
                    } else {
                        start_idx - 1
                    }
                }
            },
            None => {
                // Unreachable even from itself cannot happen: the start
                // tile stays floor.
                proof {
                    assert(m.tiles@[start_idx as int] == TileType::Floor);
                    assert(false);
                }
                0
            },
        }
    };
    let ghost m0 = *m;
    m.tiles.set(stairs_idx, TileType::DownStairs);
    proof {
        assert(m.single_downstairs_at(stairs_idx as int)) by {
            assert forall|j: int|
                0 <= j < 3440 && j != stairs_idx implies #[trigger] m.tiles@[j]
                != TileType::DownStairs by {
                assert(m.tiles@[j] == m0.tiles@[j]);
            }
        }
        assert(start_idx != stairs_idx);
        assert(m.tiles@[start_idx as int] == TileType::Floor);
        assert forall|i: int|
            0 <= i < 3440 && #[trigger] m.tiles@[i] == TileType::Floor implies m.reachable(
            spec_idx(fx as int, fy as int),
            i,
        ) by {
            assert(m0.tiles@[i] == TileType::Floor);
            lemma_reachable_same_blocked(m0, *m, start_idx as int, i);
        }
    }
    Position { x: fx, y: fy }
}

} // verus!

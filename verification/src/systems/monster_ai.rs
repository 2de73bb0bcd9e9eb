//! The monster AI pass: a monster that can see the player walks one step
//! down a breadth-first hop marking flooded from the player's tile, so
//! its hop distance to the player strictly decreases.

use vstd::prelude::*;
use crate::components::Position;
use crate::world::World;
use crate::map::{GameMap, spec_idx, spec_x, spec_y, lemma_xy_idx};
use crate::pathfinding::{flood_fill, flood_wf, UNREACHED};
use crate::map_builders::common::hop_marking;

verus! {

/// A monster that acts: it has a viewshed that contains the player's
/// tile, a position and the monster tag.
pub open spec fn monster_sees_player(w: World, e: int, player_idx: int) -> bool {
    &&& w.monster@[e]
    &&& w.viewshed@[e] is Some
    &&& w.position@[e] is Some
    &&& w.viewshed@[e]->0.visible_tiles@.contains(player_idx as usize)
}

/// The tile of entity `e`.
pub open spec fn tile_of(w: World, e: int) -> int {
    spec_idx(w.position@[e]->0.x as int, w.position@[e]->0.y as int)
}

/// Whether a tile list holds the given tile.
fn tiles_contain(tiles: &Vec<usize>, target: usize) -> (r: bool)
    ensures
        r == tiles@.contains(target),
{
    let mut k: usize = 0;
    while k < tiles.len()
        invariant
            k <= tiles.len(),
            forall|j: int| 0 <= j < k ==> (#[trigger] tiles@[j]) != target,
        decreases tiles.len() - k,
    {
        if tiles[k] == target {
            return true;
        }
        k = k + 1;
    }
    false
}

/// Marks an entity's viewshed dirty, keeping its tiles and range.
fn mark_viewshed_dirty(world: &mut World, e: usize)
    requires
        old(world).wf(),
        e < old(world).n(),
        old(world).viewshed@[e as int] is Some,
    ensures
        final(world).wf(),
        final(world).n() == old(world).n(),
        *final(world) == (World { viewshed: final(world).viewshed, ..*old(world) }),
        forall|e2: int|
            0 <= e2 < old(world).n() && e2 != e ==> (#[trigger] final(world).viewshed@[e2]) == old(world).viewshed@[e2],
        final(world).viewshed@[e as int] is Some,
        final(world).viewshed@[e as int]->0.dirty,
        final(world).viewshed@[e as int]->0.range == old(world).viewshed@[e as int]->0.range,
        final(world).viewshed@[e as int]->0.visible_tiles@ == old(world).viewshed@[
            e as int
        ]->0.visible_tiles@,
{
    let vr: i32 = match &world.viewshed[e] {
        Some(v) => v.range,
        None => 0,
    };
    let vlen: usize = match &world.viewshed[e] {
        Some(v) => v.visible_tiles.len(),
        None => 0,
    };
    let mut vt: Vec<usize> = Vec::new();
    let mut k: usize = 0;
    while k < vlen
        invariant
            world.wf(),
            e < world.viewshed.len(),
            world.viewshed@[e as int] is Some,
            vlen == world.viewshed@[e as int]->0.visible_tiles.len(),
            k <= vlen,
            vt@ == world.viewshed@[e as int]->0.visible_tiles@.take(k as int),
        decreases vlen - k,
    {
        let tv = match &world.viewshed[e] {
            Some(v2) => v2.visible_tiles[k],
            None => 0,
        };
        vt.push(tv);
        proof {
            assert(vt@ =~= world.viewshed@[e as int]->0.visible_tiles@.take(k + 1));
        }
        k = k + 1;
    }
    proof {
        assert(vt@ =~= world.viewshed@[e as int]->0.visible_tiles@);
    }
    world.viewshed.set(
        e,
        Some(crate::components::Viewshed { visible_tiles: vt, range: vr, dirty: true }),
    );
}

/// The monster AI pass. The map is flooded once from the player's tile;
/// the returned marking witnesses the distances. A monster that sees the
/// player either stays put or takes one legal step that strictly lowers
/// its hop distance in that marking, dirtying its viewshed — and when its
/// tile is marked at distance two or more, the step is taken for certain.
/// (The marking measures steps from the player's side; the adjacent case
/// may stay put when the player's own tile cannot be entered.)
#[verifier::spinoff_prover]
#[verifier::rlimit(100)]
pub fn monster_ai_system(world: &mut World, m: &GameMap, player_pos: Position) -> (marking: Ghost<
    Seq<u32>,
>)
    requires
        old(world).wf(),
        m.wf(),
        0 <= player_pos.x < 80,
        0 <= player_pos.y < 43,
    ensures
        final(world).wf(),
        final(world).n() == old(world).n(),
        *final(world) == (World {
            position: final(world).position,
            viewshed: final(world).viewshed,
            ..*old(world)
        }),
        hop_marking(*m, spec_idx(player_pos.x as int, player_pos.y as int), marking@),
        forall|e: int|
            0 <= e < old(world).n() && !monster_sees_player(
                *old(world),
                e,
                spec_idx(player_pos.x as int, player_pos.y as int),
            ) ==> (#[trigger] final(world).position@[e]) == old(world).position@[e]
                && final(world).viewshed@[e] == old(world).viewshed@[e],
        forall|e: int|
            0 <= e < old(world).n() && monster_sees_player(
                *old(world),
                e,
                spec_idx(player_pos.x as int, player_pos.y as int),
            ) ==> ((#[trigger] final(world).position@[e]) == old(world).position@[e] && final(world).viewshed@[e] == old(world).viewshed@[e]) || (final(world).position@[e] is Some
                && m.step(tile_of(*old(world), e), tile_of(*final(world), e)) && marking@[tile_of(
                *final(world),
                e,
            )] != UNREACHED && marking@[tile_of(*old(world), e)] != UNREACHED && marking@[tile_of(
                *final(world),
                e,
            )] < marking@[tile_of(*old(world), e)] && final(world).viewshed@[e] is Some && final(world).viewshed@[e]->0.dirty),
        // A seeing monster two or more hops out always closes in.
        forall|e: int|
            0 <= e < old(world).n() && monster_sees_player(
                *old(world),
                e,
                spec_idx(player_pos.x as int, player_pos.y as int),
            ) && marking@[tile_of(*old(world), e)] != UNREACHED && marking@[tile_of(
                *old(world),
                e,
            )] >= 2 ==> (#[trigger] final(world).position@[e]) is Some && m.step(
                tile_of(*old(world), e),
                tile_of(*final(world), e),
            ) && marking@[tile_of(*final(world), e)] < marking@[tile_of(*old(world), e)] && final(world).viewshed@[e] is Some && final(world).viewshed@[e]->0.dirty,
{
    let n = world.alive.len();
    let player_idx = m.xy_idx(player_pos.x, player_pos.y);
    let ghost pidx = spec_idx(player_pos.x as int, player_pos.y as int);
    let (dist, parent) = flood_fill(m, player_idx);
    proof {
        // The flood's parent chains witness the hop-marking support.
        assert(hop_marking(*m, pidx, dist@)) by {
            assert forall|i2: int|
                0 <= i2 < 3440 && #[trigger] dist@[i2] != UNREACHED && i2 != pidx implies exists|
                b: int,
            |
                0 <= b < 3440 && dist@[b] != UNREACHED && #[trigger] m.step(b, i2) && dist@[i2]
                    == dist@[b] + 1 by {
                assert(parent@[i2] < 3440 && dist@[parent@[i2] as int] != UNREACHED && m.step(
                    parent@[i2] as int,
                    i2,
                ) && dist@[i2] == dist@[parent@[i2] as int] + 1);
            }
        }
    }
    let mut e: usize = 0;
    while e < n
        invariant
            world.wf(),
            m.wf(),
            n == old(world).n(),
            world.n() == n,
            e <= n,
            player_idx == pidx,
            pidx == spec_idx(player_pos.x as int, player_pos.y as int),
            player_idx < 3440,
            0 <= player_pos.x < 80,
            0 <= player_pos.y < 43,
            dist.len() == 3440,
            parent.len() == 3440,
            flood_wf(*m, pidx, dist@, parent@),
            *world == (World {
                position: world.position,
                viewshed: world.viewshed,
                ..*old(world)
            }),
            forall|e2: int|
                (0 <= e2 < e && !monster_sees_player(*old(world), e2, pidx)) || e <= e2 < n
                    ==> (#[trigger] world.position@[e2]) == old(world).position@[e2]
                        && world.viewshed@[e2] == old(world).viewshed@[e2],
            forall|e2: int|
                0 <= e2 < e && monster_sees_player(*old(world), e2, pidx)
                    ==> ((#[trigger] world.position@[e2]) == old(world).position@[e2]
                        && world.viewshed@[e2] == old(world).viewshed@[e2])
                    || (world.position@[e2] is Some && m.step(
                        tile_of(*old(world), e2),
                        tile_of(*world, e2),
                    ) && dist@[tile_of(*world, e2)] != UNREACHED && dist@[tile_of(
                        *old(world),
                        e2,
                    )] != UNREACHED && dist@[tile_of(*world, e2)] < dist@[tile_of(
                        *old(world),
                        e2,
                    )] && world.viewshed@[e2] is Some && world.viewshed@[e2]->0.dirty),
            forall|e2: int|
                0 <= e2 < e && monster_sees_player(*old(world), e2, pidx) && dist@[tile_of(
                    *old(world),
                    e2,
                )] != UNREACHED && dist@[tile_of(*old(world), e2)] >= 2
                    ==> (#[trigger] world.position@[e2]) is Some && m.step(
                        tile_of(*old(world), e2),
                        tile_of(*world, e2),
                    ) && dist@[tile_of(*world, e2)] < dist@[tile_of(*old(world), e2)]
                        && world.viewshed@[e2] is Some && world.viewshed@[e2]->0.dirty,
        decreases n - e,
    {
        let mut acts = false;
        let mut px: i32 = 0;
        let mut py: i32 = 0;
        if world.monster[e] {
            match world.position[e] {
                Some(p) => {
                    match &world.viewshed[e] {
                        Some(v) => {
                            let seen = tiles_contain(&v.visible_tiles, player_idx);
                            if seen {
                                acts = true;
                                px = p.x;
                                py = p.y;
                            }
                        },
                        None => {},
                    }
                },
                None => {},
            }
        }
        if acts {
            let my_idx = m.xy_idx(px, py);
            proof {
                lemma_xy_idx(px as int, py as int);
            }
            let my_dist = dist[my_idx];
            if my_dist != UNREACHED && my_idx != player_idx {
                // Step to any neighbour strictly closer to the player.
                let exits = m.get_available_exits(my_idx);
                let mut chosen: Option<usize> = None;
                let mut t: usize = 0;
                while t < exits.len()
                    invariant
                        m.wf(),
                        my_idx < 3440,
                        dist.len() == 3440,
                        my_dist == dist@[my_idx as int],
                        t <= exits.len(),
                        forall|k2: int|
                            0 <= k2 < exits.len() ==> m.step(
                                my_idx as int,
                                (#[trigger] exits@[k2]).0 as int,
                            ) && exits@[k2].0 < 3440,
                        forall|b: int| m.step(my_idx as int, b) ==> exists|k2: int|
                            0 <= k2 < exits.len() && (#[trigger] exits@[k2]).0 == b,
                        match chosen {
                            Some(b) => b < 3440 && m.step(my_idx as int, b as int) && dist@[
                                b as int
                            ] != UNREACHED && dist@[b as int] < my_dist,
                            None => forall|k2: int|
                                0 <= k2 < t ==> !(dist@[(#[trigger] exits@[k2]).0 as int]
                                    != UNREACHED && dist@[exits@[k2].0 as int] < my_dist),
                        },
                    decreases exits.len() - t,
                {
                    match chosen {
                        Some(_) => {},
                        None => {
                            let (b, _c) = exits[t];
                            let db = dist[b];
                            if db != UNREACHED && db < my_dist {
                                chosen = Some(b);
                            }
                        },
                    }
                    t = t + 1;
                }
                proof {
                    // Two or more hops out, the flood's parent of this tile
                    // is an enterable, strictly closer neighbour, so the
                    // scan cannot have come up empty.
                    if dist@[my_idx as int] >= 2 && chosen is None {
                        let par = parent@[my_idx as int] as int;
                        assert(m.step(par, my_idx as int) && dist@[par] + 1 == dist@[
                            my_idx as int
                        ]);
                        assert(dist@[par] >= 1);
                        assert(par != pidx);
                        // The parent's own parent step shows the parent's
                        // tile is enterable.
                        assert(m.step(parent@[par] as int, par));
                        assert(m.step(my_idx as int, par));
                        let k2 = choose|k2: int|
                            0 <= k2 < exits.len() && (#[trigger] exits@[k2]).0 == par;
                        assert(false);
                    }
                }
                match chosen {
                    None => {},
                    Some(next) => {
                        let nx: i32 = (next % 80) as i32;
                        let ny: i32 = (next / 80) as i32;
                        proof {
                            crate::pathfinding::lemma_step_in_bounds(
                                *m,
                                my_idx as int,
                                next as int,
                            );
                            vstd::arithmetic::div_mod::lemma_fundamental_div_mod(next as int, 80);
                            vstd::arithmetic::div_mod::lemma_mod_bound(next as int, 80);
                            vstd::arithmetic::div_mod::lemma_div_pos_is_pos(next as int, 80);
                            assert(spec_y(next as int) < 43) by {
                                if next as int / 80 >= 43 {
                                    vstd::arithmetic::div_mod::lemma_div_is_ordered(
                                        3440,
                                        next as int,
                                        80,
                                    );
                                }
                            }
                            assert(spec_idx(nx as int, ny as int) == next as int);
                        }
                        world.position.set(e, Some(Position { x: nx, y: ny }));
                        mark_viewshed_dirty(world, e);
                    },
                }
            }
        }
        e = e + 1;
    }
    Ghost(dist@)
}

} // verus!

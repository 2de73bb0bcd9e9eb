//! The spatial indexing pass: rebuilds every tile's occupant list from the
//! entities' positions and recomputes the blocked bitset from the tile
//! type and blocking occupants.

use vstd::prelude::*;
use crate::world::World;
use crate::map::{GameMap, TileType, spec_idx, MAPCOUNT};

verus! {

/// Entity `e` stands on tile `t` in world `w`.
pub open spec fn occupies(w: World, e: int, t: int) -> bool {
    &&& 0 <= e < w.n()
    &&& w.alive@[e]
    &&& w.position@[e] is Some
    &&& spec_idx(w.position@[e]->0.x as int, w.position@[e]->0.y as int) == t
}

/// The occupant index is exact: tile `t` lists exactly the entities
/// standing on it, each once.
pub open spec fn index_exact(w: World, m: GameMap) -> bool {
    &&& forall|t: int, e: int|
        #![trigger m.tile_content@[t]@.contains(e as usize)]
        #![trigger occupies(w, e, t)]
        0 <= t < 3440 && 0 <= e < w.n() ==> (m.tile_content@[t]@.contains(e as usize)
            <==> occupies(w, e, t))
    &&& forall|t: int, k: int|
        0 <= t < 3440 && 0 <= k < m.tile_content@[t].len()
            ==> (#[trigger] m.tile_content@[t]@[k]) < w.n()
    &&& forall|t: int| 0 <= t < 3440 ==> (#[trigger] m.tile_content@[t])@.no_duplicates()
}

/// The blocked bitset is exact: a tile blocks exactly when it is a wall
/// or an occupant carries the blocking tag.
pub open spec fn blocked_exact(w: World, m: GameMap) -> bool {
    forall|t: int|
        0 <= t < 3440 ==> (#[trigger] m.blocked@[t] == (m.tiles@[t] == TileType::Wall
            || exists|e: int| occupies(w, e, t) && w.blocks_tile@[e]))
}

/// The spatial indexing pass: afterwards the occupant lists and the
/// blocked bitset describe the world exactly; nothing else changes.
pub fn map_indexing_system(world: &World, m: &mut GameMap)
    requires
        world.wf(),
        old(m).wf(),
    ensures
        final(m).wf(),
        *final(m) == (GameMap {
            blocked: final(m).blocked,
            tile_content: final(m).tile_content,
            ..*old(m)
        }),
        index_exact(*world, *final(m)),
        blocked_exact(*world, *final(m)),
{
    let n = world.alive.len();
    let mut t: usize = 0;
    while t < MAPCOUNT
        invariant
            world.wf(),
            m.wf(),
            n == world.n(),
            t <= 3440,
            *m == (GameMap { blocked: m.blocked, tile_content: m.tile_content, ..*old(m) }),
            forall|t2: int, e: int|
                #![trigger m.tile_content@[t2]@.contains(e as usize)]
                #![trigger occupies(*world, e, t2)]
                0 <= t2 < t && 0 <= e < world.n() ==> (m.tile_content@[t2]@.contains(e as usize)
                    <==> occupies(*world, e, t2)),
            forall|t2: int, k: int|
                0 <= t2 < t && 0 <= k < m.tile_content@[t2].len()
                    ==> (#[trigger] m.tile_content@[t2]@[k]) < world.n(),
            forall|t2: int| 0 <= t2 < t ==> (#[trigger] m.tile_content@[t2])@.no_duplicates(),
            forall|t2: int|
                0 <= t2 < t ==> (#[trigger] m.blocked@[t2] == (m.tiles@[t2] == TileType::Wall
                    || exists|e: int| occupies(*world, e, t2) && world.blocks_tile@[e])),
        decreases 3440 - t,
    {
        let mut occ: Vec<usize> = Vec::new();
        let mut blk: bool = m.tiles[t] == TileType::Wall;
        let ghost blk0 = blk;
        let mut e: usize = 0;
        while e < n
            invariant
                world.wf(),
                m.wf(),
                n == world.n(),
                t < 3440,
                e <= n,
                forall|e2: int|
                    #![trigger occ@.contains(e2 as usize)]
                    #![trigger occupies(*world, e2, t as int)]
                    0 <= e2 < world.n() ==> (occ@.contains(e2 as usize) <==> (occupies(
                        *world,
                        e2,
                        t as int,
                    ) && e2 < e)),
                forall|k: int| 0 <= k < occ.len() ==> (#[trigger] occ@[k]) < world.n(),
                forall|k1: int, k2: int| 0 <= k1 < k2 < occ.len() ==> occ@[k1] < occ@[k2],
                blk == (blk0 || exists|e2: int|
                    0 <= e2 < e && occupies(*world, e2, t as int) && world.blocks_tile@[e2]),
            decreases n - e,
        {
            let ghost occ0 = occ@;
            let ghost blk_in = blk;
            let mut here = false;
            if world.alive[e] {
                match world.position[e] {
                    Some(p) => {
                        let idx = m.xy_idx(p.x, p.y);
                        if idx == t {
                            here = true;
                        }
                    },
                    None => {},
                }
            }
            if here {
                proof {
                    assert forall|k: int| 0 <= k < occ0.len() implies occ0[k] < e by {
                        let v = occ0[k];
                        assert(occ0.contains(v));
                        assert(0 <= v < world.n());
                        assert((v as int) as usize == v);
                        assert(occupies(*world, v as int, t as int) && (v as int) < e);
                    }
                }
                occ.push(e);
                if world.blocks_tile[e] {
                    blk = true;
                }
                proof {
                    assert forall|e2: int|
                        0 <= e2 < world.n() implies (occ@.contains(e2 as usize) <==> (occupies(
                        *world,
                        e2,
                        t as int,
                    ) && e2 < e + 1)) by {
                        if e2 == e as int {
                            assert(occ@[occ@.len() - 1] == e);
                        } else {
                            if occ0.contains(e2 as usize) {
                                let k = choose|k: int| 0 <= k < occ0.len() && occ0[k] == e2 as usize;
                                assert(occ@[k] == e2 as usize);
                            }
                            if occ@.contains(e2 as usize) {
                                let k = choose|k: int| 0 <= k < occ@.len() && occ@[k] == e2 as usize;
                                assert(k < occ0.len());
                                assert(occ0[k] == e2 as usize);
                            }
                        }
                    }
                }
            }
            proof {
                assert(here == occupies(*world, e as int, t as int));
                if blk {
                    if blk_in {
                        if !blk0 {
                            let w2 = choose|e2: int|
                                0 <= e2 < e && occupies(*world, e2, t as int)
                                    && world.blocks_tile@[e2];
                            assert(0 <= w2 < e + 1 && occupies(*world, w2, t as int)
                                && world.blocks_tile@[w2]);
                        }
                    } else {
                        assert(occupies(*world, e as int, t as int)
                            && world.blocks_tile@[e as int]);
                    }
                }
            }
            e = e + 1;
        }
        let ghost mc0 = m.tile_content@;
        m.tile_content.set(t, occ);
        m.blocked.set(t, blk);
        proof {
            let tc = m.tile_content@[t as int]@;
            assert forall|k1: int, k2: int|
                0 <= k1 < tc.len() && 0 <= k2 < tc.len() && k1 != k2 implies tc[k1] != tc[k2] by {
                if k1 < k2 {
                    assert(tc[k1] < tc[k2]);
                } else {
                    assert(tc[k2] < tc[k1]);
                }
            }
        }
        t = t + 1;
    }
}

} // verus!

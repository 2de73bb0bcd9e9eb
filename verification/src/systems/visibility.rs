//! The visibility pass: recomputes dirty viewsheds, projects the player's
//! viewshed onto the map's visible and revealed bitsets, and gives hidden
//! entities on newly seen tiles a one-in-twenty-four chance of discovery.

use vstd::prelude::*;
use crate::components::Viewshed;
use crate::world::World;
use crate::map::{GameMap, spec_idx, spec_x, spec_y};
use crate::fov::{field_of_view, spec_visible};
use crate::gamelog::{GameLog, LogEvent, log_extended};
use crate::rng::roll_dice;

verus! {

/// An entity whose viewshed the pass recomputes: it has a dirty viewshed
/// and a position.
pub open spec fn needs_update(w: World, e: int) -> bool {
    &&& w.viewshed@[e] is Some
    &&& w.viewshed@[e]->0.dirty
    &&& w.position@[e] is Some
}

/// The map's visibility bitsets after the player's viewshed `vt` was
/// projected onto map `m0`, giving `m1`: visible is exactly `vt`, and
/// revealed has grown by exactly `vt`.
pub open spec fn map_bits_match(m0: GameMap, m1: GameMap, vt: Seq<usize>) -> bool {
    forall|i: int|
        0 <= i < 3440 ==> (#[trigger] m1.visible_tiles@[i] == vt.contains(i as usize)
            && m1.revealed_tiles@[i] == (m0.revealed_tiles@[i] || vt.contains(i as usize)))
}

/// Entity `o` occupies one of the listed tiles.
pub open spec fn on_listed_tile(m: GameMap, vt: Seq<usize>, o: int) -> bool {
    exists|k: int|
        0 <= k < vt.len() && (#[trigger] vt[k]) < 3440 && m.tile_content@[vt[k] as int]@.contains(
            o as usize,
        )
}

/// `vt` holds exactly the tiles visible from `(px, py)` within `range`.
pub open spec fn viewshed_exact(m: GameMap, px: int, py: int, range: int, vt: Seq<usize>) -> bool {
    &&& forall|k: int|
        0 <= k < vt.len() ==> #[trigger] vt[k] < 3440 && spec_visible(
            m,
            px,
            py,
            range,
            spec_x(vt[k] as int),
            spec_y(vt[k] as int),
        )
    &&& forall|tx: int, ty: int|
        spec_visible(m, px, py, range, tx, ty) ==> vt.contains(spec_idx(tx, ty) as usize)
}

/// Resets the map's global visibility to exactly the given tiles and marks
/// each of them revealed; everything else on the map is untouched.
pub fn apply_player_visibility(m: &mut GameMap, tiles: &Vec<usize>)
    requires
        old(m).wf(),
        forall|k: int| 0 <= k < tiles.len() ==> #[trigger] tiles@[k] < 3440,
    ensures
        final(m).wf(),
        *final(m) == (GameMap {
            visible_tiles: final(m).visible_tiles,
            revealed_tiles: final(m).revealed_tiles,
            ..*old(m)
        }),
        forall|i: int|
            0 <= i < 3440 ==> #[trigger] final(m).visible_tiles@[i] == tiles@.contains(i as usize),
        forall|i: int|
            0 <= i < 3440 ==> #[trigger] final(m).revealed_tiles@[i] == (old(m).revealed_tiles@[i]
                || tiles@.contains(i as usize)),
{
    let mut i: usize = 0;
    while i < 3440
        invariant
            m.wf(),
            i <= 3440,
            *m == (GameMap { visible_tiles: m.visible_tiles, ..*old(m) }),
            forall|j: int| 0 <= j < i ==> !(#[trigger] m.visible_tiles@[j]),
            forall|j: int| i <= j < 3440 ==> #[trigger] m.visible_tiles@[j] == old(m).visible_tiles@[j],
        decreases 3440 - i,
    {
        m.visible_tiles.set(i, false);
        i = i + 1;
    }
    let mut k: usize = 0;
    while k < tiles.len()
        invariant
            m.wf(),
            k <= tiles.len(),
            forall|j: int| 0 <= j < tiles.len() ==> #[trigger] tiles@[j] < 3440,
            *m == (GameMap {
                visible_tiles: m.visible_tiles,
                revealed_tiles: m.revealed_tiles,
                ..*old(m)
            }),
            forall|i: int|
                0 <= i < 3440 ==> #[trigger] m.visible_tiles@[i] == tiles@.take(k as int).contains(
                    i as usize,
                ),
            forall|i: int|
                0 <= i < 3440 ==> #[trigger] m.revealed_tiles@[i] == (old(m).revealed_tiles@[i]
                    || tiles@.take(k as int).contains(i as usize)),
        decreases tiles.len() - k,
    {
        let t = tiles[k];
        m.visible_tiles.set(t, true);
        m.revealed_tiles.set(t, true);
        proof {
            assert(tiles@.take(k + 1).drop_last() =~= tiles@.take(k as int));
            assert forall|i: int| 0 <= i < 3440 implies #[trigger] m.visible_tiles@[i]
                == tiles@.take(k + 1).contains(i as usize) by {
                if i == t as int {
                    assert(tiles@.take(k + 1)[k as int] == t);
                } else {
                    assert(tiles@.take(k + 1).contains(i as usize) == tiles@.take(
                        k as int,
                    ).contains(i as usize)) by {
                        if tiles@.take(k + 1).contains(i as usize) {
                            let j = choose|j: int|
                                0 <= j < k + 1 && #[trigger] tiles@.take(k + 1)[j] == i as usize;
                            assert(tiles@.take(k as int)[j] == i as usize);
                        } else if tiles@.take(k as int).contains(i as usize) {
                            let j = choose|j: int|
                                0 <= j < k && #[trigger] tiles@.take(k as int)[j] == i as usize;
                            assert(tiles@.take(k + 1)[j] == i as usize);
                        }
                    }
                }
            }
            assert forall|i: int| 0 <= i < 3440 implies #[trigger] m.revealed_tiles@[i] == (old(m).revealed_tiles@[i] || tiles@.take(k + 1).contains(i as usize)) by {
                if i == t as int {
                    assert(tiles@.take(k + 1)[k as int] == t);
                } else {
                    if tiles@.take(k + 1).contains(i as usize) {
                        let j = choose|j: int| 0 <= j < k + 1 && #[trigger] tiles@.take(k + 1)[j] == i as usize;
                        assert(tiles@.take(k as int)[j] == i as usize);
                    } else if tiles@.take(k as int).contains(i as usize) {
                        let j = choose|j: int| 0 <= j < k && #[trigger] tiles@.take(k as int)[j] == i as usize;
                        assert(tiles@.take(k + 1)[j] == i as usize);
                    }
                }
            }
        }
        k = k + 1;
    }
    proof {
        assert(tiles@.take(tiles.len() as int) =~= tiles@);
    }
}

/// The visibility pass. Every dirty viewshed is recomputed to exactly the
/// visible tiles and its dirty flag cleared; other entities keep their
/// viewsheds. If the (unique) player had a dirty viewshed, the map's
/// visible bitset becomes exactly the player's new viewshed and those
/// tiles are marked revealed. Hidden entities are only ever revealed
/// (never newly hidden), whatever the dice say.
pub fn visibility_system(
    world: &mut World,
    m: &mut GameMap,
    log: &mut GameLog,
    rng: &mut bracket_random::prelude::RandomNumberGenerator,
)
    requires
        old(world).wf(),
        old(m).wf(),
        forall|i: int, j: int|
            0 <= i < old(world).n() && 0 <= j < old(world).n() && old(world).player@[i] && old(world).player@[j] ==> i == j,
    ensures
        final(world).wf(),
        final(world).n() == old(world).n(),
        *final(world) == (World {
            viewshed: final(world).viewshed,
            hidden: final(world).hidden,
            ..*old(world)
        }),
        forall|e: int|
            0 <= e < old(world).n() && needs_update(*old(world), e)
                ==> (#[trigger] final(world).viewshed@[e]) is Some
                && final(world).viewshed@[e]->0.range == old(world).viewshed@[e]->0.range
                && !final(world).viewshed@[e]->0.dirty
                && viewshed_exact(
                *old(m),
                old(world).position@[e]->0.x as int,
                old(world).position@[e]->0.y as int,
                old(world).viewshed@[e]->0.range as int,
                final(world).viewshed@[e]->0.visible_tiles@,
            ),
        forall|e: int|
            0 <= e < old(world).n() && !needs_update(*old(world), e)
                ==> (#[trigger] final(world).viewshed@[e]) == old(world).viewshed@[e],
        forall|e: int|
            0 <= e < old(world).n() && (#[trigger] final(world).hidden@[e]) ==> old(world).hidden@[e],
        // Nothing off the player's newly visible tiles loses its cover.
        (forall|e: int|
            0 <= e < old(world).n() ==> !(old(world).player@[e] && needs_update(*old(world), e)))
            ==> final(world).hidden@ == old(world).hidden@,
        forall|e: int, o: int|
            #![trigger final(world).viewshed@[e], final(world).hidden@[o]]
            0 <= e < old(world).n() && old(world).player@[e] && needs_update(*old(world), e) && 0
                <= o < old(world).n() && !on_listed_tile(
                *old(m),
                final(world).viewshed@[e]->0.visible_tiles@,
                o,
            ) ==> final(world).hidden@[o] == old(world).hidden@[o],
        final(m).wf(),
        *final(m) == (GameMap {
            visible_tiles: final(m).visible_tiles,
            revealed_tiles: final(m).revealed_tiles,
            ..*old(m)
        }),
        log_extended(*old(log), *final(log)),
        (forall|e: int|
            0 <= e < old(world).n() ==> !(old(world).player@[e] && needs_update(*old(world), e)))
            ==> *final(m) == *old(m),
        forall|e: int|
            0 <= e < old(world).n() && old(world).player@[e] && needs_update(*old(world), e)
                ==> map_bits_match(
                *old(m),
                *final(m),
                (#[trigger] final(world).viewshed@[e])->0.visible_tiles@,
            ),
{
    let n = world.alive.len();
    let mut player_seen: Option<usize> = None;
    let mut e: usize = 0;
    while e < n
        invariant
            world.wf(),
            m.wf(),
            n == old(world).n(),
            world.n() == n,
            e <= n,
            *m == *old(m),
            *world == (World { viewshed: world.viewshed, ..*old(world) }),
            forall|e2: int|
                0 <= e2 < e && needs_update(*old(world), e2)
                    ==> (#[trigger] world.viewshed@[e2]) is Some
                    && world.viewshed@[e2]->0.range == old(world).viewshed@[e2]->0.range
                    && !world.viewshed@[e2]->0.dirty
                    && viewshed_exact(
                    *old(m),
                    old(world).position@[e2]->0.x as int,
                    old(world).position@[e2]->0.y as int,
                    old(world).viewshed@[e2]->0.range as int,
                    world.viewshed@[e2]->0.visible_tiles@,
                ),
            forall|e2: int|
                (0 <= e2 < e && !needs_update(*old(world), e2)) || e <= e2 < n
                    ==> (#[trigger] world.viewshed@[e2]) == old(world).viewshed@[e2],
            match player_seen {
                Some(pe) => pe < e && old(world).player@[pe as int] && needs_update(
                    *old(world),
                    pe as int,
                ),
                None => forall|e2: int|
                    0 <= e2 < e ==> !(old(world).player@[e2] && needs_update(*old(world), e2)),
            },
        decreases n - e,
    {
        let mut do_update = false;
        let mut px: i32 = 0;
        let mut py: i32 = 0;
        let mut range: i32 = 0;
        match &world.viewshed[e] {
            Some(v) => {
                if v.dirty {
                    match world.position[e] {
                        Some(p) => {
                            do_update = true;
                            px = p.x;
                            py = p.y;
                            range = v.range;
                        },
                        None => {},
                    }
                }
            },
            None => {},
        }
        if do_update {
            let vt = field_of_view(m, px, py, range);
            world.viewshed.set(e, Some(Viewshed { visible_tiles: vt, range, dirty: false }));
            if world.player[e] {
                player_seen = Some(e);
            }
        }
        e = e + 1;
    }
    match player_seen {
        None => {},
        Some(pe) => {
            let ghost w1 = *world;
            let num_tiles = match &world.viewshed[pe] {
                Some(v) => v.visible_tiles.len(),
                None => 0,
            };
            // Project the player's viewshed onto the map.
            match &world.viewshed[pe] {
                Some(v) => {
                    apply_player_visibility(m, &v.visible_tiles);
                },
                None => {},
            }
            // Roll to discover hidden occupants of visible tiles.
            let mut k: usize = 0;
            while k < num_tiles
                invariant
                    world.wf(),
                    m.wf(),
                    n == old(world).n(),
                    world.n() == n,
                    pe < n,
                    k <= num_tiles,
                    *world == (World { hidden: world.hidden, ..w1 }),
                    world.viewshed@[pe as int] is Some,
                    num_tiles == world.viewshed@[pe as int]->0.visible_tiles.len(),
                    forall|e2: int|
                        0 <= e2 < n && (#[trigger] world.hidden@[e2]) ==> w1.hidden@[e2],
                    forall|o: int|
                        0 <= o < n && (#[trigger] world.hidden@[o]) != w1.hidden@[o]
                            ==> on_listed_tile(
                            *m,
                            world.viewshed@[pe as int]->0.visible_tiles@,
                            o,
                        ),
                    log_extended(*old(log), *log),
                decreases num_tiles - k,
            {
                let t = match &world.viewshed[pe] {
                    Some(v) => v.visible_tiles[k],
                    None => 0,
                };
                let occ_len = m.tile_content[t].len();
                let mut o: usize = 0;
                while o < occ_len
                    invariant
                        world.wf(),
                        m.wf(),
                        n == old(world).n(),
                        world.n() == n,
                        t < 3440,
                        o <= occ_len,
                        *world == (World { hidden: world.hidden, ..w1 }),
                        occ_len == m.tile_content@[t as int].len(),
                        world.viewshed@[pe as int] is Some,
                        k < world.viewshed@[pe as int]->0.visible_tiles.len(),
                        t == world.viewshed@[pe as int]->0.visible_tiles@[k as int],
                        forall|e2: int|
                            0 <= e2 < n && (#[trigger] world.hidden@[e2]) ==> w1.hidden@[e2],
                        forall|o2: int|
                            0 <= o2 < n && (#[trigger] world.hidden@[o2]) != w1.hidden@[o2]
                                ==> on_listed_tile(
                                *m,
                                world.viewshed@[pe as int]->0.visible_tiles@,
                                o2,
                            ),
                        log_extended(*old(log), *log),
                    decreases occ_len - o,
                {
                    let occ = m.tile_content[t][o];
                    if occ < n && world.hidden[occ] {
                        if roll_dice(rng, 1, 24) == 1 {
                            world.hidden.set(occ, false);
                            log.push(LogEvent::Discovered { entity: occ });
                            proof {
                                assert(m.tile_content@[t as int]@[o as int] == occ);
                                assert(m.tile_content@[t as int]@.contains(occ));
                                assert(on_listed_tile(
                                    *m,
                                    world.viewshed@[pe as int]->0.visible_tiles@,
                                    occ as int,
                                ));
                            }
                        }
                    }
                    o = o + 1;
                }
                k = k + 1;
            }
        },
    }
}

} // verus!

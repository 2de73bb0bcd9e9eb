//! The trigger pass: an entity that moved this turn sets off every entry
//! trigger occupying its destination tile — the trap is revealed, its
//! damage is queued against the mover, and a single-use trap is queued
//! for deletion. The moved markers are cleared.

use vstd::prelude::*;
use crate::world::World;
use crate::map::{GameMap, spec_idx};
use crate::gamelog::{GameLog, LogEvent, log_extended};
use crate::systems::damage::{amounts_of, add_damage};

verus! {

/// An entity that moved this turn and stands somewhere.
pub open spec fn moved(w: World, e: int) -> bool {
    w.entity_moved@[e] && w.position@[e] is Some
}

/// The tile entity `e` stands on.
pub open spec fn tile_of(w: World, e: int) -> int {
    spec_idx(w.position@[e]->0.x as int, w.position@[e]->0.y as int)
}

/// Occupant `o` of `e`'s tile is an entry trigger set off by `e`.
pub open spec fn sets_off(w: World, m: GameMap, e: int, o: int) -> bool {
    &&& moved(w, e)
    &&& m.tile_content@[tile_of(w, e)]@.contains(o as usize)
    &&& o != e
    &&& 0 <= o < w.n()
    &&& w.entry_trigger@[o]
}

/// Something set trigger `o` off this pass: some mover ran into it.
pub open spec fn triggered(w: World, m: GameMap, o: int, bound: int) -> bool {
    exists|e: int| 0 <= e < bound && sets_off(w, m, e, o)
}

/// The damage the first `k` occupants of `e`'s tile queue against mover
/// `e`.
pub open spec fn trap_damages_upto(w: World, m: GameMap, e: int, k: int) -> Seq<i32>
    decreases k,
{
    if k <= 0 {
        Seq::empty()
    } else {
        let rest = trap_damages_upto(w, m, e, k - 1);
        let o = m.tile_content@[tile_of(w, e)]@[k - 1] as int;
        if o != e && w.entry_trigger@[o] && w.inflicts_damage@[o] is Some {
            rest.push(w.inflicts_damage@[o]->0.damage)
        } else {
            rest
        }
    }
}

/// All the damage `e`'s destination tile queues against it.
pub open spec fn trap_damages(w: World, m: GameMap, e: int) -> Seq<i32> {
    trap_damages_upto(w, m, e, m.tile_content@[tile_of(w, e)].len() as int)
}

/// The trigger pass. Movers set off the entry triggers on their tiles:
/// each such trigger is revealed and queues its damage against the mover;
/// single-use triggers are queued for deletion; every moved marker is
/// cleared; nothing else changes.
pub fn trigger_system(world: &mut World, m: &GameMap, log: &mut GameLog)
    requires
        old(world).wf(),
        m.wf(),
        forall|t: int, k: int|
            0 <= t < 3440 && 0 <= k < m.tile_content@[t].len()
                ==> (#[trigger] m.tile_content@[t]@[k]) < old(world).n(),
    ensures
        final(world).wf(),
        final(world).n() == old(world).n(),
        *final(world) == (World {
            hidden: final(world).hidden,
            suffer_damage: final(world).suffer_damage,
            entity_moved: final(world).entity_moved,
            pending_delete: final(world).pending_delete,
            ..*old(world)
        }),
        forall|e: int| 0 <= e < old(world).n() ==> !(#[trigger] final(world).entity_moved@[e]),
        forall|o: int|
            0 <= o < old(world).n() ==> (#[trigger] final(world).hidden@[o]) == (old(world).hidden@[o] && !triggered(*old(world), *m, o, old(world).n())),
        forall|e: int|
            0 <= e < old(world).n() ==> amounts_of(*final(world), e) =~= amounts_of(
                *old(world),
                e,
            ) + (
            if moved(*old(world), e) {
                trap_damages(*old(world), *m, e)
            } else {
                Seq::empty()
            }),
        old(world).pending_delete@.is_prefix_of(final(world).pending_delete@),
        forall|o: int|
            0 <= o < old(world).n() && triggered(*old(world), *m, o, old(world).n()) && old(world).triggers_once@[o] ==> final(world).pending_delete@.contains(o as usize),
        log_extended(*old(log), *final(log)),
        // Every trigger that fired was logged.
        forall|o: int|
            #![trigger old(world).entry_trigger@[o]]
            0 <= o < old(world).n() && triggered(*old(world), *m, o, old(world).n())
                ==> final(log).entries@.contains(LogEvent::Triggered { entity: o as usize }),
{
    let n = world.alive.len();
    let mut e: usize = 0;
    while e < n
        invariant
            world.wf(),
            m.wf(),
            n == old(world).n(),
            world.n() == n,
            e <= n,
            forall|t: int, k: int|
                0 <= t < 3440 && 0 <= k < m.tile_content@[t].len()
                    ==> (#[trigger] m.tile_content@[t]@[k]) < n,
            *world == (World {
                hidden: world.hidden,
                suffer_damage: world.suffer_damage,
                pending_delete: world.pending_delete,
                ..*old(world)
            }),
            forall|o: int|
                0 <= o < n ==> (#[trigger] world.hidden@[o]) == (old(world).hidden@[o]
                    && !triggered(*old(world), *m, o, e as int)),
            forall|e2: int|
                0 <= e2 < n ==> amounts_of(*world, e2) =~= amounts_of(*old(world), e2) + (
                if moved(*old(world), e2) && e2 < e {
                    trap_damages(*old(world), *m, e2)
                } else {
                    Seq::empty()
                }),
            old(world).pending_delete@.is_prefix_of(world.pending_delete@),
            forall|o: int|
                0 <= o < n && triggered(*old(world), *m, o, e as int) && old(world).triggers_once@[o] ==> world.pending_delete@.contains(o as usize),
            log_extended(*old(log), *log),
            forall|o: int|
                #![trigger old(world).entry_trigger@[o]]
                0 <= o < n && triggered(*old(world), *m, o, e as int) ==> log.entries@.contains(
                    LogEvent::Triggered { entity: o as usize },
                ),
        decreases n - e,
    {
        let ghost w_iter = *world;
        let ghost log_outer = *log;
        let mut is_mover = false;
        let mut tile: usize = 0;
        if world.entity_moved[e] {
            match world.position[e] {
                Some(p) => {
                    is_mover = true;
                    tile = m.xy_idx(p.x, p.y);
                },
                None => {},
            }
        }
        proof {
            assert(is_mover == moved(*old(world), e as int));
            if is_mover {
                assert(tile == tile_of(*old(world), e as int));
            }
        }
        if is_mover {
            let olen = m.tile_content[tile].len();
            let ghost occs = m.tile_content@[tile as int]@;
            let mut k: usize = 0;
            while k < olen
                invariant
                    world.wf(),
                    m.wf(),
                    n == old(world).n(),
                    world.n() == n,
                    e < n,
                    k <= olen,
                    tile < 3440,
                    moved(*old(world), e as int),
                    tile == tile_of(*old(world), e as int),
                    occs == m.tile_content@[tile as int]@,
                    olen == occs.len(),
                    forall|t: int, k2: int|
                        0 <= t < 3440 && 0 <= k2 < m.tile_content@[t].len()
                            ==> (#[trigger] m.tile_content@[t]@[k2]) < n,
                    *world == (World {
                        hidden: world.hidden,
                        suffer_damage: world.suffer_damage,
                        pending_delete: world.pending_delete,
                        ..*old(world)
                    }),
                    forall|o: int|
                        0 <= o < n ==> (#[trigger] world.hidden@[o]) == (w_iter.hidden@[o] && !(
                        exists|k2: int|
                            0 <= k2 < k && occs[k2] == o && o != e && old(world).entry_trigger@[o])),
                    forall|e2: int|
                        0 <= e2 < n && e2 != e ==> (#[trigger] world.suffer_damage@[e2])
                            == w_iter.suffer_damage@[e2],
                    amounts_of(*world, e as int) =~= amounts_of(w_iter, e as int)
                        + trap_damages_upto(*old(world), *m, e as int, k as int),
                    w_iter.pending_delete@.is_prefix_of(world.pending_delete@),
                    forall|o: int|
                        0 <= o < n && (exists|k2: int|
                            0 <= k2 < k && occs[k2] == o && o != e && old(world).entry_trigger@[o]) && old(world).triggers_once@[o]
                            ==> world.pending_delete@.contains(o as usize),
                    log_extended(*old(log), *log),
                    log_extended(log_outer, *log),
                    forall|o: int|
                        #![trigger old(world).entry_trigger@[o]]
                        0 <= o < n && triggered(*old(world), *m, o, e as int)
                            ==> log.entries@.contains(LogEvent::Triggered { entity: o as usize }),
                    forall|o: int|
                        #![trigger old(world).entry_trigger@[o]]
                        0 <= o < n && (exists|k2: int|
                            0 <= k2 < k && #[trigger] occs[k2] == o && o != e && old(world).entry_trigger@[o])
                            ==> log.entries@.contains(LogEvent::Triggered { entity: o as usize }),
                decreases olen - k,
            {
                let ghost w_in = *world;
                let ghost log_in = *log;
                let o = m.tile_content[tile][k];
                if o != e && world.entry_trigger[o] {
                    log.push(LogEvent::Triggered { entity: o });
                    proof {
                        assert(log.entries@[log.entries@.len() - 1] == LogEvent::Triggered {
                            entity: o,
                        });
                    }
                    world.hidden.set(o, false);
                    match world.inflicts_damage[o] {
                        Some(d) => {
                            add_damage(world, e, d.damage);
                        },
                        None => {},
                    }
                    if world.triggers_once[o] {
                        world.delete_entity(o);
                        proof {
                            assert(world.pending_delete@[world.pending_delete@.len() - 1] == o);
                        }
                    }
                }
                proof {
                    assert forall|o2: int|
                        0 <= o2 < n implies (#[trigger] world.hidden@[o2]) == (w_iter.hidden@[o2]
                        && !(exists|k2: int|
                        0 <= k2 < k + 1 && occs[k2] == o2 && o2 != e && old(world).entry_trigger@[o2])) by {
                        if o2 == o as int && o != e && old(world).entry_trigger@[o as int] {
                            assert(occs[k as int] == o2 && o2 != e);
                        } else {
                            if exists|k2: int|
                                0 <= k2 < k && occs[k2] == o2 && o2 != e && old(world).entry_trigger@[o2] {
                                let k2 = choose|k2: int|
                                    0 <= k2 < k && #[trigger] occs[k2] == o2 && o2 != e && old(world).entry_trigger@[o2];
                                assert(0 <= k2 < k + 1 && occs[k2] == o2);
                            }
                            if exists|k2: int|
                                0 <= k2 < k + 1 && occs[k2] == o2 && o2 != e && old(world).entry_trigger@[o2] {
                                let k2 = choose|k2: int|
                                    0 <= k2 < k + 1 && #[trigger] occs[k2] == o2 && o2 != e && old(world).entry_trigger@[o2];
                                if k2 == k as int {
                                    assert(o2 == o as int);
                                }
                            }
                        }
                    }
                    assert forall|o2: int|
                        #![trigger old(world).entry_trigger@[o2]]
                        0 <= o2 < n && (exists|k2: int|
                            0 <= k2 < k + 1 && #[trigger] occs[k2] == o2 && o2 != e && old(world).entry_trigger@[o2]) implies log.entries@.contains(
                        LogEvent::Triggered { entity: o2 as usize },
                    ) by {
                        let k2 = choose|k2: int|
                            0 <= k2 < k + 1 && #[trigger] occs[k2] == o2 && o2 != e && old(world).entry_trigger@[o2];
                        if k2 < k {
                            let ev = LogEvent::Triggered { entity: o2 as usize };
                            assert(log_in.entries@.contains(ev));
                            let j = choose|j: int|
                                0 <= j < log_in.entries@.len() && log_in.entries@[j] == ev;
                            assert(log.entries@.take(log_in.entries@.len() as int)
                                =~= log_in.entries@);
                            assert(log.entries@[j] == ev);
                        } else {
                            assert(o2 == o as int);
                        }
                    }
                    assert forall|o2: int|
                        #![trigger old(world).entry_trigger@[o2]]
                        0 <= o2 < n && triggered(*old(world), *m, o2, e as int) implies log.entries@.contains(
                        LogEvent::Triggered { entity: o2 as usize },
                    ) by {
                        let ev = LogEvent::Triggered { entity: o2 as usize };
                        assert(log_in.entries@.contains(ev));
                        let j = choose|j: int|
                            0 <= j < log_in.entries@.len() && log_in.entries@[j] == ev;
                        assert(log.entries@.take(log_in.entries@.len() as int)
                            =~= log_in.entries@);
                        assert(log.entries@[j] == ev);
                    }
                    assert forall|o2: int|
                        0 <= o2 < n && (exists|k2: int|
                            0 <= k2 < k + 1 && occs[k2] == o2 && o2 != e && old(world).entry_trigger@[o2]) && old(world).triggers_once@[o2] implies world.pending_delete@.contains(
                        o2 as usize,
                    ) by {
                        let k2 = choose|k2: int|
                            0 <= k2 < k + 1 && #[trigger] occs[k2] == o2 && o2 != e && old(world).entry_trigger@[o2];
                        if k2 < k {
                            assert(w_in.pending_delete@.contains(o2 as usize));
                            let j = choose|j: int|
                                0 <= j < w_in.pending_delete@.len() && w_in.pending_delete@[j]
                                    == o2 as usize;
                            assert(world.pending_delete@[j] == o2 as usize);
                        } else {
                            assert(o2 == o as int);
                        }
                    }
                }
                k = k + 1;
            }
            proof {
                assert(trap_damages_upto(*old(world), *m, e as int, olen as int) == trap_damages(
                    *old(world),
                    *m,
                    e as int,
                ));
            }
        }
        proof {
            assert forall|e2: int|
                0 <= e2 < n implies amounts_of(*world, e2) =~= amounts_of(*old(world), e2) + (
            if moved(*old(world), e2) && e2 < e + 1 {
                trap_damages(*old(world), *m, e2)
            } else {
                Seq::empty()
            }) by {
                if e2 == e as int && is_mover {
                    assert(amounts_of(w_iter, e2) =~= amounts_of(*old(world), e2));
                } else {
                    assert(world.suffer_damage@[e2] == w_iter.suffer_damage@[e2]);
                    assert(amounts_of(*world, e2) == amounts_of(w_iter, e2));
                }
            }
            assert forall|o: int|
                0 <= o < n implies (#[trigger] world.hidden@[o]) == (old(world).hidden@[o]
                && !triggered(*old(world), *m, o, e + 1)) by {
                if is_mover {
                    let occs2 = m.tile_content@[tile_of(*old(world), e as int)]@;
                    if sets_off(*old(world), *m, e as int, o) {
                        let k2 = choose|k2: int|
                            0 <= k2 < occs2.len() && #[trigger] occs2[k2] == o as usize;
                        assert(occs2[k2] == o && o != e && old(world).entry_trigger@[o]);
                    }
                    if exists|k2: int|
                        0 <= k2 < occs2.len() && occs2[k2] == o && o != e && old(world).entry_trigger@[o] {
                        let k2 = choose|k2: int|
                            0 <= k2 < occs2.len() && #[trigger] occs2[k2] == o && o != e && old(world).entry_trigger@[o];
                        assert(occs2.contains(o as usize));
                        assert(sets_off(*old(world), *m, e as int, o));
                    }
                }
                if triggered(*old(world), *m, o, e + 1) {
                    let e2 = choose|e2: int|
                        0 <= e2 < e + 1 && #[trigger] sets_off(*old(world), *m, e2, o);
                    if e2 < e {
                        assert(triggered(*old(world), *m, o, e as int));
                    } else {
                        assert(sets_off(*old(world), *m, e as int, o));
                        assert(is_mover);
                    }
                }
                if triggered(*old(world), *m, o, e as int) {
                    let e2 = choose|e2: int|
                        0 <= e2 < e && #[trigger] sets_off(*old(world), *m, e2, o);
                    assert(0 <= e2 < e + 1 && sets_off(*old(world), *m, e2, o));
                    assert(triggered(*old(world), *m, o, e + 1));
                }
            }
            assert forall|o: int|
                #![trigger old(world).entry_trigger@[o]]
                0 <= o < n && triggered(*old(world), *m, o, e + 1) implies log.entries@.contains(
                LogEvent::Triggered { entity: o as usize },
            ) by {
                let e2 = choose|e2: int|
                    0 <= e2 < e + 1 && #[trigger] sets_off(*old(world), *m, e2, o);
                if e2 < e {
                    let ev = LogEvent::Triggered { entity: o as usize };
                    assert(log_outer.entries@.contains(ev));
                    let j = choose|j: int|
                        0 <= j < log_outer.entries@.len() && log_outer.entries@[j] == ev;
                    assert(log.entries@.take(log_outer.entries@.len() as int)
                        =~= log_outer.entries@);
                    assert(log.entries@[j] == ev);
                } else {
                    assert(is_mover);
                    let occs2 = m.tile_content@[tile_of(*old(world), e as int)]@;
                    let k2 = choose|k2: int| 0 <= k2 < occs2.len() && occs2[k2] == o as usize;
                }
            }
            assert forall|o: int|
                0 <= o < n && triggered(*old(world), *m, o, e + 1) && old(world).triggers_once@[o] implies world.pending_delete@.contains(o as usize) by {
                let e2 = choose|e2: int|
                    0 <= e2 < e + 1 && #[trigger] sets_off(*old(world), *m, e2, o);
                if e2 < e {
                    assert(w_iter.pending_delete@.contains(o as usize));
                    let j = choose|j: int|
                        0 <= j < w_iter.pending_delete@.len() && w_iter.pending_delete@[j]
                            == o as usize;
                    assert(world.pending_delete@[j] == o as usize);
                } else {
                    let occs2 = m.tile_content@[tile_of(*old(world), e as int)]@;
                    let k2 = choose|k2: int| 0 <= k2 < occs2.len() && occs2[k2] == o as usize;
                }
            }
        }
        e = e + 1;
    }
    // Clear the moved markers.
    let ghost w_mid = *world;
    let mut e2: usize = 0;
    while e2 < n
        invariant
            world.wf(),
            n == world.n(),
            n == old(world).n(),
            e2 <= n,
            *world == (World { entity_moved: world.entity_moved, ..w_mid }),
            forall|e3: int| 0 <= e3 < e2 ==> !(#[trigger] world.entity_moved@[e3]),
        decreases n - e2,
    {
        world.entity_moved.set(e2, false);
        e2 = e2 + 1;
    }
    proof {
        assert forall|o: int|
            0 <= o < old(world).n() implies (#[trigger] world.hidden@[o]) == (old(world).hidden@[o]
            && !triggered(*old(world), *m, o, old(world).n())) by {
            assert(world.hidden@[o] == w_mid.hidden@[o]);
        }
        assert forall|e3: int|
            0 <= e3 < old(world).n() implies amounts_of(*world, e3) =~= amounts_of(
            *old(world),
            e3,
        ) + (
        if moved(*old(world), e3) {
            trap_damages(*old(world), *m, e3)
        } else {
            Seq::empty()
        }) by {
            assert(world.suffer_damage@ == w_mid.suffer_damage@);
            assert(amounts_of(*world, e3) == amounts_of(w_mid, e3));
        }
        assert forall|o: int|
            0 <= o < old(world).n() && triggered(*old(world), *m, o, old(world).n()) && old(world).triggers_once@[o] implies world.pending_delete@.contains(o as usize) by {
            assert(w_mid.pending_delete@.contains(o as usize));
            let j = choose|j: int|
                0 <= j < w_mid.pending_delete@.len() && w_mid.pending_delete@[j] == o as usize;
            assert(world.pending_delete@[j] == o as usize);
        }
    }
}

} // verus!

//! The item-use pass: resolves an item's target set, then applies in
//! sequence equip (with slot swap), drink, heal, damage and confusion,
//! and finally consumes the item — unless its only resolved effect was
//! equipping, which never consumes.

use vstd::prelude::*;
use crate::components::{
    Entity, Equipped, InBackpack, ThirstClock, ThirstState, CombatStats, Confusion, STAT_MAX,
};
use crate::world::World;
use crate::map::{GameMap, spec_idx, spec_x, spec_y};
use crate::fov::{field_of_view, spec_visible};
use crate::gamelog::{GameLog, LogEvent, log_extended};
use crate::systems::damage::{amounts_of, add_damage};
use crate::systems::thirst::THIRST_RESET_DRINK;

verus! {

/// The occupant lists are a sound index for a world of `n` entities:
/// entries are entities, no tile lists an occupant twice, and no entity
/// stands on two tiles.
pub open spec fn occupants_wf(m: GameMap, n: int) -> bool {
    &&& forall|t: int, k: int|
        0 <= t < 3440 && 0 <= k < m.tile_content@[t].len() ==> (#[trigger] m.tile_content@[t]@[k])
            < n
    &&& forall|t: int| 0 <= t < 3440 ==> (#[trigger] m.tile_content@[t])@.no_duplicates()
    &&& forall|t1: int, t2: int, ent: usize|
        0 <= t1 < 3440 && 0 <= t2 < 3440 && #[trigger] m.tile_content@[t1]@.contains(ent)
            && #[trigger] m.tile_content@[t2]@.contains(ent) ==> t1 == t2
}

/// Entity `ent` occupies a tile visible from `(px, py)` within `r`.
pub open spec fn on_visible_tile(m: GameMap, px: int, py: int, r: int, ent: usize) -> bool {
    exists|t: int|
        0 <= t < 3440 && spec_visible(m, px, py, r, spec_x(t), spec_y(t))
            && #[trigger] m.tile_content@[t]@.contains(ent)
}

/// The resolved target set of the intent `user` carries: the user itself
/// when no point is given; the occupants of the target tile; or, for an
/// area effect, the occupants of every tile visible from the target point
/// within the blast radius.
pub open spec fn targets_ok(w: World, m: GameMap, user: int, ts: Seq<usize>) -> bool {
    let item = w.wants_to_use@[user]->0.item as int;
    match w.wants_to_use@[user]->0.target {
        None => ts =~= seq![user as usize],
        Some(p) => {
            if !GameMap::spec_in_bounds(p.x as int, p.y as int) {
                ts.len() == 0
            } else if w.area_of_effect@[item] is None {
                ts =~= m.tile_content@[spec_idx(p.x as int, p.y as int)]@
            } else {
                let r = w.area_of_effect@[item]->0.radius as int;
                &&& forall|k: int|
                    0 <= k < ts.len() ==> on_visible_tile(
                        m,
                        p.x as int,
                        p.y as int,
                        r,
                        #[trigger] ts[k],
                    )
                &&& forall|ent: usize|
                    on_visible_tile(m, p.x as int, p.y as int, r, ent) ==> ts.contains(ent)
            }
        },
    }
}

/// Resolves the target set of `user`'s use intent.
pub fn resolve_targets(world: &World, m: &GameMap, user: usize) -> (ts: Vec<usize>)
    requires
        world.wf(),
        m.wf(),
        occupants_wf(*m, world.n()),
        user < world.n(),
        world.wants_to_use@[user as int] is Some,
    ensures
        targets_ok(*world, *m, user as int, ts@),
        ts@.no_duplicates(),
        forall|k: int| 0 <= k < ts.len() ==> (#[trigger] ts@[k]) < world.n(),
{
    let intent = match world.wants_to_use[user] {
        Some(i) => i,
        None => {
            return Vec::new();
        },
    };
    let item = intent.item;
    match intent.target {
        None => {
            let mut ts: Vec<usize> = Vec::new();
            ts.push(user);
            ts
        },
        Some(p) => {
            if !(0 <= p.x && p.x < 80 && 0 <= p.y && p.y < 43) {
                return Vec::new();
            }
            let has_aoe = match world.area_of_effect[item] {
                Some(_) => true,
                None => false,
            };
            if !has_aoe {
                let idx = m.xy_idx(p.x, p.y);
                let mut ts: Vec<usize> = Vec::new();
                let olen = m.tile_content[idx].len();
                let mut k: usize = 0;
                while k < olen
                    invariant
                        m.wf(),
                        world.wf(),
                        occupants_wf(*m, world.n()),
                        idx < 3440,
                        olen == m.tile_content@[idx as int].len(),
                        k <= olen,
                        ts@ =~= m.tile_content@[idx as int]@.take(k as int),
                    decreases olen - k,
                {
                    let v = m.tile_content[idx][k];
                    ts.push(v);
                    proof {
                        assert(ts@ =~= m.tile_content@[idx as int]@.take(k + 1));
                    }
                    k = k + 1;
                }
                proof {
                    assert(ts@ =~= m.tile_content@[idx as int]@);
                    assert(m.tile_content@[idx as int]@.no_duplicates());
                }
                ts
            } else {
                let radius = match world.area_of_effect[item] {
                    Some(a) => a.radius,
                    None => 0,
                };
                let vt = field_of_view(m, p.x, p.y, radius);
                let ghost r = radius as int;
                let mut ts: Vec<usize> = Vec::new();
                let mut k: usize = 0;
                while k < vt.len()
                    invariant
                        m.wf(),
                        world.wf(),
                        occupants_wf(*m, world.n()),
                        0 <= p.x < 80,
                        0 <= p.y < 43,
                        0 <= radius <= 20,
                        r == radius as int,
                        k <= vt.len(),
                        vt@.no_duplicates(),
                        forall|j: int|
                            0 <= j < vt.len() ==> (#[trigger] vt@[j]) < 3440 && spec_visible(
                                *m,
                                p.x as int,
                                p.y as int,
                                r,
                                spec_x(vt@[j] as int),
                                spec_y(vt@[j] as int),
                            ),
                        forall|tx: int, ty: int|
                            spec_visible(*m, p.x as int, p.y as int, r, tx, ty) ==> vt@.contains(
                                spec_idx(tx, ty) as usize,
                            ),
                        ts@.no_duplicates(),
                        forall|j: int|
                            0 <= j < ts.len() ==> (#[trigger] ts@[j]) < world.n(),
                        forall|j: int|
                            0 <= j < ts.len() ==> exists|j2: int|
                                0 <= j2 < k && m.tile_content@[(#[trigger] vt@[j2]) as int]@.contains(
                                    #[trigger] ts@[j],
                                ),
                        forall|j2: int, ent: usize|
                            0 <= j2 < k && #[trigger] m.tile_content@[vt@[j2] as int]@.contains(
                                ent,
                            ) ==> ts@.contains(ent),
                    decreases vt.len() - k,
                {
                    let t = vt[k];
                    let olen = m.tile_content[t].len();
                    let mut o: usize = 0;
                    while o < olen
                        invariant
                            m.wf(),
                            world.wf(),
                            occupants_wf(*m, world.n()),
                            k < vt.len(),
                            t == vt@[k as int],
                            t < 3440,
                            olen == m.tile_content@[t as int].len(),
                            o <= olen,
                            vt@.no_duplicates(),
                            ts@.no_duplicates(),
                            forall|j: int|
                                0 <= j < ts.len() ==> (#[trigger] ts@[j]) < world.n(),
                            forall|j: int|
                                0 <= j < ts.len() ==> exists|j2: int|
                                    0 <= j2 < k + 1 && m.tile_content@[(#[trigger] vt@[j2]) as int]@.contains(
                                        #[trigger] ts@[j],
                                    ),
                            forall|j2: int, ent: usize|
                                0 <= j2 < k && #[trigger] m.tile_content@[vt@[j2] as int]@.contains(
                                    ent,
                                ) ==> ts@.contains(ent),
                            forall|o2: int|
                                0 <= o2 < o ==> ts@.contains(
                                    #[trigger] m.tile_content@[t as int]@[o2],
                                ),
                        decreases olen - o,
                    {
                        let ent = m.tile_content[t][o];
                        let ghost ts0 = ts@;
                        let mut already = false;
                        let mut j: usize = 0;
                        while j < ts.len()
                            invariant
                                j <= ts.len(),
                                ts@ == ts0,
                                already == ts0.take(j as int).contains(ent),
                            decreases ts.len() - j,
                        {
                            let ghost j0 = j as int;
                            if ts[j] == ent {
                                already = true;
                            }
                            proof {
                                if ts0[j0] == ent {
                                    assert(ts0.take(j0 + 1)[j0] == ent);
                                } else {
                                    if ts0.take(j0).contains(ent) {
                                        let jj = choose|jj: int|
                                            0 <= jj < j0 && #[trigger] ts0.take(j0)[jj] == ent;
                                        assert(ts0.take(j0 + 1)[jj] == ent);
                                    }
                                    if ts0.take(j0 + 1).contains(ent) {
                                        let jj = choose|jj: int|
                                            0 <= jj < j0 + 1 && #[trigger] ts0.take(j0 + 1)[jj]
                                                == ent;
                                        if jj < j0 {
                                            assert(ts0.take(j0)[jj] == ent);
                                        }
                                    }
                                }
                            }
                            j = j + 1;
                        }
                        proof {
                            assert(ts0.take(ts0.len() as int) =~= ts0);
                        }
                        if !already {
                            ts.push(ent);
                            proof {
                                assert(m.tile_content@[t as int]@.contains(ent)) by {
                                    assert(m.tile_content@[t as int]@[o as int] == ent);
                                }
                                assert forall|i1: int, i2: int|
                                    0 <= i1 < ts@.len() && 0 <= i2 < ts@.len() && i1 != i2 implies
                                    ts@[i1] != ts@[i2] by {
                                    if i1 < ts0.len() && i2 < ts0.len() {
                                        assert(ts0.no_duplicates());
                                    } else if i2 == ts0.len() && i1 < ts0.len() {
                                        assert(ts0.contains(ts0[i1]));
                                    } else if i1 == ts0.len() && i2 < ts0.len() {
                                        assert(ts0.contains(ts0[i2]));
                                    }
                                }
                                assert forall|j: int|
                                    0 <= j < ts@.len() implies exists|j2: int|
                                        0 <= j2 < k + 1 && m.tile_content@[(#[trigger] vt@[j2]) as int]@.contains(
                                            #[trigger] ts@[j],
                                        ) by {
                                    if j < ts0.len() {
                                        let j2 = choose|j2: int|
                                            0 <= j2 < k + 1 && m.tile_content@[(#[trigger] vt@[j2]) as int]@.contains(
                                                ts0[j],
                                            );
                                        assert(m.tile_content@[vt@[j2] as int]@.contains(ts@[j]));
                                    } else {
                                        assert(m.tile_content@[vt@[k as int] as int]@.contains(
                                            ts@[j],
                                        ));
                                    }
                                }
                            }
                        }
                        proof {
                            assert forall|o2: int|
                                0 <= o2 < o + 1 implies ts@.contains(
                                #[trigger] m.tile_content@[t as int]@[o2],
                            ) by {
                                if o2 < o {
                                    assert(ts0.contains(m.tile_content@[t as int]@[o2]));
                                    let jj = choose|jj: int|
                                        0 <= jj < ts0.len() && #[trigger] ts0[jj]
                                            == m.tile_content@[t as int]@[o2];
                                    assert(ts@[jj] == m.tile_content@[t as int]@[o2]);
                                } else {
                                    if already {
                                        assert(ts0.contains(ent));
                                        let jj = choose|jj: int|
                                            0 <= jj < ts0.len() && #[trigger] ts0[jj] == ent;
                                        assert(ts@[jj] == ent);
                                    } else {
                                        assert(ts@[ts@.len() - 1] == ent);
                                    }
                                }
                            }
                        }
                        proof {
                            assert forall|j2: int, ent2: usize|
                                0 <= j2 < k && #[trigger] m.tile_content@[vt@[j2] as int]@.contains(
                                    ent2,
                                ) implies ts@.contains(ent2) by {
                                assert(ts0.contains(ent2));
                                let jj = choose|jj: int|
                                    0 <= jj < ts0.len() && #[trigger] ts0[jj] == ent2;
                                assert(ts@[jj] == ent2);
                            }
                        }
                        o = o + 1;
                    }
                    proof {
                        assert forall|j2: int, ent: usize|
                            0 <= j2 < k + 1 && #[trigger] m.tile_content@[vt@[j2] as int]@.contains(
                                ent,
                            ) implies ts@.contains(ent) by {
                            if j2 == k as int {
                                let oo = choose|oo: int|
                                    0 <= oo < m.tile_content@[t as int]@.len()
                                        && #[trigger] m.tile_content@[t as int]@[oo] == ent;
                                assert(ts@.contains(m.tile_content@[t as int]@[oo]));
                            }
                        }
                    }
                    k = k + 1;
                }
                proof {
                    assert forall|j: int|
                        0 <= j < ts@.len() implies on_visible_tile(
                        *m,
                        p.x as int,
                        p.y as int,
                        r,
                        #[trigger] ts@[j],
                    ) by {
                        let j2 = choose|j2: int|
                            0 <= j2 < vt@.len() && m.tile_content@[(#[trigger] vt@[j2]) as int]@.contains(
                                ts@[j],
                            );
                        assert(0 <= vt@[j2] < 3440 && spec_visible(
                            *m,
                            p.x as int,
                            p.y as int,
                            r,
                            spec_x(vt@[j2] as int),
                            spec_y(vt@[j2] as int),
                        ));
                    }
                    assert forall|ent: usize|
                        on_visible_tile(*m, p.x as int, p.y as int, r, ent) implies ts@.contains(
                        ent,
                    ) by {
                        let t2 = choose|t2: int|
                            0 <= t2 < 3440 && spec_visible(
                                *m,
                                p.x as int,
                                p.y as int,
                                r,
                                spec_x(t2),
                                spec_y(t2),
                            ) && #[trigger] m.tile_content@[t2]@.contains(ent);
                        vstd::arithmetic::div_mod::lemma_fundamental_div_mod(t2, 80);
                        assert(t2 == spec_idx(spec_x(t2), spec_y(t2)));
                        assert(vt@.contains(t2 as usize));
                        let j2 = choose|j2: int| 0 <= j2 < vt@.len() && #[trigger] vt@[j2] == t2 as usize;
                        assert(m.tile_content@[vt@[j2] as int]@.contains(ent));
                    }
                }
                ts
            }
        },
    }
}

/// The smaller of two integers.
pub open spec fn spec_imin(a: int, b: int) -> int {
    if a < b {
        a
    } else {
        b
    }
}

/// The equip effect: when the item is equippable and a first target
/// exists, the item ends up equipped by that target (leaving the
/// backpack), anything the target had in the same slot is swapped back to
/// its backpack, and nothing else in those two tables moves.
pub open spec fn equip_effect(w0: World, w1: World, item: int, ts: Seq<usize>) -> bool {
    if w0.equippable@[item] is Some && ts.len() > 0 {
        let slot = w0.equippable@[item]->0.slot;
        let t0 = ts[0];
        &&& w1.equipped@[item] == Some(Equipped { owner: t0, slot })
        &&& w1.in_backpack@[item] is None
        &&& forall|j: int|
            0 <= j < w0.n() && j != item ==> (
            if w0.equipped@[j] is Some && w0.equipped@[j]->0.owner == t0
                && w0.equipped@[j]->0.slot == slot {
                (#[trigger] w1.equipped@[j]) is None && w1.in_backpack@[j] == Some(
                    InBackpack { owner: t0 },
                )
            } else {
                w1.equipped@[j] == w0.equipped@[j] && w1.in_backpack@[j] == w0.in_backpack@[j]
            })
    } else {
        w1.equipped@ == w0.equipped@ && w1.in_backpack@ == w0.in_backpack@
    }
}

/// The drink effect: a water-providing item resets the first target's
/// thirst clock to a quenched state with the fixed drink duration.
pub open spec fn drink_effect(w0: World, w1: World, item: int, ts: Seq<usize>) -> bool {
    if w0.provides_water@[item] && ts.len() > 0 {
        &&& forall|j: int|
            0 <= j < w0.n() && j != ts[0] ==> (#[trigger] w1.thirst_clock@[j])
                == w0.thirst_clock@[j]
        &&& (if w0.thirst_clock@[ts[0] as int] is Some {
            w1.thirst_clock@[ts[0] as int] == Some(
                ThirstClock { state: ThirstState::Quenched, duration: THIRST_RESET_DRINK },
            )
        } else {
            w1.thirst_clock@[ts[0] as int] == w0.thirst_clock@[ts[0] as int]
        })
    } else {
        w1.thirst_clock@ == w0.thirst_clock@
    }
}

/// The heal effect: every target with combat stats has its hit points
/// raised by the heal amount, clamped to its maximum.
pub open spec fn heal_effect(w0: World, w1: World, item: int, ts: Seq<usize>) -> bool {
    if w0.provides_healing@[item] is Some {
        let h = w0.provides_healing@[item]->0.heal_amount as int;
        forall|j: int|
            0 <= j < w0.n() ==> (
            if ts.contains(j as usize) && w0.combat_stats@[j] is Some {
                (#[trigger] w1.combat_stats@[j]) == Some(
                    CombatStats {
                        hp: spec_imin(
                            w0.combat_stats@[j]->0.hp + h,
                            w0.combat_stats@[j]->0.max_hp as int,
                        ) as i32,
                        ..w0.combat_stats@[j]->0
                    },
                )
            } else {
                w1.combat_stats@[j] == w0.combat_stats@[j]
            })
    } else {
        w1.combat_stats@ == w0.combat_stats@
    }
}

/// The damage effect: every target has the item's damage queued against
/// it, once.
pub open spec fn damage_effect(w0: World, w1: World, item: int, ts: Seq<usize>) -> bool {
    if w0.inflicts_damage@[item] is Some {
        let d = w0.inflicts_damage@[item]->0.damage;
        forall|j: int|
            0 <= j < w0.n() ==> amounts_of(w1, j) =~= amounts_of(w0, j) + (
            if ts.contains(j as usize) {
                seq![d]
            } else {
                Seq::<i32>::empty()
            })
    } else {
        w1.suffer_damage@ == w0.suffer_damage@
    }
}

/// The confusion effect: every target gains the item's confusion status.
pub open spec fn confuse_effect(w0: World, w1: World, item: int, ts: Seq<usize>) -> bool {
    if w0.confusion@[item] is Some {
        let c = w0.confusion@[item]->0;
        forall|j: int|
            0 <= j < w0.n() ==> (
            if ts.contains(j as usize) {
                (#[trigger] w1.confusion@[j]) == Some(c)
            } else {
                w1.confusion@[j] == w0.confusion@[j]
            })
    } else {
        w1.confusion@ == w0.confusion@
    }
}

/// An effect other than equipping resolved: drink, heal, damage,
/// confusion or the magic map. Only then is a consumable item spent.
pub open spec fn spec_used(w0: World, item: int, ts: Seq<usize>) -> bool {
    ||| (w0.provides_water@[item] && ts.len() > 0)
    ||| (w0.provides_healing@[item] is Some && exists|k: int|
        0 <= k < ts.len() && w0.combat_stats@[(#[trigger] ts[k]) as int] is Some)
    ||| (w0.inflicts_damage@[item] is Some && ts.len() > 0)
    ||| (w0.confusion@[item] is Some && ts.len() > 0)
    ||| w0.magic_mapper@[item]
}

/// Everything using one item does, relative to some resolved target set:
/// the five effects, and the consumption rule — a consumable item is
/// deleted exactly when an effect other than equipping resolved.
pub open spec fn use_effect(
    w0: World,
    w1: World,
    m: GameMap,
    user: int,
    mapped: bool,
) -> bool {
    let item = w0.wants_to_use@[user]->0.item as int;
    exists|ts: Seq<usize>|
        {
            &&& #[trigger] targets_ok(w0, m, user, ts)
            &&& ts.no_duplicates()
            &&& forall|k: int| 0 <= k < ts.len() ==> (#[trigger] ts[k]) < w0.n()
            &&& equip_effect(w0, w1, item, ts)
            &&& drink_effect(w0, w1, item, ts)
            &&& heal_effect(w0, w1, item, ts)
            &&& damage_effect(w0, w1, item, ts)
            &&& confuse_effect(w0, w1, item, ts)
            &&& w1.pending_delete@ == w0.pending_delete@ + (
            if w0.consumable@[item] && spec_used(w0, item, ts) {
                seq![item as usize]
            } else {
                Seq::<usize>::empty()
            })
            &&& mapped == w0.magic_mapper@[item]
        }
}

/// Equips `item` on `t0`, swapping out anything in the same slot.
fn equip_phase(world: &mut World, item: usize, t0: usize, player: usize, log: &mut GameLog)
    requires
        old(world).wf(),
        item < old(world).n(),
        t0 < old(world).n(),
        old(world).equippable@[item as int] is Some,
    ensures
        final(world).wf(),
        final(world).n() == old(world).n(),
        *final(world) == (World {
            equipped: final(world).equipped,
            in_backpack: final(world).in_backpack,
            ..*old(world)
        }),
        final(world).equipped@[item as int] == Some(
            Equipped { owner: t0, slot: old(world).equippable@[item as int]->0.slot },
        ),
        final(world).in_backpack@[item as int] is None,
        forall|j: int|
            0 <= j < old(world).n() && j != item ==> (
            if old(world).equipped@[j] is Some && old(world).equipped@[j]->0.owner == t0 && old(world).equipped@[j]->0.slot == old(world).equippable@[item as int]->0.slot {
                (#[trigger] final(world).equipped@[j]) is None && final(world).in_backpack@[j]
                    == Some(InBackpack { owner: t0 })
            } else {
                final(world).equipped@[j] == old(world).equipped@[j] && final(world).in_backpack@[j] == old(world).in_backpack@[j]
            }),
        log_extended(*old(log), *final(log)),
{
    let n = world.alive.len();
    let slot = match world.equippable[item] {
        Some(q) => q.slot,
        None => crate::components::EquipmentSlot::Melee,
    };
    let mut j: usize = 0;
    while j < n
        invariant
            world.wf(),
            n == old(world).n(),
            world.n() == n,
            j <= n,
            item < n,
            t0 < n,
            old(world).equippable@[item as int] is Some,
            slot == old(world).equippable@[item as int]->0.slot,
            *world == (World {
                equipped: world.equipped,
                in_backpack: world.in_backpack,
                ..*old(world)
            }),
            forall|j2: int|
                0 <= j2 < n && (j2 >= j || j2 == item) ==> (#[trigger] world.equipped@[j2]) == old(world).equipped@[j2] && world.in_backpack@[j2] == old(world).in_backpack@[j2],
            forall|j2: int|
                0 <= j2 < j && j2 != item ==> (
                if old(world).equipped@[j2] is Some && old(world).equipped@[j2]->0.owner == t0
                    && old(world).equipped@[j2]->0.slot == slot {
                    (#[trigger] world.equipped@[j2]) is None && world.in_backpack@[j2] == Some(
                        InBackpack { owner: t0 },
                    )
                } else {
                    world.equipped@[j2] == old(world).equipped@[j2] && world.in_backpack@[j2]
                        == old(world).in_backpack@[j2]
                }),
            log_extended(*old(log), *log),
        decreases n - j,
    {
        let ghost w0 = *world;
        if j != item {
            let mut swap = false;
            match world.equipped[j] {
                Some(q) => {
                    if q.owner == t0 && q.slot == slot {
                        swap = true;
                    }
                },
                None => {},
            }
            if swap {
                world.equipped.set(j, None);
                world.in_backpack.set(j, Some(InBackpack { owner: t0 }));
                if t0 == player {
                    log.push(LogEvent::Unequipped { item: j });
                }
            }
        }
        proof {
            assert forall|j2: int|
                0 <= j2 < n && (j2 >= j + 1 || j2 == item) implies (
            #[trigger] world.equipped@[j2]) == old(world).equipped@[j2] && world.in_backpack@[j2]
                == old(world).in_backpack@[j2] by {
                if j as int == item {
                    assert(*world == w0);
                } else {
                    assert(j2 != j as int);
                }
                assert(w0.equipped@[j2] == old(world).equipped@[j2]);
                assert(w0.in_backpack@[j2] == old(world).in_backpack@[j2]);
            }
            assert forall|j2: int|
                0 <= j2 < j + 1 && j2 != item implies (
            if old(world).equipped@[j2] is Some && old(world).equipped@[j2]->0.owner == t0 && old(world).equipped@[j2]->0.slot == slot {
                (#[trigger] world.equipped@[j2]) is None && world.in_backpack@[j2] == Some(
                    InBackpack { owner: t0 },
                )
            } else {
                world.equipped@[j2] == old(world).equipped@[j2] && world.in_backpack@[j2] == old(world).in_backpack@[j2]
            }) by {
                if j2 < j {
                    assert(j2 != j as int);
                }
            }
        }
        j = j + 1;
    }
    world.equipped.set(item, Some(Equipped { owner: t0, slot }));
    world.in_backpack.set(item, None);
    if t0 == player {
        log.push(LogEvent::Equipped { item });
    }
}

/// Heals every target with combat stats by `h`, clamped to its maximum;
/// reports whether any target had stats.
fn heal_phase(world: &mut World, h: i32, ts: &Vec<usize>) -> (any: bool)
    requires
        old(world).wf(),
        0 <= h <= STAT_MAX,
        ts@.no_duplicates(),
        forall|k: int| 0 <= k < ts.len() ==> (#[trigger] ts@[k]) < old(world).n(),
    ensures
        final(world).wf(),
        final(world).n() == old(world).n(),
        *final(world) == (World { combat_stats: final(world).combat_stats, ..*old(world) }),
        forall|j: int|
            0 <= j < old(world).n() ==> (
            if ts@.contains(j as usize) && old(world).combat_stats@[j] is Some {
                (#[trigger] final(world).combat_stats@[j]) == Some(
                    CombatStats {
                        hp: spec_imin(
                            old(world).combat_stats@[j]->0.hp + h,
                            old(world).combat_stats@[j]->0.max_hp as int,
                        ) as i32,
                        ..old(world).combat_stats@[j]->0
                    },
                )
            } else {
                final(world).combat_stats@[j] == old(world).combat_stats@[j]
            }),
        any == exists|k: int|
            0 <= k < ts.len() && old(world).combat_stats@[(#[trigger] ts@[k]) as int] is Some,
{
    let mut any = false;
    let mut k: usize = 0;
    while k < ts.len()
        invariant
            world.wf(),
            world.n() == old(world).n(),
            k <= ts.len(),
            0 <= h <= STAT_MAX,
            ts@.no_duplicates(),
            forall|k2: int| 0 <= k2 < ts.len() ==> (#[trigger] ts@[k2]) < old(world).n(),
            *world == (World { combat_stats: world.combat_stats, ..*old(world) }),
            forall|j: int|
                0 <= j < old(world).n() ==> (
                if ts@.take(k as int).contains(j as usize) && old(world).combat_stats@[j] is Some {
                    (#[trigger] world.combat_stats@[j]) == Some(
                        CombatStats {
                            hp: spec_imin(
                                old(world).combat_stats@[j]->0.hp + h,
                                old(world).combat_stats@[j]->0.max_hp as int,
                            ) as i32,
                            ..old(world).combat_stats@[j]->0
                        },
                    )
                } else {
                    world.combat_stats@[j] == old(world).combat_stats@[j]
                }),
            any == exists|k2: int|
                0 <= k2 < k && old(world).combat_stats@[(#[trigger] ts@[k2]) as int] is Some,
        decreases ts.len() - k,
    {
        let t = ts[k];
        let ghost w0 = *world;
        proof {
            assert(!ts@.take(k as int).contains(t)) by {
                if ts@.take(k as int).contains(t) {
                    let jj = choose|jj: int| 0 <= jj < k && #[trigger] ts@.take(k as int)[jj] == t;
                    assert(ts@[jj] == ts@[k as int]);
                }
            }
        }
        match world.combat_stats[t] {
            Some(s) => {
                let new_hp = if s.hp + h < s.max_hp {
                    s.hp + h
                } else {
                    s.max_hp
                };
                world.combat_stats.set(t, Some(CombatStats { hp: new_hp, ..s }));
                any = true;
            },
            None => {},
        }
        proof {
            assert forall|j: int|
                0 <= j < old(world).n() implies (
            if ts@.take(k + 1).contains(j as usize) && old(world).combat_stats@[j] is Some {
                (#[trigger] world.combat_stats@[j]) == Some(
                    CombatStats {
                        hp: spec_imin(
                            old(world).combat_stats@[j]->0.hp + h,
                            old(world).combat_stats@[j]->0.max_hp as int,
                        ) as i32,
                        ..old(world).combat_stats@[j]->0
                    },
                )
            } else {
                world.combat_stats@[j] == old(world).combat_stats@[j]
            }) by {
                if ts@.take(k + 1).contains(j as usize) {
                    let jj = choose|jj: int|
                        0 <= jj < k + 1 && #[trigger] ts@.take(k + 1)[jj] == j as usize;
                    if jj < k {
                        assert(ts@.take(k as int)[jj] == j as usize);
                        assert(ts@.take(k as int).contains(j as usize));
                        assert(j != t as int);
                    } else {
                        assert(j == t as int);
                    }
                } else {
                    assert(!ts@.take(k as int).contains(j as usize)) by {
                        if ts@.take(k as int).contains(j as usize) {
                            let jj = choose|jj: int|
                                0 <= jj < k && #[trigger] ts@.take(k as int)[jj] == j as usize;
                            assert(ts@.take(k + 1)[jj] == j as usize);
                        }
                    }
                    assert(j != t as int) by {
                        if j == t as int {
                            assert(ts@.take(k + 1)[k as int] == t);
                        }
                    }
                }
            }
            if any && !(exists|k2: int|
                0 <= k2 < k && old(world).combat_stats@[(#[trigger] ts@[k2]) as int] is Some) {
                assert(old(world).combat_stats@[ts@[k as int] as int] is Some);
            }
        }
        k = k + 1;
    }
    proof {
        assert(ts@.take(ts.len() as int) =~= ts@);
    }
    any
}

/// Queues `d` damage against every target, once each.
fn damage_phase(world: &mut World, d: i32, ts: &Vec<usize>)
    requires
        old(world).wf(),
        0 <= d <= STAT_MAX,
        ts@.no_duplicates(),
        forall|k: int| 0 <= k < ts.len() ==> (#[trigger] ts@[k]) < old(world).n(),
    ensures
        final(world).wf(),
        final(world).n() == old(world).n(),
        *final(world) == (World { suffer_damage: final(world).suffer_damage, ..*old(world) }),
        forall|j: int|
            0 <= j < old(world).n() ==> amounts_of(*final(world), j) =~= amounts_of(
                *old(world),
                j,
            ) + (
            if ts@.contains(j as usize) {
                seq![d]
            } else {
                Seq::<i32>::empty()
            }),
{
    let mut k: usize = 0;
    while k < ts.len()
        invariant
            world.wf(),
            world.n() == old(world).n(),
            k <= ts.len(),
            0 <= d <= STAT_MAX,
            ts@.no_duplicates(),
            forall|k2: int| 0 <= k2 < ts.len() ==> (#[trigger] ts@[k2]) < old(world).n(),
            *world == (World { suffer_damage: world.suffer_damage, ..*old(world) }),
            forall|j: int|
                0 <= j < old(world).n() ==> amounts_of(*world, j) =~= amounts_of(*old(world), j)
                    + (
                if ts@.take(k as int).contains(j as usize) {
                    seq![d]
                } else {
                    Seq::<i32>::empty()
                }),
        decreases ts.len() - k,
    {
        let t = ts[k];
        let ghost w0 = *world;
        proof {
            assert(!ts@.take(k as int).contains(t)) by {
                if ts@.take(k as int).contains(t) {
                    let jj = choose|jj: int| 0 <= jj < k && #[trigger] ts@.take(k as int)[jj] == t;
                    assert(ts@[jj] == ts@[k as int]);
                }
            }
        }
        add_damage(world, t, d);
        proof {
            assert forall|j: int|
                0 <= j < old(world).n() implies amounts_of(*world, j) =~= amounts_of(
                *old(world),
                j,
            ) + (
            if ts@.take(k + 1).contains(j as usize) {
                seq![d]
            } else {
                Seq::<i32>::empty()
            }) by {
                if j == t as int {
                    assert(amounts_of(*world, j) == amounts_of(w0, j).push(d));
                    assert(ts@.take(k + 1)[k as int] == t);
                    assert(ts@.take(k + 1).contains(j as usize));
                    assert(amounts_of(w0, j) =~= amounts_of(*old(world), j) + Seq::<
                        i32,
                    >::empty());
                    assert(amounts_of(w0, j) =~= amounts_of(*old(world), j));
                    assert(amounts_of(*world, j) =~= amounts_of(*old(world), j) + seq![d]);
                } else {
                    assert(world.suffer_damage@[j] == w0.suffer_damage@[j]);
                    assert(amounts_of(*world, j) == amounts_of(w0, j));
                    assert(ts@.take(k + 1).contains(j as usize) == ts@.take(k as int).contains(
                        j as usize,
                    )) by {
                        if ts@.take(k + 1).contains(j as usize) {
                            let jj = choose|jj: int|
                                0 <= jj < k + 1 && #[trigger] ts@.take(k + 1)[jj] == j as usize;
                            if jj == k as int {
                                assert(j == t as int);
                            } else {
                                assert(ts@.take(k as int)[jj] == j as usize);
                            }
                        } else if ts@.take(k as int).contains(j as usize) {
                            let jj = choose|jj: int|
                                0 <= jj < k && #[trigger] ts@.take(k as int)[jj] == j as usize;
                            assert(ts@.take(k + 1)[jj] == j as usize);
                        }
                    }
                }
            }
        }
        k = k + 1;
    }
    proof {
        assert(ts@.take(ts.len() as int) =~= ts@);
    }
}

/// Applies the confusion status to every target.
fn confuse_phase(world: &mut World, c: Confusion, ts: &Vec<usize>)
    requires
        old(world).wf(),
        ts@.no_duplicates(),
        forall|k: int| 0 <= k < ts.len() ==> (#[trigger] ts@[k]) < old(world).n(),
    ensures
        final(world).wf(),
        final(world).n() == old(world).n(),
        *final(world) == (World { confusion: final(world).confusion, ..*old(world) }),
        forall|j: int|
            0 <= j < old(world).n() ==> (
            if ts@.contains(j as usize) {
                (#[trigger] final(world).confusion@[j]) == Some(c)
            } else {
                final(world).confusion@[j] == old(world).confusion@[j]
            }),
{
    let mut k: usize = 0;
    while k < ts.len()
        invariant
            world.wf(),
            world.n() == old(world).n(),
            k <= ts.len(),
            forall|k2: int| 0 <= k2 < ts.len() ==> (#[trigger] ts@[k2]) < old(world).n(),
            *world == (World { confusion: world.confusion, ..*old(world) }),
            forall|j: int|
                0 <= j < old(world).n() ==> (
                if ts@.take(k as int).contains(j as usize) {
                    (#[trigger] world.confusion@[j]) == Some(c)
                } else {
                    world.confusion@[j] == old(world).confusion@[j]
                }),
        decreases ts.len() - k,
    {
        let t = ts[k];
        world.confusion.set(t, Some(c));
        proof {
            assert forall|j: int|
                0 <= j < old(world).n() implies (
            if ts@.take(k + 1).contains(j as usize) {
                (#[trigger] world.confusion@[j]) == Some(c)
            } else {
                world.confusion@[j] == old(world).confusion@[j]
            }) by {
                if ts@.take(k + 1).contains(j as usize) {
                } else {
                    assert(!ts@.take(k as int).contains(j as usize)) by {
                        if ts@.take(k as int).contains(j as usize) {
                            let jj = choose|jj: int|
                                0 <= jj < k && #[trigger] ts@.take(k as int)[jj] == j as usize;
                            assert(ts@.take(k + 1)[jj] == j as usize);
                        }
                    }
                    assert(j != t as int) by {
                        if j == t as int {
                            assert(ts@.take(k + 1)[k as int] == t);
                        }
                    }
                }
            }
        }
        k = k + 1;
    }
    proof {
        assert(ts@.take(ts.len() as int) =~= ts@);
    }
}

/// Uses the item of `user`'s pending intent: resolves the targets, applies
/// equip, drink, heal, damage and confusion in that order, and consumes a
/// consumable item exactly when an effect other than equipping resolved.
/// Returns whether the item maps the surroundings (handled by the state
/// machine). The intent itself is left for the pass to clear.
#[verifier::rlimit(100)]
pub fn use_item(
    world: &mut World,
    m: &GameMap,
    log: &mut GameLog,
    player: usize,
    user: usize,
) -> (mapped: bool)
    requires
        old(world).wf(),
        m.wf(),
        occupants_wf(*m, old(world).n()),
        user < old(world).n(),
        old(world).wants_to_use@[user as int] is Some,
        player < old(world).n(),
    ensures
        final(world).wf(),
        final(world).n() == old(world).n(),
        *final(world) == (World {
            equipped: final(world).equipped,
            in_backpack: final(world).in_backpack,
            thirst_clock: final(world).thirst_clock,
            combat_stats: final(world).combat_stats,
            suffer_damage: final(world).suffer_damage,
            confusion: final(world).confusion,
            pending_delete: final(world).pending_delete,
            ..*old(world)
        }),
        use_effect(*old(world), *final(world), *m, user as int, mapped),
        log_extended(*old(log), *final(log)),
{
    let intent = match world.wants_to_use[user] {
        Some(i) => i,
        None => {
            return false;
        },
    };
    let item = intent.item;
    let ghost item_i = item as int;
    let ts = resolve_targets(world, m, user);
    let ghost tss = ts@;
    let ghost w0 = *world;

    // Equip.
    let can_equip = match world.equippable[item] {
        Some(_) => true,
        None => false,
    };
    if can_equip && ts.len() > 0 {
        let t0 = ts[0];
        equip_phase(world, item, t0, player, log);
    }
    let ghost w_equip = *world;
    proof {
        assert(equip_effect(w0, w_equip, item_i, tss));
    }

    // Drink.
    let provides_water = world.provides_water[item];
    if provides_water && ts.len() > 0 {
        let t0 = ts[0];
        let has_clock = match world.thirst_clock[t0] {
            Some(_) => true,
            None => false,
        };
        if has_clock {
            world.thirst_clock.set(
                t0,
                Some(ThirstClock { state: ThirstState::Quenched, duration: THIRST_RESET_DRINK }),
            );
            if t0 == player {
                log.push(LogEvent::Drank { item });
            }
        }
    }
    let ghost w_drink = *world;
    proof {
        assert(drink_effect(w0, w_drink, item_i, tss));
    }

    // Heal.
    let mut healed_any = false;
    let heal_amount = match world.provides_healing[item] {
        Some(h) => Some(h.heal_amount),
        None => None,
    };
    match heal_amount {
        Some(h) => {
            healed_any = heal_phase(world, h, &ts);
            if healed_any && user == player {
                log.push(LogEvent::Healed { item, amount: h });
            }
        },
        None => {},
    }
    let ghost w_heal = *world;
    proof {
        assert(w_heal.combat_stats.len() == w0.combat_stats.len());
        assert(heal_effect(w0, w_heal, item_i, tss)) by {
            if w0.provides_healing@[item_i] is Some {
                assert forall|j: int| 0 <= j < w0.n() implies (
                if tss.contains(j as usize) && w0.combat_stats@[j] is Some {
                    (#[trigger] w_heal.combat_stats@[j]) == Some(
                        CombatStats {
                            hp: spec_imin(
                                w0.combat_stats@[j]->0.hp + w0.provides_healing@[item_i]->0.heal_amount,
                                w0.combat_stats@[j]->0.max_hp as int,
                            ) as i32,
                            ..w0.combat_stats@[j]->0
                        },
                    )
                } else {
                    w_heal.combat_stats@[j] == w0.combat_stats@[j]
                }) by {
                    assert(w_drink.combat_stats@[j] == w0.combat_stats@[j]);
                }
            }
        }
        assert(healed_any == (w0.provides_healing@[item_i] is Some && exists|k: int|
            0 <= k < tss.len() && w0.combat_stats@[(#[trigger] tss[k]) as int] is Some));
    }

    // Damage.
    let dmg = match world.inflicts_damage[item] {
        Some(d) => Some(d.damage),
        None => None,
    };
    match dmg {
        Some(d) => {
            damage_phase(world, d, &ts);
            if user == player && ts.len() > 0 {
                log.push(LogEvent::UsedInflict { item, target: ts[0], damage: d });
            }
        },
        None => {},
    }
    let ghost w_dmg = *world;
    proof {
        assert(damage_effect(w0, w_dmg, item_i, tss)) by {
            if w0.inflicts_damage@[item_i] is Some {
                assert forall|j: int| 0 <= j < w0.n() implies amounts_of(w_dmg, j)
                    =~= amounts_of(w0, j) + (
                if tss.contains(j as usize) {
                    seq![w0.inflicts_damage@[item_i]->0.damage]
                } else {
                    Seq::<i32>::empty()
                }) by {
                    assert(w_heal.suffer_damage@[j] == w0.suffer_damage@[j]);
                    assert(amounts_of(w_heal, j) == amounts_of(w0, j));
                }
            } else {
                assert(w_dmg.suffer_damage@ == w0.suffer_damage@);
            }
        }
    }

    // Confuse.
    let conf = match world.confusion[item] {
        Some(c) => Some(c),
        None => None,
    };
    match conf {
        Some(c) => {
            confuse_phase(world, c, &ts);
            if user == player && ts.len() > 0 {
                log.push(LogEvent::UsedConfusion { item, target: ts[0] });
            }
        },
        None => {},
    }
    let ghost w_conf = *world;
    proof {
        assert(confuse_effect(w0, w_conf, item_i, tss)) by {
            if w0.confusion@[item_i] is Some {
                assert forall|j: int| 0 <= j < w0.n() implies (
                if tss.contains(j as usize) {
                    (#[trigger] w_conf.confusion@[j]) == Some(w0.confusion@[item_i]->0)
                } else {
                    w_conf.confusion@[j] == w0.confusion@[j]
                }) by {
                    assert(w_dmg.confusion@[j] == w0.confusion@[j]);
                }
            } else {
                assert(w_conf.confusion@ == w0.confusion@);
            }
        }
    }

    // Magic mapping is handled by the caller through the returned flag.
    let mapped = world.magic_mapper[item];
    if mapped {
        log.push(LogEvent::MappedSurroundings { item });
    }

    // Consume.
    let used = (provides_water && ts.len() > 0) || healed_any || (match dmg {
        Some(_) => ts.len() > 0,
        None => false,
    }) || (match conf {
        Some(_) => ts.len() > 0,
        None => false,
    }) || mapped;
    proof {
        assert(used == spec_used(w0, item_i, tss));
    }
    if used && world.consumable[item] {
        world.delete_entity(item);
    }
    proof {
        assert(equip_effect(w0, *world, item_i, tss)) by {
            assert(world.equipped@ == w_equip.equipped@ && world.in_backpack@
                == w_equip.in_backpack@);
        }
        assert(drink_effect(w0, *world, item_i, tss)) by {
            assert(world.thirst_clock@ == w_drink.thirst_clock@);
        }
        assert(heal_effect(w0, *world, item_i, tss)) by {
            assert(world.combat_stats@ == w_heal.combat_stats@);
        }
        assert(damage_effect(w0, *world, item_i, tss)) by {
            assert(world.suffer_damage@ == w_dmg.suffer_damage@);
            if w0.inflicts_damage@[item_i] is Some {
                assert forall|j: int| 0 <= j < w0.n() implies amounts_of(*world, j) =~= amounts_of(
                    w0,
                    j,
                ) + (
                if tss.contains(j as usize) {
                    seq![w0.inflicts_damage@[item_i]->0.damage]
                } else {
                    Seq::<i32>::empty()
                }) by {
                    assert(world.suffer_damage@[j] == w_dmg.suffer_damage@[j]);
                    assert(amounts_of(*world, j) == amounts_of(w_dmg, j));
                    assert(amounts_of(w_dmg, j) =~= amounts_of(w0, j) + (
                    if tss.contains(j as usize) {
                        seq![w0.inflicts_damage@[item_i]->0.damage]
                    } else {
                        Seq::<i32>::empty()
                    }));
                }
            }
        }
        assert(confuse_effect(w0, *world, item_i, tss)) by {
            assert(world.confusion@ == w_conf.confusion@);
        }
        assert(world.pending_delete@ == w0.pending_delete@ + (
        if w0.consumable@[item_i] && spec_used(w0, item_i, tss) {
            seq![item]
        } else {
            Seq::<usize>::empty()
        })) by {
            if used && w0.consumable@[item_i] {
                assert(world.pending_delete@ =~= w0.pending_delete@ + seq![item]);
            } else {
                assert(world.pending_delete@ =~= w0.pending_delete@ + Seq::<usize>::empty());
            }
        }
        assert(use_effect(w0, *world, *m, user as int, mapped));
    }
    mapped
}

/// The item-use pass: uses every entity's pending use intent, then clears
/// the intent table. Returns whether any used item maps the surroundings.
/// When a single entity (in practice the player) holds the only intent,
/// the world changes exactly as `use_effect` describes for it.
pub fn item_use_system(
    world: &mut World,
    m: &GameMap,
    log: &mut GameLog,
    player: usize,
) -> (any_mapped: bool)
    requires
        old(world).wf(),
        m.wf(),
        occupants_wf(*m, old(world).n()),
        player < old(world).n(),
    ensures
        final(world).wf(),
        final(world).n() == old(world).n(),
        *final(world) == (World {
            equipped: final(world).equipped,
            in_backpack: final(world).in_backpack,
            thirst_clock: final(world).thirst_clock,
            combat_stats: final(world).combat_stats,
            suffer_damage: final(world).suffer_damage,
            confusion: final(world).confusion,
            pending_delete: final(world).pending_delete,
            wants_to_use: final(world).wants_to_use,
            ..*old(world)
        }),
        forall|e: int| 0 <= e < old(world).n() ==> (#[trigger] final(world).wants_to_use@[e]) is None,
        log_extended(*old(log), *final(log)),
        (forall|e1: int, e2: int|
            0 <= e1 < old(world).n() && 0 <= e2 < old(world).n() && (#[trigger] old(world).wants_to_use@[e1]) is Some && (#[trigger] old(world).wants_to_use@[e2]) is Some
                ==> e1 == e2) ==> forall|u: int|
            0 <= u < old(world).n() && (#[trigger] old(world).wants_to_use@[u]) is Some
                ==> exists|w1: World|
                use_effect(*old(world), w1, *m, u, any_mapped) && #[trigger] cleared_intents(
                    w1,
                    *final(world),
                ),
{
    let n = world.alive.len();
    let mut any_mapped = false;
    let mut first_user: Option<usize> = None;
    let mut e: usize = 0;
    while e < n
        invariant
            world.wf(),
            m.wf(),
            occupants_wf(*m, old(world).n()),
            n == old(world).n(),
            world.n() == n,
            e <= n,
            player < n,
            *world == (World {
                equipped: world.equipped,
                in_backpack: world.in_backpack,
                thirst_clock: world.thirst_clock,
                combat_stats: world.combat_stats,
                suffer_damage: world.suffer_damage,
                confusion: world.confusion,
                pending_delete: world.pending_delete,
                ..*old(world)
            }),
            world.wants_to_use@ == old(world).wants_to_use@,
            log_extended(*old(log), *log),
            match first_user {
                None => *world == *old(world) && !any_mapped && forall|e2: int|
                    0 <= e2 < e ==> (#[trigger] old(world).wants_to_use@[e2]) is None,
                Some(u) => (u as int) < e && old(world).wants_to_use@[u as int] is Some && ((
                forall|e1: int, e2: int|
                    0 <= e1 < n && 0 <= e2 < n && (#[trigger] old(world).wants_to_use@[e1]) is Some
                        && (#[trigger] old(world).wants_to_use@[e2]) is Some ==> e1 == e2)
                    ==> use_effect(*old(world), *world, *m, u as int, any_mapped)),
            },
        decreases n - e,
    {
        let has_intent = match world.wants_to_use[e] {
            Some(_) => true,
            None => false,
        };
        if has_intent {
            let mapped = use_item(world, m, log, player, e);
            if mapped {
                any_mapped = true;
            }
            match first_user {
                None => {
                    first_user = Some(e);
                },
                Some(_) => {},
            }
        }
        e = e + 1;
    }
    // Clear the intents.
    let ghost w_mid = *world;
    let mut e2: usize = 0;
    while e2 < n
        invariant
            world.wf(),
            n == world.n(),
            n == old(world).n(),
            e2 <= n,
            *world == (World { wants_to_use: world.wants_to_use, ..w_mid }),
            forall|e3: int| 0 <= e3 < e2 ==> (#[trigger] world.wants_to_use@[e3]) is None,
        decreases n - e2,
    {
        world.wants_to_use.set(e2, None);
        e2 = e2 + 1;
    }
    proof {
        if forall|e1: int, e3: int|
            0 <= e1 < old(world).n() && 0 <= e3 < old(world).n() && (#[trigger] old(world).wants_to_use@[e1]) is Some && (#[trigger] old(world).wants_to_use@[e3]) is Some
                ==> e1 == e3 {
            assert forall|u: int|
                0 <= u < old(world).n() && (#[trigger] old(world).wants_to_use@[u]) is Some implies
                exists|w1: World|
                    use_effect(*old(world), w1, *m, u, any_mapped)
                        && #[trigger] cleared_intents(w1, *world) by {
                match first_user {
                    None => {
                        assert(old(world).wants_to_use@[u] is None);
                    },
                    Some(fu) => {
                        assert(fu as int == u);
                        assert(use_effect(*old(world), w_mid, *m, u, any_mapped));
                        assert(cleared_intents(w_mid, *world));
                    },
                }
            }
        }
    }
    any_mapped
}

/// `w1` is `w0` with every use intent cleared and nothing else touched.
pub open spec fn cleared_intents(w0: World, w1: World) -> bool {
    &&& w1 == (World { wants_to_use: w1.wants_to_use, ..w0 })
    &&& forall|e: int| 0 <= e < w1.n() ==> (#[trigger] w1.wants_to_use@[e]) is None
}

} // verus!

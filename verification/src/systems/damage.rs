//! Pending-damage bookkeeping, the damage-application pass and the death
//! sweep.

use vstd::prelude::*;
use crate::components::{Entity, CombatStats, SufferDamage, sum_of, STAT_MAX};
use crate::world::World;
use crate::map::{GameMap, spec_idx};
use crate::gamelog::{GameLog, LogEvent, log_extended};

verus! {

/// The pending damage amounts of entity `t`, the empty sequence when no
/// accumulator exists.
pub open spec fn amounts_of(w: World, t: int) -> Seq<i32> {
    if w.suffer_damage@[t] is Some {
        w.suffer_damage@[t]->0.amounts@
    } else {
        Seq::empty()
    }
}

/// Queues `amount` damage against `victim`: its pending amounts grow by
/// exactly that entry, and nothing else in the world changes.
pub fn add_damage(world: &mut World, victim: Entity, amount: i32)
    requires
        old(world).wf(),
        victim < old(world).n(),
        0 <= amount <= 100000000,
    ensures
        final(world).wf(),
        final(world).n() == old(world).n(),
        *final(world) == (World { suffer_damage: final(world).suffer_damage, ..*old(world) }),
        amounts_of(*final(world), victim as int) == amounts_of(*old(world), victim as int).push(
            amount,
        ),
        forall|t: int|
            0 <= t < old(world).n() && t != victim ==> (#[trigger] final(world).suffer_damage@[t])
                == old(world).suffer_damage@[t],
{
    let has = match &world.suffer_damage[victim] {
        Some(_) => true,
        None => false,
    };
    if has {
        match &mut world.suffer_damage[victim] {
            Some(d) => {
                d.amounts.push(amount);
            },
            None => {},
        }
    } else {
        let mut amounts: Vec<i32> = Vec::new();
        amounts.push(amount);
        world.suffer_damage.set(victim, Some(SufferDamage { amounts }));
    }
}

/// Hit points after applying `total` pending damage: the difference,
/// floored at `-STAT_MAX`.
pub open spec fn spec_hp_after(hp: int, total: int) -> int {
    if hp - total < -STAT_MAX {
        -STAT_MAX as int
    } else {
        hp - total
    }
}

/// The damage-application pass: every entity with both combat stats and a
/// pending-damage accumulator has the accumulated total subtracted from
/// its hit points (floored at `-STAT_MAX`) and the accumulator cleared;
/// a damaged entity with a position leaves a bloodstain.
pub fn damage_system(world: &mut World, m: &mut GameMap)
    requires
        old(world).wf(),
        old(m).wf(),
    ensures
        final(world).wf(),
        final(world).n() == old(world).n(),
        *final(world) == (World {
            combat_stats: final(world).combat_stats,
            suffer_damage: final(world).suffer_damage,
            ..*old(world)
        }),
        forall|e: int| 0 <= e < old(world).n() ==> (#[trigger] final(world).suffer_damage@[e]) is None,
        forall|e: int|
            0 <= e < old(world).n() && !((#[trigger] old(world).combat_stats@[e]) is Some && old(world).suffer_damage@[e] is Some) ==> final(world).combat_stats@[e] == old(world).combat_stats@[e],
        forall|e: int|
            0 <= e < old(world).n() && (#[trigger] old(world).combat_stats@[e]) is Some && old(world).suffer_damage@[e] is Some ==> final(world).combat_stats@[e] is Some && final(world).combat_stats@[e]->0 == (CombatStats {
                hp: spec_hp_after(
                    old(world).combat_stats@[e]->0.hp as int,
                    sum_of(amounts_of(*old(world), e)),
                ) as i32,
                ..old(world).combat_stats@[e]->0
            }),
        final(m).wf(),
        *final(m) == (GameMap { bloodstains: final(m).bloodstains, ..*old(m) }),
        old(m).bloodstains@.is_prefix_of(final(m).bloodstains@),
{
    let n = world.alive.len();
    let mut e: usize = 0;
    while e < n
        invariant
            world.wf(),
            m.wf(),
            n == old(world).n(),
            world.n() == n,
            e <= n,
            *world == (World {
                combat_stats: world.combat_stats,
                suffer_damage: world.suffer_damage,
                ..*old(world)
            }),
            *m == (GameMap { bloodstains: m.bloodstains, ..*old(m) }),
            old(m).bloodstains@.is_prefix_of(m.bloodstains@),
            forall|e2: int| 0 <= e2 < e ==> (#[trigger] world.suffer_damage@[e2]) is None,
            forall|e2: int|
                e <= e2 < n ==> (#[trigger] world.suffer_damage@[e2]) == old(world).suffer_damage@[e2],
            forall|e2: int|
                0 <= e2 < n && !((#[trigger] old(world).combat_stats@[e2]) is Some && old(world).suffer_damage@[e2] is Some) ==> world.combat_stats@[e2] == old(world).combat_stats@[e2],
            forall|e2: int|
                e <= e2 < n ==> (#[trigger] world.combat_stats@[e2]) == old(world).combat_stats@[e2],
            forall|e2: int|
                0 <= e2 < e && (#[trigger] old(world).combat_stats@[e2]) is Some && old(world).suffer_damage@[e2] is Some ==> world.combat_stats@[e2] is Some
                    && world.combat_stats@[e2]->0 == (CombatStats {
                    hp: spec_hp_after(
                        old(world).combat_stats@[e2]->0.hp as int,
                        sum_of(amounts_of(*old(world), e2)),
                    ) as i32,
                    ..old(world).combat_stats@[e2]->0
                }),
        decreases n - e,
    {
        let has_stats = match world.combat_stats[e] {
            Some(_) => true,
            None => false,
        };
        let has_damage = match &world.suffer_damage[e] {
            Some(_) => true,
            None => false,
        };
        if has_stats && has_damage {
            let stats = match world.combat_stats[e] {
                Some(s) => s,
                None => CombatStats { hp: 0, max_hp: 0, power: 0, defense: 0 },
            };
            let mut hp: i32 = stats.hp;
            let dlen = match &world.suffer_damage[e] {
                Some(d) => d.amounts.len(),
                None => 0,
            };
            let ghost damts = world.suffer_damage@[e as int]->0.amounts@;
            let mut k: usize = 0;
            let mut any: bool = false;
            while k < dlen
                invariant
                    world.wf(),
                    e < n,
                    n == world.n(),
                    world.suffer_damage@[e as int] is Some,
                    damts == world.suffer_damage@[e as int]->0.amounts@,
                    dlen == damts.len(),
                    k <= dlen,
                    hp == spec_hp_after(stats.hp as int, sum_of(damts.take(k as int))),
                    sum_of(damts.take(k as int)) >= 0,
                    -STAT_MAX <= hp <= stats.hp,
                    stats.hp <= STAT_MAX,
                    any == (sum_of(damts.take(k as int)) > 0),
                decreases dlen - k,
            {
                let a = match &world.suffer_damage[e] {
                    Some(d) => d.amounts[k],
                    None => 0,
                };
                proof {
                    assert(damts.take(k + 1).drop_last() =~= damts.take(k as int));
                    assert(damts.take(k + 1).last() == damts[k as int]);
                    assert(a >= 0);
                }
                if a > 0 {
                    any = true;
                }
                if hp >= -STAT_MAX + a {
                    hp = hp - a;
                } else {
                    hp = 0 - STAT_MAX;
                }
                k = k + 1;
            }
            proof {
                assert(damts.take(dlen as int) =~= damts);
            }
            world.combat_stats.set(e, Some(CombatStats { hp, ..stats }));
            world.suffer_damage.set(e, None);
            if any {
                match world.position[e] {
                    Some(p) => {
                        let idx = m.xy_idx(p.x, p.y);
                        m.add_bloodstain(idx);
                        proof {
                            assert(old(m).bloodstains@.is_prefix_of(m.bloodstains@));
                        }
                    },
                    None => {},
                }
            }
        } else if has_damage {
            world.suffer_damage.set(e, None);
        }
        e = e + 1;
    }
}

/// The death sweep: every living entity whose hit points have dropped to
/// zero or below is queued for deletion, except the player, whose death
/// is reported instead; returns whether the player died.
pub fn delete_the_dead(world: &mut World, log: &mut GameLog) -> (player_died: bool)
    requires
        old(world).wf(),
    ensures
        final(world).wf(),
        final(world).n() == old(world).n(),
        *final(world) == (World { pending_delete: final(world).pending_delete, ..*old(world) }),
        old(world).pending_delete@.is_prefix_of(final(world).pending_delete@),
        player_died == exists|e: int|
            0 <= e < old(world).n() && #[trigger] old(world).alive@[e] && old(world).combat_stats@[e] is Some && old(world).combat_stats@[e]->0.hp <= 0 && old(world).player@[e],
        forall|e: int|
            0 <= e < old(world).n() && #[trigger] old(world).alive@[e] && old(world).combat_stats@[e] is Some && old(world).combat_stats@[e]->0.hp <= 0 && !old(world).player@[e] ==> final(world).pending_delete@.contains(e as usize),
        log_extended(*old(log), *final(log)),
{
    let n = world.alive.len();
    let mut e: usize = 0;
    let mut player_died = false;
    while e < n
        invariant
            world.wf(),
            n == old(world).n(),
            world.n() == n,
            e <= n,
            *world == (World { pending_delete: world.pending_delete, ..*old(world) }),
            old(world).pending_delete@.is_prefix_of(world.pending_delete@),
            player_died == exists|e2: int|
                0 <= e2 < e && #[trigger] old(world).alive@[e2] && old(world).combat_stats@[e2] is Some && old(world).combat_stats@[e2]->0.hp <= 0 && old(world).player@[e2],
            forall|e2: int|
                0 <= e2 < e && #[trigger] old(world).alive@[e2] && old(world).combat_stats@[e2] is Some && old(world).combat_stats@[e2]->0.hp <= 0 && !old(world).player@[e2] ==> world.pending_delete@.contains(e2 as usize),
            log_extended(*old(log), *log),
        decreases n - e,
    {
        let ghost pd0 = world.pending_delete@;
        let mut dead = false;
        if world.alive[e] {
            match world.combat_stats[e] {
                Some(s) => {
                    if s.hp <= 0 {
                        dead = true;
                    }
                },
                None => {},
            }
        }
        if dead {
            if world.player[e] {
                if !player_died {
                    log.push(LogEvent::PlayerDied);
                }
                player_died = true;
            } else {
                world.delete_entity(e);
                proof {
                    assert(world.pending_delete@[world.pending_delete@.len() - 1] == e);
                }
            }
        }
        proof {
            assert forall|e2: int|
                0 <= e2 < e + 1 && #[trigger] old(world).alive@[e2] && old(world).combat_stats@[e2] is Some && old(world).combat_stats@[e2]->0.hp <= 0 && !old(world).player@[e2] implies world.pending_delete@.contains(e2 as usize) by {
                if e2 < e {
                    assert(pd0.contains(e2 as usize));
                    let k = choose|k: int| 0 <= k < pd0.len() && pd0[k] == e2 as usize;
                    assert(world.pending_delete@[k] == e2 as usize);
                }
            }
        }
        e = e + 1;
    }
    player_died
}

} // verus!

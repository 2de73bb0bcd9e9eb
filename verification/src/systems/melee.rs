//! The melee combat pass: each pending attack by a living attacker against
//! a living target is resolved to a damage amount and queued against the
//! target; the attack intents are cleared.

use vstd::prelude::*;
use crate::components::{CombatStats, ThirstState, STAT_MAX};
use crate::combat::{spec_melee_damage, melee_damage};
use crate::world::World;
use crate::gamelog::{GameLog, LogEvent, log_extended};
use crate::systems::damage::{amounts_of, add_damage};

verus! {

/// Summed melee power bonus of everything equipped by `owner`, over the
/// first `k` entity slots.
pub open spec fn equip_power_upto(w: World, owner: int, k: int) -> int
    decreases k,
{
    if k <= 0 {
        0
    } else {
        equip_power_upto(w, owner, k - 1) + (
        if w.equipped@[k - 1] is Some && w.equipped@[k - 1]->0.owner == owner
            && w.melee_power_bonus@[k - 1] is Some {
            w.melee_power_bonus@[k - 1]->0.power as int
        } else {
            0
        })
    }
}

/// Summed defense bonus of everything equipped by `owner`, over the first
/// `k` entity slots.
pub open spec fn equip_defense_upto(w: World, owner: int, k: int) -> int
    decreases k,
{
    if k <= 0 {
        0
    } else {
        equip_defense_upto(w, owner, k - 1) + (
        if w.equipped@[k - 1] is Some && w.equipped@[k - 1]->0.owner == owner
            && w.defense_bonus@[k - 1] is Some {
            w.defense_bonus@[k - 1]->0.defense as int
        } else {
            0
        })
    }
}

/// The attacker's whole offensive bonus: equipment, plus one when its
/// thirst is quenched.
pub open spec fn spec_offense_bonus(w: World, a: int) -> int {
    equip_power_upto(w, a, w.n()) + (
    if w.thirst_clock@[a] is Some && w.thirst_clock@[a]->0.state == ThirstState::Quenched {
        1int
    } else {
        0int
    })
}

/// A pending attack that resolves this pass: the attacker and its target
/// both live and have combat stats.
pub open spec fn attacks(w: World, a: int) -> bool {
    &&& w.does_melee@[a] is Some
    &&& w.combat_stats@[a] is Some
    &&& w.combat_stats@[a]->0.hp > 0
    &&& w.combat_stats@[w.does_melee@[a]->0.target as int] is Some
    &&& w.combat_stats@[w.does_melee@[a]->0.target as int]->0.hp > 0
}

/// The damage attacker `a` deals its target.
pub open spec fn attack_damage(w: World, a: int) -> int {
    spec_melee_damage(
        w.combat_stats@[a]->0.power as int,
        spec_offense_bonus(w, a),
        w.combat_stats@[w.does_melee@[a]->0.target as int]->0.defense as int,
        equip_defense_upto(w, w.does_melee@[a]->0.target as int, w.n()),
    )
}

/// The damage amounts queued against `t` by the attackers among the first
/// `k` entity slots, in attacker order; misses (zero damage) queue nothing.
pub open spec fn melee_damages_to(w: World, t: int, k: int) -> Seq<i32>
    decreases k,
{
    if k <= 0 {
        Seq::empty()
    } else {
        let rest = melee_damages_to(w, t, k - 1);
        if attacks(w, k - 1) && w.does_melee@[k - 1]->0.target == t && attack_damage(w, k - 1)
            > 0 {
            rest.push(attack_damage(w, k - 1) as i32)
        } else {
            rest
        }
    }
}

/// The equipment sums depend only on the equipped and bonus tables.
proof fn lemma_equip_power_congr(w1: World, w2: World, owner: int, k: int)
    requires
        w1.equipped@ == w2.equipped@,
        w1.melee_power_bonus@ == w2.melee_power_bonus@,
    ensures
        equip_power_upto(w1, owner, k) == equip_power_upto(w2, owner, k),
    decreases k,
{
    if k > 0 {
        lemma_equip_power_congr(w1, w2, owner, k - 1);
    }
}

proof fn lemma_equip_defense_congr(w1: World, w2: World, owner: int, k: int)
    requires
        w1.equipped@ == w2.equipped@,
        w1.defense_bonus@ == w2.defense_bonus@,
    ensures
        equip_defense_upto(w1, owner, k) == equip_defense_upto(w2, owner, k),
    decreases k,
{
    if k > 0 {
        lemma_equip_defense_congr(w1, w2, owner, k - 1);
    }
}

proof fn lemma_equip_power_bounds(w: World, owner: int, k: int)
    requires
        w.wf(),
        0 <= k <= w.n(),
    ensures
        0 <= equip_power_upto(w, owner, k) <= k * STAT_MAX,
    decreases k,
{
    if k > 0 {
        lemma_equip_power_bounds(w, owner, k - 1);
    }
}

proof fn lemma_equip_defense_bounds(w: World, owner: int, k: int)
    requires
        w.wf(),
        0 <= k <= w.n(),
    ensures
        0 <= equip_defense_upto(w, owner, k) <= k * STAT_MAX,
    decreases k,
{
    if k > 0 {
        lemma_equip_defense_bounds(w, owner, k - 1);
    }
}

/// Computes the summed melee power bonus of `owner`'s equipment.
fn compute_power_bonus(world: &World, owner: usize) -> (r: i32)
    requires
        world.wf(),
    ensures
        r == equip_power_upto(*world, owner as int, world.n()),
        0 <= r,
{
    let n = world.alive.len();
    let mut acc: i32 = 0;
    let mut k: usize = 0;
    while k < n
        invariant
            world.wf(),
            n == world.n(),
            k <= n,
            acc == equip_power_upto(*world, owner as int, k as int),
            0 <= acc <= k * STAT_MAX,
        decreases n - k,
    {
        match world.equipped[k] {
            Some(q) => {
                if q.owner == owner {
                    match world.melee_power_bonus[k] {
                        Some(b) => {
                            acc = acc + b.power;
                        },
                        None => {},
                    }
                }
            },
            None => {},
        }
        k = k + 1;
    }
    acc
}

/// Computes the summed defense bonus of `owner`'s equipment.
fn compute_defense_bonus(world: &World, owner: usize) -> (r: i32)
    requires
        world.wf(),
    ensures
        r == equip_defense_upto(*world, owner as int, world.n()),
        0 <= r,
{
    let n = world.alive.len();
    let mut acc: i32 = 0;
    let mut k: usize = 0;
    while k < n
        invariant
            world.wf(),
            n == world.n(),
            k <= n,
            acc == equip_defense_upto(*world, owner as int, k as int),
            0 <= acc <= k * STAT_MAX,
        decreases n - k,
    {
        match world.equipped[k] {
            Some(q) => {
                if q.owner == owner {
                    match world.defense_bonus[k] {
                        Some(b) => {
                            acc = acc + b.defense;
                        },
                        None => {},
                    }
                }
            },
            None => {},
        }
        k = k + 1;
    }
    acc
}

/// The melee combat pass. Every pending attack between living combatants
/// queues exactly `max(0, (power + offense bonus) - (defense + defense
/// bonus))` damage against the target when that is positive, and a miss
/// message when it is zero; every attack intent is cleared; nothing else
/// in the world changes.
pub fn melee_combat_system(world: &mut World, log: &mut GameLog)
    requires
        old(world).wf(),
    ensures
        final(world).wf(),
        final(world).n() == old(world).n(),
        *final(world) == (World {
            suffer_damage: final(world).suffer_damage,
            does_melee: final(world).does_melee,
            ..*old(world)
        }),
        forall|e: int| 0 <= e < old(world).n() ==> (#[trigger] final(world).does_melee@[e]) is None,
        forall|t: int|
            0 <= t < old(world).n() ==> amounts_of(*final(world), t) =~= amounts_of(*old(world), t)
                + melee_damages_to(*old(world), t, old(world).n()),
        log_extended(*old(log), *final(log)),
        forall|a: int|
            0 <= a < old(world).n() && #[trigger] attacks(*old(world), a) && attack_damage(
                *old(world),
                a,
            ) == 0 ==> final(log).entries@.contains(
                LogEvent::Miss {
                    attacker: a as usize,
                    target: old(world).does_melee@[a]->0.target,
                },
            ),
        forall|a: int|
            0 <= a < old(world).n() && #[trigger] attacks(*old(world), a) && attack_damage(
                *old(world),
                a,
            ) > 0 ==> final(log).entries@.contains(
                LogEvent::Hit {
                    attacker: a as usize,
                    target: old(world).does_melee@[a]->0.target,
                    damage: attack_damage(*old(world), a) as i32,
                },
            ),
{
    let n = world.alive.len();
    let mut a: usize = 0;
    while a < n
        invariant
            world.wf(),
            n == old(world).n(),
            world.n() == n,
            a <= n,
            *world == (World { suffer_damage: world.suffer_damage, ..*old(world) }),
            forall|t: int|
                0 <= t < n ==> amounts_of(*world, t) =~= amounts_of(*old(world), t)
                    + melee_damages_to(*old(world), t, a as int),
            log_extended(*old(log), *log),
            forall|a2: int|
                0 <= a2 < a && #[trigger] attacks(*old(world), a2) && attack_damage(
                    *old(world),
                    a2,
                ) == 0 ==> log.entries@.contains(
                    LogEvent::Miss {
                        attacker: a2 as usize,
                        target: old(world).does_melee@[a2]->0.target,
                    },
                ),
            forall|a2: int|
                0 <= a2 < a && #[trigger] attacks(*old(world), a2) && attack_damage(
                    *old(world),
                    a2,
                ) > 0 ==> log.entries@.contains(
                    LogEvent::Hit {
                        attacker: a2 as usize,
                        target: old(world).does_melee@[a2]->0.target,
                        damage: attack_damage(*old(world), a2) as i32,
                    },
                ),
        decreases n - a,
    {
        let ghost log_iter = *log;
        let mut does_attack = false;
        let mut target: usize = 0;
        let mut att_stats = CombatStats { hp: 0, max_hp: 0, power: 0, defense: 0 };
        match world.does_melee[a] {
            Some(dm) => {
                match world.combat_stats[a] {
                    Some(s) => {
                        if s.hp > 0 {
                            match world.combat_stats[dm.target] {
                                Some(ts) => {
                                    if ts.hp > 0 {
                                        does_attack = true;
                                        target = dm.target;
                                        att_stats = s;
                                    }
                                },
                                None => {},
                            }
                        }
                    },
                    None => {},
                }
            },
            None => {},
        }
        proof {
            assert(does_attack == attacks(*old(world), a as int));
        }
        if does_attack {
            let mut offense = compute_power_bonus(world, a);
            proof {
                lemma_equip_power_bounds(*world, a as int, world.n());
                assert(world.n() * STAT_MAX <= 65536 * 1000) by (nonlinear_arith)
                    requires
                        0 <= world.n() <= 65536,
                        STAT_MAX == 1000,
                ;
            }
            match world.thirst_clock[a] {
                Some(tc) => {
                    if tc.state == ThirstState::Quenched {
                        offense = offense + 1;
                    }
                },
                None => {},
            }
            let defense_bonus = compute_defense_bonus(world, target);
            proof {
                lemma_equip_defense_bounds(*world, target as int, world.n());
                assert(world.n() * STAT_MAX <= 65536 * 1000) by (nonlinear_arith)
                    requires
                        0 <= world.n() <= 65536,
                        STAT_MAX == 1000,
                ;
            }
            let t_defense = match world.combat_stats[target] {
                Some(ts) => ts.defense,
                None => 0,
            };
            proof {
                lemma_equip_power_congr(*world, *old(world), a as int, world.n());
                lemma_equip_defense_congr(*world, *old(world), target as int, world.n());
            }
            let dmg = melee_damage(att_stats.power, offense, t_defense, defense_bonus);
            proof {
                lemma_equip_power_congr(*world, *old(world), a as int, world.n());
                lemma_equip_defense_congr(*world, *old(world), target as int, world.n());
                assert(offense == spec_offense_bonus(*old(world), a as int));
                assert(dmg == attack_damage(*old(world), a as int));
            }
            let ghost w_pre = *world;
            if dmg == 0 {
                log.push(LogEvent::Miss { attacker: a, target });
                proof {
                    assert(log.entries@[log.entries@.len() - 1] == LogEvent::Miss {
                        attacker: a,
                        target,
                    });
                }
            } else {
                add_damage(world, target, dmg);
                log.push(LogEvent::Hit { attacker: a, target, damage: dmg });
                proof {
                    assert(log.entries@[log.entries@.len() - 1] == LogEvent::Hit {
                        attacker: a,
                        target,
                        damage: dmg,
                    });
                }
            }
            proof {
                assert forall|t: int|
                    0 <= t < n implies amounts_of(*world, t) =~= amounts_of(*old(world), t)
                    + melee_damages_to(*old(world), t, a + 1) by {
                    assert(amounts_of(w_pre, t) =~= amounts_of(*old(world), t)
                        + melee_damages_to(*old(world), t, a as int));
                    if dmg != 0 && t == target as int {
                        assert(amounts_of(*world, t) == amounts_of(w_pre, t).push(dmg));
                    } else if dmg != 0 {
                        assert(world.suffer_damage@[t] == w_pre.suffer_damage@[t]);
                    }
                }
            }
        } else {
            proof {
                assert forall|t: int|
                    0 <= t < n implies amounts_of(*world, t) =~= amounts_of(*old(world), t)
                    + melee_damages_to(*old(world), t, a + 1) by {}
            }
        }
        proof {
            assert forall|a2: int|
                0 <= a2 < a + 1 && #[trigger] attacks(*old(world), a2) implies (
            attack_damage(*old(world), a2) == 0 ==> log.entries@.contains(
                LogEvent::Miss {
                    attacker: a2 as usize,
                    target: old(world).does_melee@[a2]->0.target,
                },
            )) && (attack_damage(*old(world), a2) > 0 ==> log.entries@.contains(
                LogEvent::Hit {
                    attacker: a2 as usize,
                    target: old(world).does_melee@[a2]->0.target,
                    damage: attack_damage(*old(world), a2) as i32,
                },
            )) by {
                if a2 < a {
                    assert(log.entries@.take(log_iter.entries@.len() as int)
                        =~= log_iter.entries@);
                    if attack_damage(*old(world), a2) == 0 {
                        let ev = LogEvent::Miss {
                            attacker: a2 as usize,
                            target: old(world).does_melee@[a2]->0.target,
                        };
                        assert(log_iter.entries@.contains(ev));
                        let k = choose|k: int|
                            0 <= k < log_iter.entries@.len() && log_iter.entries@[k] == ev;
                        assert(log.entries@[k] == ev);
                    } else {
                        let ev = LogEvent::Hit {
                            attacker: a2 as usize,
                            target: old(world).does_melee@[a2]->0.target,
                            damage: attack_damage(*old(world), a2) as i32,
                        };
                        assert(log_iter.entries@.contains(ev));
                        let k = choose|k: int|
                            0 <= k < log_iter.entries@.len() && log_iter.entries@[k] == ev;
                        assert(log.entries@[k] == ev);
                    }
                }
            }
        }
        a = a + 1;
    }
    // Clear every attack intent.
    let mut e: usize = 0;
    let ghost w_mid = *world;
    while e < n
        invariant
            world.wf(),
            n == world.n(),
            n == old(world).n(),
            e <= n,
            *world == (World { does_melee: world.does_melee, ..w_mid }),
            forall|e2: int| 0 <= e2 < e ==> (#[trigger] world.does_melee@[e2]) is None,
        decreases n - e,
    {
        world.does_melee.set(e, None);
        e = e + 1;
    }
    proof {
        assert forall|t: int| 0 <= t < old(world).n() implies amounts_of(*world, t)
            =~= amounts_of(*old(world), t) + melee_damages_to(
            *old(world),
            t,
            old(world).n(),
        ) by {
            assert(amounts_of(w_mid, t) =~= amounts_of(*old(world), t) + melee_damages_to(
                *old(world),
                t,
                n as int,
            ));
            assert(world.suffer_damage@ == w_mid.suffer_damage@);
            assert(amounts_of(*world, t) == amounts_of(w_mid, t));
        }
    }
}

} // verus!

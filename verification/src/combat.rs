//! Melee damage arithmetic: the pure core of the melee combat pass.

use vstd::prelude::*;

verus! {

/// Damage dealt by a melee attack: attack strength (base power plus the
/// attacker's equipment and thirst bonuses) minus the defence strength
/// (base defense plus the defender's equipment bonuses), floored at zero.
pub open spec fn spec_melee_damage(power: int, offense: int, defense: int, defense_bonus: int) -> int {
    if power + offense - (defense + defense_bonus) > 0 {
        power + offense - (defense + defense_bonus)
    } else {
        0
    }
}

/// Computes the melee damage formula on machine integers.
pub fn melee_damage(power: i32, offense: i32, defense: i32, defense_bonus: i32) -> (r: i32)
    requires
        -100000000 <= power <= 100000000,
        -100000000 <= offense <= 100000000,
        -100000000 <= defense <= 100000000,
        -100000000 <= defense_bonus <= 100000000,
    ensures
        r == spec_melee_damage(power as int, offense as int, defense as int, defense_bonus as int),
        r >= 0,
{
    let attack: i32 = power + offense;
    let guard: i32 = defense + defense_bonus;
    if attack > guard {
        attack - guard
    } else {
        0
    }
}

/// Raising the attacker's offensive bonus never lowers the damage dealt,
/// and the damage is never negative, whatever the stats are.
pub proof fn lemma_melee_damage_monotonic(power: int, o1: int, o2: int, defense: int, defense_bonus: int)
    requires
        o1 <= o2,
    ensures
        spec_melee_damage(power, o1, defense, defense_bonus)
            <= spec_melee_damage(power, o2, defense, defense_bonus),
        spec_melee_damage(power, o1, defense, defense_bonus) >= 0,
{
}

} // verus!

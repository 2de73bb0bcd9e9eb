//! Persistence: a snapshot of every living entity's full component set,
//! keyed by a stable marker, plus the map. Restoring rebuilds the world,
//! re-resolves entity references through the markers, re-identifies the
//! player, and resets the transient occupant cache. Writing the snapshot
//! to disk and reading it back is the shell's concern, not this crate's.

use vstd::prelude::*;
use crate::components::{
    Entity, Position, Renderable, Viewshed, CombatStats, SufferDamage, Ranged, ProvidesHealing,
    InflictsDamage, AreaOfEffect, Confusion, InBackpack, Equippable, Equipped, EquipmentSlot,
    MeleePowerBonus, DefenseBonus, ThirstClock, ParticleLifetime, STAT_MAX,
};
use crate::world::{World, unchanged_at};
use crate::map::{GameMap, TileType, MAPCOUNT};
use crate::map_builders::common::{clone_map, same_map};

verus! {

/// One marked entity's full component set, entity references written as
/// the markers of their targets.
pub struct SavedEntity {
    pub marker: u64,
    pub position: Option<Position>,
    pub renderable: Option<Renderable>,
    pub player: bool,
    pub monster: bool,
    pub name: Option<String>,
    pub viewshed: Option<Viewshed>,
    pub blocks_tile: bool,
    pub combat_stats: Option<CombatStats>,
    pub suffer_damage: Option<SufferDamage>,
    pub item: bool,
    pub consumable: bool,
    pub ranged: Option<Ranged>,
    pub provides_healing: Option<ProvidesHealing>,
    pub provides_water: bool,
    pub inflicts_damage: Option<InflictsDamage>,
    pub area_of_effect: Option<AreaOfEffect>,
    pub confusion: Option<Confusion>,
    pub in_backpack_owner: Option<u64>,
    pub equippable: Option<Equippable>,
    pub equipped_owner: Option<(u64, EquipmentSlot)>,
    pub melee_power_bonus: Option<MeleePowerBonus>,
    pub defense_bonus: Option<DefenseBonus>,
    pub thirst_clock: Option<ThirstClock>,
    pub magic_mapper: bool,
    pub hidden: bool,
    pub entry_trigger: bool,
    pub triggers_once: bool,
    pub particle_lifetime: Option<ParticleLifetime>,
}

/// The whole saved game: the map and every marked entity.
pub struct SaveData {
    pub map: GameMap,
    pub entities: Vec<SavedEntity>,
}

/// Record `se` is the saved form of slot `i` of world `w`: the component
/// values as they stand, entity references replaced by their targets'
/// markers (the viewshed and damage lists compared by content).
pub open spec fn entity_saved(w: World, i: int, se: SavedEntity) -> bool {
    &&& se.marker == w.marker@[i]
    &&& se.position == w.position@[i]
    &&& se.renderable == w.renderable@[i]
    &&& se.player == w.player@[i]
    &&& se.monster == w.monster@[i]
    &&& se.name == w.name@[i]
    &&& (se.viewshed is Some <==> w.viewshed@[i] is Some)
    &&& (se.viewshed is Some ==> se.viewshed->0.range == w.viewshed@[i]->0.range
        && se.viewshed->0.dirty == w.viewshed@[i]->0.dirty
        && se.viewshed->0.visible_tiles@ == w.viewshed@[i]->0.visible_tiles@)
    &&& se.blocks_tile == w.blocks_tile@[i]
    &&& se.combat_stats == w.combat_stats@[i]
    &&& (se.suffer_damage is Some <==> w.suffer_damage@[i] is Some)
    &&& (se.suffer_damage is Some ==> se.suffer_damage->0.amounts@
        == w.suffer_damage@[i]->0.amounts@)
    &&& se.item == w.item@[i]
    &&& se.consumable == w.consumable@[i]
    &&& se.ranged == w.ranged@[i]
    &&& se.provides_healing == w.provides_healing@[i]
    &&& se.provides_water == w.provides_water@[i]
    &&& se.inflicts_damage == w.inflicts_damage@[i]
    &&& se.area_of_effect == w.area_of_effect@[i]
    &&& se.confusion == w.confusion@[i]
    &&& se.in_backpack_owner == (match w.in_backpack@[i] {
        Some(b) => Some(w.marker@[b.owner as int]),
        None => None::<u64>,
    })
    &&& se.equippable == w.equippable@[i]
    &&& se.equipped_owner == (match w.equipped@[i] {
        Some(q) => Some((w.marker@[q.owner as int], q.slot)),
        None => None::<(u64, EquipmentSlot)>,
    })
    &&& se.melee_power_bonus == w.melee_power_bonus@[i]
    &&& se.defense_bonus == w.defense_bonus@[i]
    &&& se.thirst_clock == w.thirst_clock@[i]
    &&& se.magic_mapper == w.magic_mapper@[i]
    &&& se.hidden == w.hidden@[i]
    &&& se.entry_trigger == w.entry_trigger@[i]
    &&& se.triggers_once == w.triggers_once@[i]
    &&& se.particle_lifetime == w.particle_lifetime@[i]
}

/// Some living slot of `w` below `bound` saved as `se`.
pub open spec fn saved_from_alive(w: World, se: SavedEntity, bound: int) -> bool {
    exists|i: int| 0 <= i < bound && w.alive@[i] && #[trigger] entity_saved(w, i, se)
}

/// Copies one slot of the world into its saved form.
fn save_entity(world: &World, i: usize) -> (se: SavedEntity)
    requires
        world.wf(),
        i < world.n(),
    ensures
        entity_saved(*world, i as int, se),
{
    let in_backpack_owner = match world.in_backpack[i] {
        Some(b) => Some(world.marker[b.owner]),
        None => None,
    };
    let equipped_owner = match world.equipped[i] {
        Some(q) => Some((world.marker[q.owner], q.slot)),
        None => None,
    };
    let name = match &world.name[i] {
        Some(n) => Some(n.clone()),
        None => None,
    };
    let viewshed = match &world.viewshed[i] {
        Some(v) => {
            let mut vt: Vec<usize> = Vec::new();
            let mut k: usize = 0;
            let vlen = v.visible_tiles.len();
            while k < vlen
                invariant
                    k <= vlen,
                    vlen == v.visible_tiles.len(),
                    vt@ =~= v.visible_tiles@.take(k as int),
                decreases vlen - k,
            {
                vt.push(v.visible_tiles[k]);
                proof {
                    assert(vt@ =~= v.visible_tiles@.take(k + 1));
                }
                k = k + 1;
            }
            proof {
                assert(vt@ =~= v.visible_tiles@);
            }
            Some(Viewshed { visible_tiles: vt, range: v.range, dirty: v.dirty })
        },
        None => None,
    };
    let suffer_damage = match &world.suffer_damage[i] {
        Some(d) => {
            let mut amounts: Vec<i32> = Vec::new();
            let mut k: usize = 0;
            let dlen = d.amounts.len();
            while k < dlen
                invariant
                    k <= dlen,
                    dlen == d.amounts.len(),
                    amounts@ =~= d.amounts@.take(k as int),
                decreases dlen - k,
            {
                amounts.push(d.amounts[k]);
                proof {
                    assert(amounts@ =~= d.amounts@.take(k + 1));
                }
                k = k + 1;
            }
            proof {
                assert(amounts@ =~= d.amounts@);
            }
            Some(SufferDamage { amounts })
        },
        None => None,
    };
    SavedEntity {
        marker: world.marker[i],
        position: world.position[i],
        renderable: world.renderable[i],
        player: world.player[i],
        monster: world.monster[i],
        name,
        viewshed,
        blocks_tile: world.blocks_tile[i],
        combat_stats: world.combat_stats[i],
        suffer_damage,
        item: world.item[i],
        consumable: world.consumable[i],
        ranged: world.ranged[i],
        provides_healing: world.provides_healing[i],
        provides_water: world.provides_water[i],
        inflicts_damage: world.inflicts_damage[i],
        area_of_effect: world.area_of_effect[i],
        confusion: world.confusion[i],
        in_backpack_owner,
        equippable: world.equippable[i],
        equipped_owner,
        melee_power_bonus: world.melee_power_bonus[i],
        defense_bonus: world.defense_bonus[i],
        thirst_clock: world.thirst_clock[i],
        magic_mapper: world.magic_mapper[i],
        hidden: world.hidden[i],
        entry_trigger: world.entry_trigger[i],
        triggers_once: world.triggers_once[i],
        particle_lifetime: world.particle_lifetime[i],
    }
}

/// Snapshots the world and the map: one saved record per living entity,
/// in entity order; single-turn intents are transient and are not saved.
pub fn save_game(world: &World, m: &GameMap) -> (sd: SaveData)
    requires
        world.wf(),
        m.wf(),
    ensures
        sd.map.wf(),
        same_map(sd.map, *m),
        forall|i: int|
            0 <= i < world.n() && #[trigger] world.alive@[i] ==> exists|j: int|
                0 <= j < sd.entities.len() && #[trigger] entity_saved(*world, i, sd.entities@[j]),
        (forall|i: int| 0 <= i < world.n() ==> #[trigger] world.alive@[i]) ==> (sd.entities.len()
            == world.n() && forall|i: int|
            0 <= i < world.n() ==> entity_saved(*world, i, #[trigger] sd.entities@[i])),
        forall|j: int|
            0 <= j < sd.entities.len() ==> #[trigger] saved_from_alive(
                *world,
                sd.entities@[j],
                world.n(),
            ),
{
    let map_copy = clone_map(m);
    let mut entities: Vec<SavedEntity> = Vec::new();
    let n = world.alive.len();
    let mut i: usize = 0;
    while i < n
        invariant
            world.wf(),
            n == world.n(),
            i <= n,
            (forall|i2: int| 0 <= i2 < i ==> #[trigger] world.alive@[i2]) ==> (entities.len()
                == i && forall|i2: int|
                0 <= i2 < i ==> entity_saved(*world, i2, #[trigger] entities@[i2])),
            forall|i2: int|
                0 <= i2 < i && #[trigger] world.alive@[i2] ==> exists|j: int|
                    0 <= j < entities.len() && #[trigger] entity_saved(
                        *world,
                        i2,
                        entities@[j],
                    ),
            forall|j: int|
                0 <= j < entities.len() ==> #[trigger] saved_from_alive(
                    *world,
                    entities@[j],
                    i as int,
                ),
        decreases n - i,
    {
        let ghost e0 = entities@;
        if world.alive[i] {
            let se = save_entity(world, i);
            entities.push(se);
        }
        proof {
            assert forall|i2: int|
                0 <= i2 < i + 1 && #[trigger] world.alive@[i2] implies exists|j: int|
                    0 <= j < entities.len() && #[trigger] entity_saved(
                        *world,
                        i2,
                        entities@[j],
                    ) by {
                if i2 < i {
                    let j = choose|j: int|
                        0 <= j < e0.len() && #[trigger] entity_saved(*world, i2, e0[j]);
                    assert(entities@[j] == e0[j]);
                    assert(entity_saved(*world, i2, entities@[j]));
                } else {
                    assert(entity_saved(*world, i as int, entities@[entities.len() - 1]));
                }
            }
            assert forall|j: int| 0 <= j < entities.len() implies #[trigger] saved_from_alive(
                *world,
                entities@[j],
                i + 1,
            ) by {
                if j < e0.len() {
                    assert(saved_from_alive(*world, e0[j], i as int));
                    let i2 = choose|i2: int|
                        0 <= i2 < i && world.alive@[i2] && #[trigger] entity_saved(
                            *world,
                            i2,
                            e0[j],
                        );
                    assert(entities@[j] == e0[j]);
                    assert(entity_saved(*world, i2, entities@[j]));
                } else {
                    assert(entity_saved(*world, i as int, entities@[j]));
                }
            }
        }
        i = i + 1;
    }
    let ghost ents = entities@;
    let sd = SaveData { map: map_copy, entities };
    proof {
        assert forall|i2: int|
            0 <= i2 < world.n() && #[trigger] world.alive@[i2] implies exists|j: int|
                0 <= j < sd.entities.len() && #[trigger] entity_saved(
                    *world,
                    i2,
                    sd.entities@[j],
                ) by {
            let j = choose|j: int|
                0 <= j < ents.len() && #[trigger] entity_saved(*world, i2, ents[j]);
            assert(sd.entities@ == ents);
            assert(entity_saved(*world, i2, sd.entities@[j]));
        }
    }
    sd
}

/// The first saved record carrying marker `mk`.
fn find_marker(entities: &Vec<SavedEntity>, mk: u64) -> (r: Option<usize>)
    ensures
        match r {
            Some(j) => j < entities.len() && entities@[j as int].marker == mk,
            None => forall|j: int|
                0 <= j < entities.len() ==> (#[trigger] entities@[j]).marker != mk,
        },
{
    let mut j: usize = 0;
    while j < entities.len()
        invariant
            j <= entities.len(),
            forall|j2: int| 0 <= j2 < j ==> (#[trigger] entities@[j2]).marker != mk,
        decreases entities.len() - j,
    {
        if entities[j].marker == mk {
            return Some(j);
        }
        j = j + 1;
    }
    None
}

/// A saved position kept only when it lies on the grid.
pub open spec fn keep_pos(p: Option<Position>) -> Option<Position> {
    match p {
        Some(q) => if 0 <= q.x < 80 && 0 <= q.y < 43 {
            p
        } else {
            None
        },
        None => None,
    }
}

/// Saved combat stats kept only when they are within range.
pub open spec fn keep_stats(c: Option<CombatStats>) -> Option<CombatStats> {
    match c {
        Some(s) => if s.wf() {
            c
        } else {
            None
        },
        None => None,
    }
}

pub open spec fn keep_heal(h: Option<ProvidesHealing>) -> Option<ProvidesHealing> {
    match h {
        Some(v) => if 0 <= v.heal_amount <= STAT_MAX {
            h
        } else {
            None
        },
        None => None,
    }
}

pub open spec fn keep_inflict(d: Option<InflictsDamage>) -> Option<InflictsDamage> {
    match d {
        Some(v) => if 0 <= v.damage <= STAT_MAX {
            d
        } else {
            None
        },
        None => None,
    }
}

pub open spec fn keep_aoe(a: Option<AreaOfEffect>) -> Option<AreaOfEffect> {
    match a {
        Some(v) => if 0 <= v.radius <= 20 {
            a
        } else {
            None
        },
        None => None,
    }
}

pub open spec fn keep_power(b: Option<MeleePowerBonus>) -> Option<MeleePowerBonus> {
    match b {
        Some(v) => if 0 <= v.power <= STAT_MAX {
            b
        } else {
            None
        },
        None => None,
    }
}

pub open spec fn keep_defense(b: Option<DefenseBonus>) -> Option<DefenseBonus> {
    match b {
        Some(v) => if 0 <= v.defense <= STAT_MAX {
            b
        } else {
            None
        },
        None => None,
    }
}

pub open spec fn keep_clock(c: Option<ThirstClock>) -> Option<ThirstClock> {
    match c {
        Some(v) => if 0 <= v.duration <= 100000 {
            c
        } else {
            None
        },
        None => None,
    }
}

pub open spec fn keep_particle(p: Option<ParticleLifetime>) -> Option<ParticleLifetime> {
    match p {
        Some(v) => if -1000000 <= v.remaining_ms <= 1000000 {
            p
        } else {
            None
        },
        None => None,
    }
}

/// The plain components of the restored slot `j`: the saved values where
/// they pass validation, nothing where they do not. (References are in
/// `restored_refs`, resolved by a second pass once every entity exists.)
pub open spec fn restored_basic(sd: SaveData, w: World, j: int) -> bool {
    let se = sd.entities@[j];
    &&& w.alive@[j]
    &&& w.position@[j] == keep_pos(se.position)
    &&& w.renderable@[j] == se.renderable
    &&& w.player@[j] == se.player
    &&& w.monster@[j] == se.monster
    &&& w.name@[j] == se.name
    &&& (se.viewshed is Some && 0 <= se.viewshed->0.range <= 20 && (forall|k: int|
        0 <= k < se.viewshed->0.visible_tiles.len() ==> (
        #[trigger] se.viewshed->0.visible_tiles@[k]) < 3440) ==> w.viewshed@[j] is Some
        && w.viewshed@[j]->0.range == se.viewshed->0.range && w.viewshed@[j]->0.dirty
        == se.viewshed->0.dirty && w.viewshed@[j]->0.visible_tiles@
        == se.viewshed->0.visible_tiles@)
    &&& (se.viewshed is None ==> w.viewshed@[j] is None)
    &&& w.blocks_tile@[j] == se.blocks_tile
    &&& w.combat_stats@[j] == keep_stats(se.combat_stats)
    &&& (se.suffer_damage is Some && se.suffer_damage->0.wf() ==> w.suffer_damage@[j] is Some
        && w.suffer_damage@[j]->0.amounts@ == se.suffer_damage->0.amounts@)
    &&& (se.suffer_damage is None ==> w.suffer_damage@[j] is None)
    &&& w.item@[j] == se.item
    &&& w.consumable@[j] == se.consumable
    &&& w.ranged@[j] == se.ranged
    &&& w.provides_healing@[j] == keep_heal(se.provides_healing)
    &&& w.provides_water@[j] == se.provides_water
    &&& w.inflicts_damage@[j] == keep_inflict(se.inflicts_damage)
    &&& w.area_of_effect@[j] == keep_aoe(se.area_of_effect)
    &&& w.confusion@[j] == se.confusion
    &&& w.equippable@[j] == se.equippable
    &&& w.melee_power_bonus@[j] == keep_power(se.melee_power_bonus)
    &&& w.defense_bonus@[j] == keep_defense(se.defense_bonus)
    &&& w.thirst_clock@[j] == keep_clock(se.thirst_clock)
    &&& w.magic_mapper@[j] == se.magic_mapper
    &&& w.hidden@[j] == se.hidden
    &&& w.entry_trigger@[j] == se.entry_trigger
    &&& w.triggers_once@[j] == se.triggers_once
    &&& w.particle_lifetime@[j] == keep_particle(se.particle_lifetime)
}

/// The reference components of the restored slot `j`: owners resolved
/// back through the markers, or absent when the marker is gone.
pub open spec fn restored_refs(sd: SaveData, w: World, j: int) -> bool {
    let se = sd.entities@[j];
    &&& (match se.in_backpack_owner {
        Some(mk) => (w.in_backpack@[j] is Some ==> w.in_backpack@[j]->0.owner < w.n()
            && sd.entities@[w.in_backpack@[j]->0.owner as int].marker == mk) && (w.in_backpack@[j] is None
            ==> forall|j2: int|
            0 <= j2 < sd.entities.len() ==> (#[trigger] sd.entities@[j2]).marker != mk),
        None => w.in_backpack@[j] is None,
    })
    &&& (match se.equipped_owner {
        Some(pair) => (w.equipped@[j] is Some ==> w.equipped@[j]->0.owner < w.n()
            && sd.entities@[w.equipped@[j]->0.owner as int].marker == pair.0
            && w.equipped@[j]->0.slot == pair.1) && (w.equipped@[j] is None ==> forall|j2: int|
            0 <= j2 < sd.entities.len() ==> (#[trigger] sd.entities@[j2]).marker != pair.0),
        None => w.equipped@[j] is None,
    })
}

/// The whole restored slot.
pub open spec fn restored_matches(sd: SaveData, w: World, j: int) -> bool {
    restored_basic(sd, w, j) && restored_refs(sd, w, j)
}

/// `cur` is `prev` grown by the restored form of saved record `se`: every
/// table pushed once, scalar components sanitised, references and intents
/// left empty, lists installed separately.
/// Phase one of a restored slot: the identity, tag and stat tables grown
/// by the record's validated values; the remaining tables untouched.
pub open spec fn grown_restored_a(prev: World, cur: World, se: SavedEntity, mk: u64) -> bool {
    &&& cur.alive@ == prev.alive@.push(true)
    &&& cur.marker@ == prev.marker@.push(mk)
    &&& cur.next_marker == prev.next_marker + 1
    &&& cur.pending_delete@ == prev.pending_delete@
    &&& cur.position@ == prev.position@.push(keep_pos(se.position))
    &&& cur.renderable@ == prev.renderable@.push(se.renderable)
    &&& cur.player@ == prev.player@.push(se.player)
    &&& cur.monster@ == prev.monster@.push(se.monster)
    &&& cur.name@.len() == prev.name@.len() + 1
    &&& cur.name@.take(prev.name@.len() as int) == prev.name@
    &&& cur.name@.last() == se.name
    &&& cur.viewshed@.len() == prev.viewshed@.len() + 1
    &&& cur.viewshed@.take(prev.viewshed@.len() as int) == prev.viewshed@
    &&& (viewshed_valid(se) ==> cur.viewshed@.last() is Some && cur.viewshed@.last()->0.range
        == se.viewshed->0.range && cur.viewshed@.last()->0.dirty == se.viewshed->0.dirty
        && cur.viewshed@.last()->0.visible_tiles@ == se.viewshed->0.visible_tiles@)
    &&& (!viewshed_valid(se) ==> cur.viewshed@.last() is None)
    &&& cur.blocks_tile@ == prev.blocks_tile@.push(se.blocks_tile)
    &&& cur.combat_stats@ == prev.combat_stats@.push(keep_stats(se.combat_stats))
    &&& cur.suffer_damage@.len() == prev.suffer_damage@.len() + 1
    &&& cur.suffer_damage@.take(prev.suffer_damage@.len() as int) == prev.suffer_damage@
    &&& (damage_valid(se) ==> cur.suffer_damage@.last() is Some
        && cur.suffer_damage@.last()->0.amounts@ == se.suffer_damage->0.amounts@
        && cur.suffer_damage@.last()->0.wf())
    &&& (!damage_valid(se) ==> cur.suffer_damage@.last() is None)
    &&& cur.item@ == prev.item@.push(se.item)
    &&& cur.consumable@ == prev.consumable@.push(se.consumable)
    &&& cur.ranged@ == prev.ranged@.push(se.ranged)
    &&& cur.provides_healing@ == prev.provides_healing@.push(keep_heal(se.provides_healing))
    &&& cur.provides_water@ == prev.provides_water@.push(se.provides_water)
    &&& cur.inflicts_damage@ == prev.inflicts_damage@
    &&& cur.area_of_effect@ == prev.area_of_effect@
    &&& cur.confusion@ == prev.confusion@
    &&& cur.in_backpack@ == prev.in_backpack@
    &&& cur.equippable@ == prev.equippable@
    &&& cur.equipped@ == prev.equipped@
    &&& cur.melee_power_bonus@ == prev.melee_power_bonus@
    &&& cur.defense_bonus@ == prev.defense_bonus@
    &&& cur.thirst_clock@ == prev.thirst_clock@
    &&& cur.magic_mapper@ == prev.magic_mapper@
    &&& cur.hidden@ == prev.hidden@
    &&& cur.entry_trigger@ == prev.entry_trigger@
    &&& cur.triggers_once@ == prev.triggers_once@
    &&& cur.entity_moved@ == prev.entity_moved@
    &&& cur.particle_lifetime@ == prev.particle_lifetime@
    &&& cur.wants_to_pickup@ == prev.wants_to_pickup@
    &&& cur.wants_to_use@ == prev.wants_to_use@
    &&& cur.wants_to_drop@ == prev.wants_to_drop@
    &&& cur.wants_to_remove@ == prev.wants_to_remove@
    &&& cur.does_melee@ == prev.does_melee@
}

/// A saved viewshed that passes validation.
pub open spec fn viewshed_valid(se: SavedEntity) -> bool {
    se.viewshed is Some && 0 <= se.viewshed->0.range <= 20 && (forall|k: int|
        0 <= k < se.viewshed->0.visible_tiles.len() ==> (
        #[trigger] se.viewshed->0.visible_tiles@[k]) < 3440)
}

/// A saved damage accumulator that passes validation.
pub open spec fn damage_valid(se: SavedEntity) -> bool {
    se.suffer_damage is Some && se.suffer_damage->0.wf()
}

/// Phase two of a restored slot: the effect and flag tables grown by the
/// record's validated values (references and intents empty); the tables
/// phase one grew are untouched.
pub open spec fn grown_restored_b(prev: World, cur: World, se: SavedEntity) -> bool {
    &&& cur.alive@ == prev.alive@
    &&& cur.marker@ == prev.marker@
    &&& cur.next_marker == prev.next_marker
    &&& cur.pending_delete@ == prev.pending_delete@
    &&& cur.position@ == prev.position@
    &&& cur.renderable@ == prev.renderable@
    &&& cur.player@ == prev.player@
    &&& cur.monster@ == prev.monster@
    &&& cur.name@ == prev.name@
    &&& cur.viewshed@ == prev.viewshed@
    &&& cur.blocks_tile@ == prev.blocks_tile@
    &&& cur.combat_stats@ == prev.combat_stats@
    &&& cur.suffer_damage@ == prev.suffer_damage@
    &&& cur.item@ == prev.item@
    &&& cur.consumable@ == prev.consumable@
    &&& cur.ranged@ == prev.ranged@
    &&& cur.provides_healing@ == prev.provides_healing@
    &&& cur.provides_water@ == prev.provides_water@
    &&& cur.inflicts_damage@ == prev.inflicts_damage@.push(keep_inflict(se.inflicts_damage))
    &&& cur.area_of_effect@ == prev.area_of_effect@.push(keep_aoe(se.area_of_effect))
    &&& cur.confusion@ == prev.confusion@.push(se.confusion)
    &&& cur.in_backpack@ == prev.in_backpack@.push(None::<InBackpack>)
    &&& cur.equippable@ == prev.equippable@.push(se.equippable)
    &&& cur.equipped@ == prev.equipped@.push(None::<Equipped>)
    &&& cur.melee_power_bonus@ == prev.melee_power_bonus@.push(keep_power(se.melee_power_bonus))
    &&& cur.defense_bonus@ == prev.defense_bonus@.push(keep_defense(se.defense_bonus))
    &&& cur.thirst_clock@ == prev.thirst_clock@.push(keep_clock(se.thirst_clock))
    &&& cur.magic_mapper@ == prev.magic_mapper@
    &&& cur.hidden@ == prev.hidden@
    &&& cur.entry_trigger@ == prev.entry_trigger@
    &&& cur.triggers_once@ == prev.triggers_once@
    &&& cur.entity_moved@ == prev.entity_moved@
    &&& cur.particle_lifetime@ == prev.particle_lifetime@
    &&& cur.wants_to_pickup@ == prev.wants_to_pickup@
    &&& cur.wants_to_use@ == prev.wants_to_use@
    &&& cur.wants_to_drop@ == prev.wants_to_drop@
    &&& cur.wants_to_remove@ == prev.wants_to_remove@
    &&& cur.does_melee@ == prev.does_melee@
}

/// Phase three of a restored slot: the marker-tag and intent tables grown
/// (intents always empty after a load); everything else untouched.
pub open spec fn grown_restored_c(prev: World, cur: World, se: SavedEntity) -> bool {
    &&& cur.alive@ == prev.alive@
    &&& cur.marker@ == prev.marker@
    &&& cur.next_marker == prev.next_marker
    &&& cur.pending_delete@ == prev.pending_delete@
    &&& cur.position@ == prev.position@
    &&& cur.renderable@ == prev.renderable@
    &&& cur.player@ == prev.player@
    &&& cur.monster@ == prev.monster@
    &&& cur.name@ == prev.name@
    &&& cur.viewshed@ == prev.viewshed@
    &&& cur.blocks_tile@ == prev.blocks_tile@
    &&& cur.combat_stats@ == prev.combat_stats@
    &&& cur.suffer_damage@ == prev.suffer_damage@
    &&& cur.item@ == prev.item@
    &&& cur.consumable@ == prev.consumable@
    &&& cur.ranged@ == prev.ranged@
    &&& cur.provides_healing@ == prev.provides_healing@
    &&& cur.provides_water@ == prev.provides_water@
    &&& cur.inflicts_damage@ == prev.inflicts_damage@
    &&& cur.area_of_effect@ == prev.area_of_effect@
    &&& cur.confusion@ == prev.confusion@
    &&& cur.in_backpack@ == prev.in_backpack@
    &&& cur.equippable@ == prev.equippable@
    &&& cur.equipped@ == prev.equipped@
    &&& cur.melee_power_bonus@ == prev.melee_power_bonus@
    &&& cur.defense_bonus@ == prev.defense_bonus@
    &&& cur.thirst_clock@ == prev.thirst_clock@
    &&& cur.magic_mapper@ == prev.magic_mapper@.push(se.magic_mapper)
    &&& cur.hidden@ == prev.hidden@.push(se.hidden)
    &&& cur.entry_trigger@ == prev.entry_trigger@.push(se.entry_trigger)
    &&& cur.triggers_once@ == prev.triggers_once@.push(se.triggers_once)
    &&& cur.entity_moved@ == prev.entity_moved@.push(false)
    &&& cur.particle_lifetime@ == prev.particle_lifetime@.push(keep_particle(se.particle_lifetime))
    &&& cur.wants_to_pickup@ == prev.wants_to_pickup@.push(None::<crate::components::WantsToPickupItem>)
    &&& cur.wants_to_use@ == prev.wants_to_use@.push(None::<crate::components::WantsToUseItem>)
    &&& cur.wants_to_drop@ == prev.wants_to_drop@.push(None::<crate::components::WantsToDropItem>)
    &&& cur.wants_to_remove@ == prev.wants_to_remove@.push(None::<crate::components::WantsToRemoveItem>)
    &&& cur.does_melee@ == prev.does_melee@.push(None::<crate::components::DoesMelee>)
}


/// Growing a well-formed world by one restored slot keeps it well-formed,
/// installs exactly the record's validated components at the new slot,
/// and touches no earlier slot.
#[verifier::spinoff_prover]
#[verifier::rlimit(100)]
proof fn lemma_restored_slot(prev: World, mid: World, mid2: World, cur: World, sd: SaveData, j: int)
    requires
        prev.wf(),
        0 <= j < sd.entities.len(),
        j < 65536,
        prev.n() == j,
        prev.next_marker == j + 1,
        grown_restored_a(prev, mid, sd.entities@[j], prev.next_marker),
        grown_restored_b(mid, mid2, sd.entities@[j]),
        grown_restored_c(mid2, cur, sd.entities@[j]),
    ensures
        cur.wf(),
        cur.n() == j + 1,
        cur.next_marker == j + 2,
        restored_basic(sd, cur, j),
        forall|j2: int| 0 <= j2 < j ==> #[trigger] unchanged_at(prev, cur, j2),
{
    assert forall|i: int|
        0 <= i < j implies cur.name@[i] == prev.name@[i] && cur.viewshed@[i] == prev.viewshed@[i]
        && cur.suffer_damage@[i] == prev.suffer_damage@[i] by {
        assert(cur.name@.take(j)[i] == cur.name@[i]);
        assert(cur.viewshed@.take(j)[i] == cur.viewshed@[i]);
        assert(cur.suffer_damage@.take(j)[i] == cur.suffer_damage@[i]);
    }
    assert(cur.wf_lens());
    assert(cur.wf_markers()) by {
        assert forall|i1: int, i2: int|
            0 <= i1 < cur.n() && 0 <= i2 < cur.n() && i1 != i2 implies #[trigger] cur.marker@[i1]
            != #[trigger] cur.marker@[i2] by {
            if i1 < j && i2 < j {
                assert(cur.marker@[i1] == prev.marker@[i1]);
                assert(cur.marker@[i2] == prev.marker@[i2]);
            } else if i1 == j {
                assert(cur.marker@[i2] == prev.marker@[i2] && prev.marker@[i2] < prev.next_marker);
            } else {
                assert(cur.marker@[i1] == prev.marker@[i1] && prev.marker@[i1] < prev.next_marker);
            }
        }
    }
    assert(cur.wf_data());
    assert(restored_basic(sd, cur, j));
    assert forall|j2: int| 0 <= j2 < j implies #[trigger] unchanged_at(prev, cur, j2) by {
        assert(cur.viewshed@[j2] == prev.viewshed@[j2]);
        assert(cur.name@[j2] == prev.name@[j2]);
        assert(cur.suffer_damage@[j2] == prev.suffer_damage@[j2]);
    }
}

/// Copies a tile list, reporting whether every entry lies on the grid.
fn copy_checked_tiles(v: &Vec<usize>) -> (r: (Vec<usize>, bool))
    ensures
        r.0@ == v@,
        r.1 == (forall|k: int| 0 <= k < v.len() ==> (#[trigger] v@[k]) < 3440),
{
    let mut out: Vec<usize> = Vec::new();
    let mut all_ok = true;
    let mut k: usize = 0;
    while k < v.len()
        invariant
            k <= v.len(),
            out@ =~= v@.take(k as int),
            all_ok == (forall|k2: int| 0 <= k2 < k ==> (#[trigger] v@[k2]) < 3440),
        decreases v.len() - k,
    {
        let t = v[k];
        if t >= 3440 {
            all_ok = false;
        }
        out.push(t);
        proof {
            assert(out@ =~= v@.take(k + 1));
        }
        k = k + 1;
    }
    proof {
        assert(out@ =~= v@);
    }
    (out, all_ok)
}

/// Copies a damage list, reporting whether every amount is non-negative.
fn copy_checked_amounts(v: &Vec<i32>) -> (r: (Vec<i32>, bool))
    ensures
        r.0@ == v@,
        r.1 == (forall|k: int| 0 <= k < v.len() ==> 0 <= #[trigger] v@[k]),
{
    let mut out: Vec<i32> = Vec::new();
    let mut all_ok = true;
    let mut k: usize = 0;
    while k < v.len()
        invariant
            k <= v.len(),
            out@ =~= v@.take(k as int),
            all_ok == (forall|k2: int| 0 <= k2 < k ==> 0 <= #[trigger] v@[k2]),
        decreases v.len() - k,
    {
        let a = v[k];
        if a < 0 {
            all_ok = false;
        }
        out.push(a);
        proof {
            assert(out@ =~= v@.take(k + 1));
        }
        k = k + 1;
    }
    proof {
        assert(out@ =~= v@);
    }
    (out, all_ok)
}

/// Phase one of restoring a saved record: grows the identity, tag and
/// stat tables by the record's validated values.
#[verifier::spinoff_prover]
#[verifier::rlimit(100)]
fn restore_entity_a(world: &mut World, sd: &SaveData, j: usize)
    requires
        j < sd.entities.len(),
        old(world).n() == j,
        old(world).next_marker == j + 1,
        old(world).wf_lens(),
    ensures
        grown_restored_a(*old(world), *final(world), sd.entities@[j as int], old(world).next_marker),
{
    let se = &sd.entities[j];
    let position: Option<Position> = match se.position {
        Some(p) => {
            if 0 <= p.x && p.x < 80 && 0 <= p.y && p.y < 43 {
                Some(p)
            } else {
                None
            }
        },
        None => None,
    };
    let name: Option<String> = match &se.name {
        Some(nm) => Some(nm.clone()),
        None => None,
    };
    let viewshed: Option<Viewshed> = match &se.viewshed {
        Some(v) => {
            if 0 <= v.range && v.range <= 20 {
                let (vt, all_ok) = copy_checked_tiles(&v.visible_tiles);
                if all_ok {
                    Some(Viewshed { visible_tiles: vt, range: v.range, dirty: v.dirty })
                } else {
                    None
                }
            } else {
                None
            }
        },
        None => None,
    };
    let combat_stats: Option<CombatStats> = match se.combat_stats {
        Some(cs) => {
            if -STAT_MAX <= cs.hp && cs.hp <= cs.max_hp && 0 <= cs.max_hp && cs.max_hp <= STAT_MAX
                && 0 <= cs.power && cs.power <= STAT_MAX && 0 <= cs.defense && cs.defense
                <= STAT_MAX {
                Some(cs)
            } else {
                None
            }
        },
        None => None,
    };
    let suffer_damage: Option<SufferDamage> = match &se.suffer_damage {
        Some(d) => {
            let (amounts, all_ok) = copy_checked_amounts(&d.amounts);
            if all_ok {
                Some(SufferDamage { amounts })
            } else {
                None
            }
        },
        None => None,
    };
    let provides_healing: Option<ProvidesHealing> = match se.provides_healing {
        Some(h) => {
            if 0 <= h.heal_amount && h.heal_amount <= STAT_MAX {
                Some(h)
            } else {
                None
            }
        },
        None => None,
    };
    world.alive.push(true);
    world.marker.push(world.next_marker);
    world.next_marker = world.next_marker + 1;
    world.position.push(position);
    world.renderable.push(se.renderable);
    world.player.push(se.player);
    world.monster.push(se.monster);
    world.name.push(name);
    world.viewshed.push(viewshed);
    world.blocks_tile.push(se.blocks_tile);
    world.combat_stats.push(combat_stats);
    world.suffer_damage.push(suffer_damage);
    world.item.push(se.item);
    world.consumable.push(se.consumable);
    world.ranged.push(se.ranged);
    world.provides_healing.push(provides_healing);
    world.provides_water.push(se.provides_water);
    proof {
        assert(world.name@.take(old(world).name@.len() as int) =~= old(world).name@);
        assert(world.viewshed@.take(old(world).viewshed@.len() as int) =~= old(world).viewshed@);
        assert(world.suffer_damage@.take(old(world).suffer_damage@.len() as int) =~= old(
            world,
        ).suffer_damage@);
    }
}

/// Phase two of restoring a saved record: grows the effect and flag
/// tables; references and intents start empty.
#[verifier::spinoff_prover]
#[verifier::rlimit(100)]
fn restore_entity_b(world: &mut World, sd: &SaveData, j: usize)
    requires
        j < sd.entities.len(),
    ensures
        grown_restored_b(*old(world), *final(world), sd.entities@[j as int]),
{
    let se = &sd.entities[j];
    let inflicts_damage: Option<InflictsDamage> = match se.inflicts_damage {
        Some(d) => {
            if 0 <= d.damage && d.damage <= STAT_MAX {
                Some(d)
            } else {
                None
            }
        },
        None => None,
    };
    let area_of_effect: Option<AreaOfEffect> = match se.area_of_effect {
        Some(a) => {
            if 0 <= a.radius && a.radius <= 20 {
                Some(a)
            } else {
                None
            }
        },
        None => None,
    };
    let melee_power_bonus: Option<MeleePowerBonus> = match se.melee_power_bonus {
        Some(b) => {
            if 0 <= b.power && b.power <= STAT_MAX {
                Some(b)
            } else {
                None
            }
        },
        None => None,
    };
    let defense_bonus: Option<DefenseBonus> = match se.defense_bonus {
        Some(b) => {
            if 0 <= b.defense && b.defense <= STAT_MAX {
                Some(b)
            } else {
                None
            }
        },
        None => None,
    };
    let thirst_clock: Option<ThirstClock> = match se.thirst_clock {
        Some(tc) => {
            if 0 <= tc.duration && tc.duration <= 100000 {
                Some(tc)
            } else {
                None
            }
        },
        None => None,
    };
    world.inflicts_damage.push(inflicts_damage);
    world.area_of_effect.push(area_of_effect);
    world.confusion.push(se.confusion);
    world.in_backpack.push(None);
    world.equippable.push(se.equippable);
    world.equipped.push(None);
    world.melee_power_bonus.push(melee_power_bonus);
    world.defense_bonus.push(defense_bonus);
    world.thirst_clock.push(thirst_clock);
}

/// Phase three of restoring a saved record: grows the remaining flag and
/// intent tables (intents are transient and load empty).
#[verifier::spinoff_prover]
#[verifier::rlimit(100)]
fn restore_entity_c(world: &mut World, sd: &SaveData, j: usize)
    requires
        j < sd.entities.len(),
    ensures
        grown_restored_c(*old(world), *final(world), sd.entities@[j as int]),
{
    let se = &sd.entities[j];
    let particle_lifetime: Option<ParticleLifetime> = match se.particle_lifetime {
        Some(pl) => {
            if -1000000 <= pl.remaining_ms && pl.remaining_ms <= 1000000 {
                Some(pl)
            } else {
                None
            }
        },
        None => None,
    };
    world.magic_mapper.push(se.magic_mapper);
    world.hidden.push(se.hidden);
    world.entry_trigger.push(se.entry_trigger);
    world.triggers_once.push(se.triggers_once);
    world.entity_moved.push(false);
    world.particle_lifetime.push(particle_lifetime);
    world.wants_to_pickup.push(None);
    world.wants_to_use.push(None);
    world.wants_to_drop.push(None);
    world.wants_to_remove.push(None);
    world.does_melee.push(None);
}

/// Resolves the saved owner references of slot `j` through the markers.
fn apply_refs(world: &mut World, sd: &SaveData, j: usize)
    requires
        old(world).wf(),
        j < sd.entities.len(),
        old(world).n() == sd.entities.len(),
    ensures
        final(world).wf(),
        final(world).n() == old(world).n(),
        *final(world) == (World {
            in_backpack: final(world).in_backpack,
            equipped: final(world).equipped,
            ..*old(world)
        }),
        restored_refs(*sd, *final(world), j as int),
        forall|j2: int|
            0 <= j2 < old(world).n() && j2 != j ==> (#[trigger] final(world).in_backpack@[j2])
                == old(world).in_backpack@[j2] && final(world).equipped@[j2] == old(
                world,
            ).equipped@[j2],
{
    let se = &sd.entities[j];
    match se.in_backpack_owner {
        Some(mk) => {
            match find_marker(&sd.entities, mk) {
                Some(owner) => {
                    world.in_backpack.set(j, Some(InBackpack { owner }));
                },
                None => {
                    world.in_backpack.set(j, None);
                },
            }
        },
        None => {
            world.in_backpack.set(j, None);
        },
    }
    match se.equipped_owner {
        Some(pair) => {
            match find_marker(&sd.entities, pair.0) {
                Some(owner) => {
                    world.equipped.set(j, Some(Equipped { owner, slot: pair.1 }));
                },
                None => {
                    world.equipped.set(j, None);
                },
            }
        },
        None => {
            world.equipped.set(j, None);
        },
    }
}

/// Rebuilds a world from a snapshot: one fresh entity per saved record in
/// order, components installed where they pass validation (a malformed
/// record loses the bad component rather than corrupting the world),
/// references resolved through the markers. Returns the world, the map
/// with its transient occupant cache reset, and the player with its
/// position — the camera focus — when the snapshot holds one. Reading the
/// file and decoding it into `SaveData` is the shell's concern.
pub fn load_game(sd: &SaveData) -> (r: (World, GameMap, Option<(Entity, Position)>))
    requires
        sd.map.wf(),
        sd.entities.len() <= 65536,
    ensures
        r.0.wf(),
        r.0.n() == sd.entities.len(),
        forall|j: int| 0 <= j < sd.entities.len() ==> #[trigger] restored_matches(*sd, r.0, j),
        r.1.wf(),
        same_map(r.1, GameMap { tile_content: r.1.tile_content, ..sd.map }),
        forall|t: int| 0 <= t < 3440 ==> (#[trigger] r.1.tile_content@[t])@ =~= Seq::<Entity>::empty(),
        match r.2 {
            Some(pp) => pp.0 < sd.entities.len() && r.0.player@[pp.0 as int]
                && r.0.position@[pp.0 as int] == Some(pp.1),
            None => forall|j: int|
                0 <= j < sd.entities.len() ==> !((#[trigger] r.0.player@[j]) && r.0.position@[j] is Some),
        },
{
    let mut world = World::new();
    let n = sd.entities.len();
    let mut j: usize = 0;
    while j < n
        invariant
            world.wf(),
            n == sd.entities.len(),
            n <= 65536,
            j <= n,
            world.n() == j,
            world.next_marker == j + 1,
            forall|j2: int| 0 <= j2 < j ==> #[trigger] restored_basic(*sd, world, j2),
        decreases n - j,
    {
        let ghost w0 = world;
        restore_entity_a(&mut world, sd, j);
        let ghost w_mid = world;
        restore_entity_b(&mut world, sd, j);
        let ghost w_mid2 = world;
        restore_entity_c(&mut world, sd, j);
        proof {
            lemma_restored_slot(w0, w_mid, w_mid2, world, *sd, j as int);
            assert forall|j2: int| 0 <= j2 < j + 1 implies #[trigger] restored_basic(
                *sd,
                world,
                j2,
            ) by {
                if j2 < j {
                    assert(restored_basic(*sd, w0, j2));
                    assert(unchanged_at(w0, world, j2));
                }
            }
        }
        j = j + 1;
    }
    // Resolve the owner references now that every entity exists.
    let mut j2: usize = 0;
    while j2 < n
        invariant
            world.wf(),
            n == sd.entities.len(),
            world.n() == n,
            j2 <= n,
            forall|k: int| 0 <= k < n ==> #[trigger] restored_basic(*sd, world, k),
            forall|k: int| 0 <= k < j2 ==> #[trigger] restored_refs(*sd, world, k),
        decreases n - j2,
    {
        let ghost w0 = world;
        apply_refs(&mut world, sd, j2);
        proof {
            assert forall|k: int| 0 <= k < n implies #[trigger] restored_basic(*sd, world, k) by {
                assert(restored_basic(*sd, w0, k));
            }
            assert forall|k: int| 0 <= k < j2 + 1 implies #[trigger] restored_refs(
                *sd,
                world,
                k,
            ) by {
                if k < j2 {
                    assert(restored_refs(*sd, w0, k));
                }
            }
        }
        j2 = j2 + 1;
    }
    // Install the map with a fresh occupant cache.
    let mut map = clone_map(&sd.map);
    map.clear_content_index();
    // Re-identify the player: the camera focus point.
    let mut player_found: Option<(Entity, Position)> = None;
    let mut p: usize = 0;
    while p < n
        invariant
            world.wf(),
            n == world.n(),
            p <= n,
            match player_found {
                Some(pp) => pp.0 < n && world.player@[pp.0 as int] && world.position@[pp.0 as int]
                    == Some(pp.1),
                None => forall|j3: int|
                    0 <= j3 < p ==> !((#[trigger] world.player@[j3]) && world.position@[j3] is Some),
            },
        decreases n - p,
    {
        match player_found {
            Some(_) => {},
            None => {
                if world.player[p] {
                    match world.position[p] {
                        Some(pos) => {
                            player_found = Some((p, pos));
                        },
                        None => {},
                    }
                }
            },
        }
        p = p + 1;
    }
    (world, map, player_found)
}

} // verus!

//! Spawning: the depth-scaled weighted spawn table, the archetype
//! construction recipes, and the per-room / per-region placement that
//! picks distinct tiles without replacement.

use vstd::prelude::*;
use crate::components::{
    Entity, Position, Renderable, Color, Viewshed, CombatStats, ThirstClock, ThirstState,
    EquipmentSlot, Equippable, MeleePowerBonus, DefenseBonus, ProvidesHealing, InflictsDamage,
    AreaOfEffect, Confusion, Ranged,
};
use crate::world::{World, world_extends, unchanged_at};
use crate::map::{GameMap, TileType, spec_idx, spec_x, spec_y, lemma_xy_idx};
use crate::rect::Rect;
use crate::rng::roll_dice;

verus! {

/// The things the spawn table can produce.
#[derive(Clone, Copy, PartialEq, Eq, Structural, Debug)]
pub enum Archetype {
    Goblin,
    Orc,
    HealthPotion,
    BloodVial,
    FireballScroll,
    ConfusionScroll,
    MagicMissileScroll,
    MapScroll,
    Dagger,
    Sword,
    Shield,
    TowerShield,
    SpikeTrap,
    SnapTrap,
}

/// A weighted random table: a cumulative-weight draw over the entries
/// with positive weight.
pub struct RandomTable {
    pub entries: Vec<(Archetype, i32)>,
    pub total_weight: i32,
}

impl RandomTable {
    /// The sum of the positive weights of the first `k` entries.
    pub open spec fn weight_upto(entries: Seq<(Archetype, i32)>, k: int) -> int
        decreases k,
    {
        if k <= 0 {
            0
        } else {
            Self::weight_upto(entries, k - 1) + (
            if entries[k - 1].1 > 0 {
                entries[k - 1].1 as int
            } else {
                0
            })
        }
    }

    pub open spec fn wf(self) -> bool {
        &&& self.total_weight == Self::weight_upto(self.entries@, self.entries.len() as int)
        &&& self.entries.len() <= 100
        &&& forall|k: int|
            0 <= k < self.entries.len() ==> -10000 <= (#[trigger] self.entries@[k]).1 <= 10000
    }

    pub fn new() -> (t: RandomTable)
        ensures
            t.wf(),
            t.entries@ =~= Seq::<(Archetype, i32)>::empty(),
    {
        RandomTable { entries: Vec::new(), total_weight: 0 }
    }

    proof fn lemma_weight_nonneg(entries: Seq<(Archetype, i32)>, k: int)
        ensures
            Self::weight_upto(entries, k) >= 0,
        decreases k,
    {
        if k > 0 {
            Self::lemma_weight_nonneg(entries, k - 1);
        }
    }

    proof fn lemma_weight_bound(entries: Seq<(Archetype, i32)>, k: int)
        requires
            forall|j: int| 0 <= j < entries.len() ==> -10000 <= (#[trigger] entries[j]).1 <= 10000,
            0 <= k <= entries.len(),
        ensures
            Self::weight_upto(entries, k) <= 10000 * k,
        decreases k,
    {
        if k > 0 {
            Self::lemma_weight_bound(entries, k - 1);
        }
    }

    proof fn lemma_weight_prefix(e1: Seq<(Archetype, i32)>, e2: Seq<(Archetype, i32)>, k: int)
        requires
            k <= e1.len(),
            k <= e2.len(),
            forall|j: int| 0 <= j < k ==> #[trigger] e1[j] == e2[j],
        ensures
            Self::weight_upto(e1, k) == Self::weight_upto(e2, k),
        decreases k,
    {
        if k > 0 {
            Self::lemma_weight_prefix(e1, e2, k - 1);
        }
    }

    proof fn lemma_weight_mono(entries: Seq<(Archetype, i32)>, k1: int, k2: int)
        requires
            0 <= k1 <= k2,
        ensures
            Self::weight_upto(entries, k1) <= Self::weight_upto(entries, k2),
        decreases k2 - k1,
    {
        if k2 > k1 {
            Self::lemma_weight_mono(entries, k1, k2 - 1);
        }
    }

    /// Adds an entry; non-positive weights stay in the list but can never
    /// be drawn.
    pub fn add(self, archetype: Archetype, weight: i32) -> (t: RandomTable)
        requires
            self.wf(),
            self.entries.len() < 100,
            -10000 <= weight <= 10000,
        ensures
            t.wf(),
            t.entries@ == self.entries@.push((archetype, weight)),
    {
        let mut entries = self.entries;
        let mut total = self.total_weight;
        proof {
            Self::lemma_weight_nonneg(entries@, entries.len() as int);
            Self::lemma_weight_bound(entries@, entries.len() as int);
        }
        if weight > 0 {
            total = total + weight;
        }
        entries.push((archetype, weight));
        proof {
            assert(entries@.drop_last() =~= self.entries@);
            Self::lemma_weight_prefix(entries@, self.entries@, self.entries.len() as int);
        }
        RandomTable { entries, total_weight: total }
    }

    /// Draws an entry: `Some` of an entry with positive weight exactly
    /// when the table holds any positive weight at all, whichever way the
    /// dice fall.
    pub fn roll(&self, rng: &mut bracket_random::prelude::RandomNumberGenerator) -> (r: Option<
        Archetype,
    >)
        requires
            self.wf(),
        ensures
            r is Some <==> self.total_weight > 0,
            r is Some ==> exists|k: int|
                0 <= k < self.entries.len() && (#[trigger] self.entries@[k]).0 == r->0
                    && self.entries@[k].1 > 0,
    {
        proof {
            Self::lemma_weight_nonneg(self.entries@, self.entries.len() as int);
            Self::lemma_weight_bound(self.entries@, self.entries.len() as int);
        }
        if self.total_weight <= 0 {
            return None;
        }
        let mut draw = roll_dice(rng, 1, self.total_weight) - 1;
        let mut k: usize = 0;
        while k < self.entries.len()
            invariant
                self.wf(),
                k <= self.entries.len(),
                0 <= draw,
                self.total_weight > 0,
                // What remains to be drawn lies in the positive weight
                // beyond the first k entries.
                draw < self.total_weight - Self::weight_upto(self.entries@, k as int),
            decreases self.entries.len() - k,
        {
            let w = self.entries[k].1;
            if w > 0 {
                if draw < w {
                    return Some(self.entries[k].0);
                }
                draw = draw - w;
            }
            k = k + 1;
        }
        proof {
            assert(Self::weight_upto(self.entries@, self.entries.len() as int)
                == self.total_weight);
            assert(false);
        }
        None
    }
}

/// The spawn table of a level: the classic bestiary and loot, with the
/// orc, the sword, the tower shield and the big scrolls growing more
/// likely with depth.
pub fn room_table(map_depth: i32) -> (t: RandomTable)
    requires
        0 <= map_depth <= 1000,
    ensures
        t.wf(),
        t.entries@ =~= seq![
            (Archetype::Goblin, 10i32),
            (Archetype::Orc, (1 + map_depth) as i32),
            (Archetype::HealthPotion, 7i32),
            (Archetype::BloodVial, 11i32),
            (Archetype::FireballScroll, (2 + map_depth) as i32),
            (Archetype::ConfusionScroll, (2 + map_depth) as i32),
            (Archetype::MagicMissileScroll, 4i32),
            (Archetype::MapScroll, 300i32),
            (Archetype::Dagger, 3i32),
            (Archetype::Sword, (map_depth - 1) as i32),
            (Archetype::Shield, 3i32),
            (Archetype::TowerShield, (map_depth - 1) as i32),
            (Archetype::SpikeTrap, 6i32),
            (Archetype::SnapTrap, 6i32),
        ],
        t.total_weight >= 10,
{
    let t = RandomTable::new()
        .add(Archetype::Goblin, 10)
        .add(Archetype::Orc, 1 + map_depth)
        .add(Archetype::HealthPotion, 7)
        .add(Archetype::BloodVial, 11)
        .add(Archetype::FireballScroll, 2 + map_depth)
        .add(Archetype::ConfusionScroll, 2 + map_depth)
        .add(Archetype::MagicMissileScroll, 4)
        .add(Archetype::MapScroll, 300)
        .add(Archetype::Dagger, 3)
        .add(Archetype::Sword, map_depth - 1)
        .add(Archetype::Shield, 3)
        .add(Archetype::TowerShield, map_depth - 1)
        .add(Archetype::SpikeTrap, 6)
        .add(Archetype::SnapTrap, 6);
    proof {
        assert(t.entries@[0].1 == 10);
        assert(RandomTable::weight_upto(t.entries@, 0) == 0);
        assert(RandomTable::weight_upto(t.entries@, 1) == 10);
        RandomTable::lemma_weight_mono(t.entries@, 1, t.entries.len() as int);
    }
    t
}

/// Spawns the player at the given spot and returns its entity.
pub fn player(world: &mut World, player_x: i32, player_y: i32) -> (e: Entity)
    requires
        old(world).wf(),
        old(world).n() < 65000,
        old(world).next_marker < 0xFFFF_FFFF_0000_0000,
        0 <= player_x < 80,
        0 <= player_y < 43,
    ensures
        final(world).wf(),
        e == old(world).n(),
        final(world).n() == old(world).n() + 1,
        world_extends(*old(world), *final(world)),
        final(world).alive@[e as int],
        final(world).position@[e as int] == Some(Position { x: player_x, y: player_y }),
        final(world).player@[e as int],
        final(world).viewshed@[e as int] is Some && final(world).viewshed@[e as int]->0.range == 8
            && final(world).viewshed@[e as int]->0.dirty,
        final(world).combat_stats@[e as int] == Some(
            CombatStats { hp: 30, max_hp: 30, power: 5, defense: 2 },
        ),
        final(world).thirst_clock@[e as int] == Some(
            ThirstClock { state: ThirstState::Quenched, duration: 20 },
        ),
        final(world).name@[e as int] is Some && final(world).name@[e as int]->0@ == "Player"@,
        final(world).viewshed@[e as int]->0.visible_tiles@ =~= Seq::<usize>::empty(),
        final(world).renderable@[e as int] is Some && final(world).renderable@[e as int]->0.render_order == 0,
    {
    let e = world.create_entity();
    world.position.set(e, Some(Position { x: player_x, y: player_y }));
    world.renderable.set(
        e,
        Some(Renderable { glyph: '@', fg: Color::Yellow, bg: Color::Black, render_order: 0 }),
    );
    world.player.set(e, true);
    world.viewshed.set(
        e,
        Some(Viewshed { visible_tiles: Vec::new(), range: 8, dirty: true }),
    );
    world.name.set(e, Some("Player".to_owned()));
    world.combat_stats.set(e, Some(CombatStats { hp: 30, max_hp: 30, power: 5, defense: 2 }));
    world.thirst_clock.set(
        e,
        Some(ThirstClock { state: ThirstState::Quenched, duration: 20 }),
    );
    e
}

/// Spawns one monster with the given looks and stats.
fn monster(
    world: &mut World,
    x: i32,
    y: i32,
    glyph: char,
    name: &str,
    stats: CombatStats,
) -> (e: Entity)
    requires
        old(world).wf(),
        old(world).n() < 65500,
        old(world).next_marker < 0xFFFF_FFFF_0000_0000,
        0 <= x < 80,
        0 <= y < 43,
        stats.wf(),
    ensures
        final(world).wf(),
        e == old(world).n(),
        final(world).n() == old(world).n() + 1,
        world_extends(*old(world), *final(world)),
        final(world).next_marker == old(world).next_marker + 1,
        final(world).alive@[e as int],
        final(world).position@[e as int] == Some(Position { x, y }),
        final(world).monster@[e as int],
        final(world).blocks_tile@[e as int],
        final(world).combat_stats@[e as int] == Some(stats),
        final(world).viewshed@[e as int] is Some,
        !final(world).player@[e as int],
{
    let e = world.create_entity();
    world.position.set(e, Some(Position { x, y }));
    world.renderable.set(
        e,
        Some(Renderable { glyph, fg: Color::Magenta, bg: Color::Black, render_order: 1 }),
    );
    world.viewshed.set(e, Some(Viewshed { visible_tiles: Vec::new(), range: 8, dirty: true }));
    world.monster.set(e, true);
    world.name.set(e, Some(name.to_owned()));
    world.blocks_tile.set(e, true);
    world.combat_stats.set(e, Some(stats));
    e
}

/// Spawns an orc.
pub fn orc(world: &mut World, x: i32, y: i32) -> (e: Entity)
    requires
        old(world).wf(),
        old(world).n() < 65500,
        old(world).next_marker < 0xFFFF_FFFF_0000_0000,
        0 <= x < 80,
        0 <= y < 43,
    ensures
        final(world).wf(),
        e == old(world).n(),
        final(world).n() == old(world).n() + 1,
        world_extends(*old(world), *final(world)),
        final(world).next_marker == old(world).next_marker + 1,
        final(world).alive@[e as int],
        final(world).monster@[e as int],
        final(world).position@[e as int] == Some(Position { x, y }),
        final(world).combat_stats@[e as int] == Some(
            CombatStats { hp: 16, max_hp: 16, power: 4, defense: 1 },
        ),
{
    monster(world, x, y, 'o', "Orc", CombatStats { hp: 16, max_hp: 16, power: 4, defense: 1 })
}

/// Spawns a goblin.
pub fn goblin(world: &mut World, x: i32, y: i32) -> (e: Entity)
    requires
        old(world).wf(),
        old(world).n() < 65500,
        old(world).next_marker < 0xFFFF_FFFF_0000_0000,
        0 <= x < 80,
        0 <= y < 43,
    ensures
        final(world).wf(),
        e == old(world).n(),
        final(world).n() == old(world).n() + 1,
        world_extends(*old(world), *final(world)),
        final(world).next_marker == old(world).next_marker + 1,
        final(world).alive@[e as int],
        final(world).monster@[e as int],
        final(world).position@[e as int] == Some(Position { x, y }),
        final(world).combat_stats@[e as int] == Some(
            CombatStats { hp: 6, max_hp: 6, power: 2, defense: 0 },
        ),
{
    monster(world, x, y, 'g', "Goblin", CombatStats { hp: 6, max_hp: 6, power: 2, defense: 0 })
}

/// Spawns one item entity with the given looks; the caller adds the
/// effect components.
fn item_base(world: &mut World, x: i32, y: i32, glyph: char, fg: Color, name: &str) -> (e: Entity)
    requires
        old(world).wf(),
        old(world).n() < 65500,
        old(world).next_marker < 0xFFFF_FFFF_0000_0000,
        0 <= x < 80,
        0 <= y < 43,
    ensures
        final(world).wf(),
        e == old(world).n(),
        final(world).n() == old(world).n() + 1,
        world_extends(*old(world), *final(world)),
        final(world).next_marker == old(world).next_marker + 1,
        final(world).alive@[e as int],
        final(world).position@[e as int] == Some(Position { x, y }),
        final(world).item@[e as int],
        final(world).consumable@[e as int] == false,
        final(world).equippable@[e as int] is None,
        final(world).provides_healing@[e as int] is None,
        final(world).provides_water@[e as int] == false,
        final(world).inflicts_damage@[e as int] is None,
        final(world).area_of_effect@[e as int] is None,
        final(world).confusion@[e as int] is None,
        final(world).ranged@[e as int] is None,
        final(world).magic_mapper@[e as int] == false,
        final(world).melee_power_bonus@[e as int] is None,
        final(world).defense_bonus@[e as int] is None,
        !final(world).player@[e as int],
        !final(world).monster@[e as int],
        !final(world).hidden@[e as int],
        !final(world).entry_trigger@[e as int],
{
    let e = world.create_entity();
    world.position.set(e, Some(Position { x, y }));
    world.renderable.set(
        e,
        Some(Renderable { glyph, fg, bg: Color::Black, render_order: 2 }),
    );
    world.name.set(e, Some(name.to_owned()));
    world.item.set(e, true);
    e
}

/// Spawns a dagger: a melee-slot equippable with a small power bonus.
pub fn dagger(world: &mut World, x: i32, y: i32) -> (e: Entity)
    requires
        old(world).wf(),
        old(world).n() < 65500,
        old(world).next_marker < 0xFFFF_FFFF_0000_0000,
        0 <= x < 80,
        0 <= y < 43,
    ensures
        final(world).wf(),
        e == old(world).n(),
        final(world).n() == old(world).n() + 1,
        world_extends(*old(world), *final(world)),
        final(world).alive@[e as int],
        final(world).position@[e as int] == Some(Position { x, y }),
        final(world).next_marker == old(world).next_marker + 1,
        final(world).item@[e as int],
        final(world).equippable@[e as int] == Some(Equippable { slot: EquipmentSlot::Melee }),
        final(world).melee_power_bonus@[e as int] == Some(MeleePowerBonus { power: 2 }),
        !final(world).consumable@[e as int],
{
    let e = item_base(world, x, y, '/', Color::DarkCyan, "Dagger");
    let ghost w_mid = *world;
    world.equippable.set(e, Some(Equippable { slot: EquipmentSlot::Melee }));
    world.melee_power_bonus.set(e, Some(MeleePowerBonus { power: 2 }));
    proof {
        assert forall|i: int| 0 <= i < old(world).n() implies #[trigger] crate::world::unchanged_at(
            *old(world),
            *world,
            i,
        ) by {
            assert(crate::world::unchanged_at(*old(world), w_mid, i));
        }
    }
    e
}

/// Spawns a sword: a melee-slot equippable with a larger power bonus.
pub fn sword(world: &mut World, x: i32, y: i32) -> (e: Entity)
    requires
        old(world).wf(),
        old(world).n() < 65500,
        old(world).next_marker < 0xFFFF_FFFF_0000_0000,
        0 <= x < 80,
        0 <= y < 43,
    ensures
        final(world).wf(),
        e == old(world).n(),
        final(world).n() == old(world).n() + 1,
        world_extends(*old(world), *final(world)),
        final(world).alive@[e as int],
        final(world).position@[e as int] == Some(Position { x, y }),
        final(world).next_marker == old(world).next_marker + 1,
        final(world).item@[e as int],
        final(world).equippable@[e as int] == Some(Equippable { slot: EquipmentSlot::Melee }),
        final(world).melee_power_bonus@[e as int] == Some(MeleePowerBonus { power: 4 }),
{
    let e = item_base(world, x, y, '/', Color::Cyan, "Sword");
    let ghost w_mid = *world;
    world.equippable.set(e, Some(Equippable { slot: EquipmentSlot::Melee }));
    world.melee_power_bonus.set(e, Some(MeleePowerBonus { power: 4 }));
    proof {
        assert forall|i: int| 0 <= i < old(world).n() implies #[trigger] crate::world::unchanged_at(
            *old(world),
            *world,
            i,
        ) by {
            assert(crate::world::unchanged_at(*old(world), w_mid, i));
        }
    }
    e
}

/// Spawns a shield: a shield-slot equippable with a small defense bonus.
pub fn shield(world: &mut World, x: i32, y: i32) -> (e: Entity)
    requires
        old(world).wf(),
        old(world).n() < 65500,
        old(world).next_marker < 0xFFFF_FFFF_0000_0000,
        0 <= x < 80,
        0 <= y < 43,
    ensures
        final(world).wf(),
        e == old(world).n(),
        final(world).n() == old(world).n() + 1,
        world_extends(*old(world), *final(world)),
        final(world).alive@[e as int],
        final(world).position@[e as int] == Some(Position { x, y }),
        final(world).next_marker == old(world).next_marker + 1,
        final(world).item@[e as int],
        final(world).equippable@[e as int] == Some(Equippable { slot: EquipmentSlot::Shield }),
        final(world).defense_bonus@[e as int] == Some(DefenseBonus { defense: 1 }),
{
    let e = item_base(world, x, y, '(', Color::DarkCyan, "Shield");
    let ghost w_mid = *world;
    world.equippable.set(e, Some(Equippable { slot: EquipmentSlot::Shield }));
    world.defense_bonus.set(e, Some(DefenseBonus { defense: 1 }));
    proof {
        assert forall|i: int| 0 <= i < old(world).n() implies #[trigger] crate::world::unchanged_at(
            *old(world),
            *world,
            i,
        ) by {
            assert(crate::world::unchanged_at(*old(world), w_mid, i));
        }
    }
    e
}

/// Spawns a tower shield: a shield-slot equippable with a larger bonus.
pub fn tower_shield(world: &mut World, x: i32, y: i32) -> (e: Entity)
    requires
        old(world).wf(),
        old(world).n() < 65500,
        old(world).next_marker < 0xFFFF_FFFF_0000_0000,
        0 <= x < 80,
        0 <= y < 43,
    ensures
        final(world).wf(),
        e == old(world).n(),
        final(world).n() == old(world).n() + 1,
        world_extends(*old(world), *final(world)),
        final(world).alive@[e as int],
        final(world).position@[e as int] == Some(Position { x, y }),
        final(world).next_marker == old(world).next_marker + 1,
        final(world).item@[e as int],
        final(world).equippable@[e as int] == Some(Equippable { slot: EquipmentSlot::Shield }),
        final(world).defense_bonus@[e as int] == Some(DefenseBonus { defense: 3 }),
{
    let e = item_base(world, x, y, '(', Color::Cyan, "Tower Shield");
    let ghost w_mid = *world;
    world.equippable.set(e, Some(Equippable { slot: EquipmentSlot::Shield }));
    world.defense_bonus.set(e, Some(DefenseBonus { defense: 3 }));
    proof {
        assert forall|i: int| 0 <= i < old(world).n() implies #[trigger] crate::world::unchanged_at(
            *old(world),
            *world,
            i,
        ) by {
            assert(crate::world::unchanged_at(*old(world), w_mid, i));
        }
    }
    e
}

/// Spawns a healing consumable.
pub fn health_potion(world: &mut World, x: i32, y: i32) -> (e: Entity)
    requires
        old(world).wf(),
        old(world).n() < 65500,
        old(world).next_marker < 0xFFFF_FFFF_0000_0000,
        0 <= x < 80,
        0 <= y < 43,
    ensures
        final(world).wf(),
        e == old(world).n(),
        final(world).n() == old(world).n() + 1,
        world_extends(*old(world), *final(world)),
        final(world).alive@[e as int],
        final(world).position@[e as int] == Some(Position { x, y }),
        final(world).next_marker == old(world).next_marker + 1,
        final(world).item@[e as int],
        final(world).consumable@[e as int],
        final(world).provides_healing@[e as int] == Some(ProvidesHealing { heal_amount: 8 }),
        final(world).equippable@[e as int] is None,
{
    let e = item_base(world, x, y, '!', Color::Red, "Bloody Heart");
    let ghost w_mid = *world;
    world.consumable.set(e, true);
    world.provides_healing.set(e, Some(ProvidesHealing { heal_amount: 8 }));
    proof {
        assert forall|i: int| 0 <= i < old(world).n() implies #[trigger] crate::world::unchanged_at(
            *old(world),
            *world,
            i,
        ) by {
            assert(crate::world::unchanged_at(*old(world), w_mid, i));
        }
    }
    e
}

/// Spawns a water-providing consumable.
pub fn blood(world: &mut World, x: i32, y: i32) -> (e: Entity)
    requires
        old(world).wf(),
        old(world).n() < 65500,
        old(world).next_marker < 0xFFFF_FFFF_0000_0000,
        0 <= x < 80,
        0 <= y < 43,
    ensures
        final(world).wf(),
        e == old(world).n(),
        final(world).n() == old(world).n() + 1,
        world_extends(*old(world), *final(world)),
        final(world).alive@[e as int],
        final(world).position@[e as int] == Some(Position { x, y }),
        final(world).next_marker == old(world).next_marker + 1,
        final(world).item@[e as int],
        final(world).consumable@[e as int],
        final(world).provides_water@[e as int],
        final(world).equippable@[e as int] is None,
{
    let e = item_base(world, x, y, '!', Color::Red, "Blood Vial");
    let ghost w_mid = *world;
    world.consumable.set(e, true);
    world.provides_water.set(e, true);
    proof {
        assert forall|i: int| 0 <= i < old(world).n() implies #[trigger] crate::world::unchanged_at(
            *old(world),
            *world,
            i,
        ) by {
            assert(crate::world::unchanged_at(*old(world), w_mid, i));
        }
    }
    e
}

/// Spawns a scroll that maps the surroundings.
pub fn map_scroll(world: &mut World, x: i32, y: i32) -> (e: Entity)
    requires
        old(world).wf(),
        old(world).n() < 65500,
        old(world).next_marker < 0xFFFF_FFFF_0000_0000,
        0 <= x < 80,
        0 <= y < 43,
    ensures
        final(world).wf(),
        e == old(world).n(),
        final(world).n() == old(world).n() + 1,
        world_extends(*old(world), *final(world)),
        final(world).alive@[e as int],
        final(world).position@[e as int] == Some(Position { x, y }),
        final(world).next_marker == old(world).next_marker + 1,
        final(world).item@[e as int],
        final(world).consumable@[e as int],
        final(world).magic_mapper@[e as int],
{
    let e = item_base(world, x, y, ')', Color::LightCyan, "Map Scroll");
    let ghost w_mid = *world;
    world.consumable.set(e, true);
    world.magic_mapper.set(e, true);
    proof {
        assert forall|i: int| 0 <= i < old(world).n() implies #[trigger] crate::world::unchanged_at(
            *old(world),
            *world,
            i,
        ) by {
            assert(crate::world::unchanged_at(*old(world), w_mid, i));
        }
    }
    e
}

/// Spawns a single-target damage scroll.
pub fn magic_missile_scroll(world: &mut World, x: i32, y: i32) -> (e: Entity)
    requires
        old(world).wf(),
        old(world).n() < 65500,
        old(world).next_marker < 0xFFFF_FFFF_0000_0000,
        0 <= x < 80,
        0 <= y < 43,
    ensures
        final(world).wf(),
        e == old(world).n(),
        final(world).n() == old(world).n() + 1,
        world_extends(*old(world), *final(world)),
        final(world).alive@[e as int],
        final(world).position@[e as int] == Some(Position { x, y }),
        final(world).next_marker == old(world).next_marker + 1,
        final(world).item@[e as int],
        final(world).consumable@[e as int],
        final(world).ranged@[e as int] == Some(Ranged { range: 6 }),
        final(world).inflicts_damage@[e as int] == Some(InflictsDamage { damage: 8 }),
        final(world).area_of_effect@[e as int] is None,
{
    let e = item_base(world, x, y, ')', Color::Cyan, "Magic Missile Scroll");
    let ghost w_mid = *world;
    world.consumable.set(e, true);
    world.ranged.set(e, Some(Ranged { range: 6 }));
    world.inflicts_damage.set(e, Some(InflictsDamage { damage: 8 }));
    proof {
        assert forall|i: int| 0 <= i < old(world).n() implies #[trigger] crate::world::unchanged_at(
            *old(world),
            *world,
            i,
        ) by {
            assert(crate::world::unchanged_at(*old(world), w_mid, i));
        }
    }
    e
}

/// Spawns an area damage scroll.
pub fn fireball_scroll(world: &mut World, x: i32, y: i32) -> (e: Entity)
    requires
        old(world).wf(),
        old(world).n() < 65500,
        old(world).next_marker < 0xFFFF_FFFF_0000_0000,
        0 <= x < 80,
        0 <= y < 43,
    ensures
        final(world).wf(),
        e == old(world).n(),
        final(world).n() == old(world).n() + 1,
        world_extends(*old(world), *final(world)),
        final(world).alive@[e as int],
        final(world).position@[e as int] == Some(Position { x, y }),
        final(world).next_marker == old(world).next_marker + 1,
        final(world).item@[e as int],
        final(world).consumable@[e as int],
        final(world).ranged@[e as int] == Some(Ranged { range: 6 }),
        final(world).inflicts_damage@[e as int] == Some(InflictsDamage { damage: 20 }),
        final(world).area_of_effect@[e as int] == Some(AreaOfEffect { radius: 3 }),
{
    let e = item_base(world, x, y, ')', Color::Orange, "Fireball Scroll");
    let ghost w_mid = *world;
    world.consumable.set(e, true);
    world.ranged.set(e, Some(Ranged { range: 6 }));
    world.inflicts_damage.set(e, Some(InflictsDamage { damage: 20 }));
    world.area_of_effect.set(e, Some(AreaOfEffect { radius: 3 }));
    proof {
        assert forall|i: int| 0 <= i < old(world).n() implies #[trigger] crate::world::unchanged_at(
            *old(world),
            *world,
            i,
        ) by {
            assert(crate::world::unchanged_at(*old(world), w_mid, i));
        }
    }
    e
}

/// Spawns a confusion scroll.
pub fn confusion_scroll(world: &mut World, x: i32, y: i32) -> (e: Entity)
    requires
        old(world).wf(),
        old(world).n() < 65500,
        old(world).next_marker < 0xFFFF_FFFF_0000_0000,
        0 <= x < 80,
        0 <= y < 43,
    ensures
        final(world).wf(),
        e == old(world).n(),
        final(world).n() == old(world).n() + 1,
        world_extends(*old(world), *final(world)),
        final(world).alive@[e as int],
        final(world).position@[e as int] == Some(Position { x, y }),
        final(world).next_marker == old(world).next_marker + 1,
        final(world).item@[e as int],
        final(world).consumable@[e as int],
        final(world).ranged@[e as int] == Some(Ranged { range: 6 }),
        final(world).confusion@[e as int] == Some(Confusion { turns: 4 }),
{
    let e = item_base(world, x, y, ')', Color::Pink, "Confusion Scroll");
    let ghost w_mid = *world;
    world.consumable.set(e, true);
    world.ranged.set(e, Some(Ranged { range: 6 }));
    world.confusion.set(e, Some(Confusion { turns: 4 }));
    proof {
        assert forall|i: int| 0 <= i < old(world).n() implies #[trigger] crate::world::unchanged_at(
            *old(world),
            *world,
            i,
        ) by {
            assert(crate::world::unchanged_at(*old(world), w_mid, i));
        }
    }
    e
}

/// Spawns a hidden spike trap: a reusable entry trigger.
pub fn spike_trap(world: &mut World, x: i32, y: i32) -> (e: Entity)
    requires
        old(world).wf(),
        old(world).n() < 65500,
        old(world).next_marker < 0xFFFF_FFFF_0000_0000,
        0 <= x < 80,
        0 <= y < 43,
    ensures
        final(world).wf(),
        e == old(world).n(),
        final(world).n() == old(world).n() + 1,
        world_extends(*old(world), *final(world)),
        final(world).alive@[e as int],
        final(world).position@[e as int] == Some(Position { x, y }),
        final(world).next_marker == old(world).next_marker + 1,
        final(world).hidden@[e as int],
        final(world).entry_trigger@[e as int],
        final(world).inflicts_damage@[e as int] == Some(InflictsDamage { damage: 2 }),
        !final(world).triggers_once@[e as int],
{
    let e = world.create_entity();
    world.position.set(e, Some(Position { x, y }));
    world.renderable.set(
        e,
        Some(Renderable { glyph: '^', fg: Color::Red, bg: Color::Black, render_order: 2 }),
    );
    world.name.set(e, Some("Spike Trap".to_owned()));
    world.hidden.set(e, true);
    world.entry_trigger.set(e, true);
    world.inflicts_damage.set(e, Some(InflictsDamage { damage: 2 }));
    e
}

/// Spawns a hidden snap trap: a single-use entry trigger.
pub fn snap_trap(world: &mut World, x: i32, y: i32) -> (e: Entity)
    requires
        old(world).wf(),
        old(world).n() < 65500,
        old(world).next_marker < 0xFFFF_FFFF_0000_0000,
        0 <= x < 80,
        0 <= y < 43,
    ensures
        final(world).wf(),
        e == old(world).n(),
        final(world).n() == old(world).n() + 1,
        world_extends(*old(world), *final(world)),
        final(world).alive@[e as int],
        final(world).position@[e as int] == Some(Position { x, y }),
        final(world).next_marker == old(world).next_marker + 1,
        final(world).hidden@[e as int],
        final(world).entry_trigger@[e as int],
        final(world).inflicts_damage@[e as int] == Some(InflictsDamage { damage: 6 }),
        final(world).triggers_once@[e as int],
{
    let e = world.create_entity();
    world.position.set(e, Some(Position { x, y }));
    world.renderable.set(
        e,
        Some(Renderable { glyph: 'v', fg: Color::Red, bg: Color::Black, render_order: 2 }),
    );
    world.name.set(e, Some("Snap Trap".to_owned()));
    world.hidden.set(e, true);
    world.entry_trigger.set(e, true);
    world.inflicts_damage.set(e, Some(InflictsDamage { damage: 6 }));
    world.triggers_once.set(e, true);
    e
}

/// Instantiates one archetype at a tile.
pub fn spawn_entity(world: &mut World, idx: usize, archetype: Archetype)
    requires
        old(world).wf(),
        old(world).n() < 65500,
        old(world).next_marker < 0xFFFF_FFFF_0000_0000,
        idx < 3440,
    ensures
        final(world).wf(),
        final(world).n() == old(world).n() + 1,
        world_extends(*old(world), *final(world)),
        final(world).next_marker == old(world).next_marker + 1,
        final(world).alive@[old(world).n()],
        final(world).position@[old(world).n()] == Some(
            Position { x: spec_x(idx as int) as i32, y: spec_y(idx as int) as i32 },
        ),
        // Each archetype follows its fixed construction recipe.
        archetype == Archetype::Goblin ==> final(world).monster@[old(world).n()] && final(world).combat_stats@[old(world).n()] == Some(
            CombatStats { hp: 6, max_hp: 6, power: 2, defense: 0 },
        ),
        archetype == Archetype::Orc ==> final(world).monster@[old(world).n()] && final(world).combat_stats@[old(world).n()] == Some(
            CombatStats { hp: 16, max_hp: 16, power: 4, defense: 1 },
        ),
        archetype == Archetype::HealthPotion ==> final(world).item@[old(world).n()] && final(world).consumable@[old(world).n()] && final(world).provides_healing@[old(world).n()] == Some(
            ProvidesHealing { heal_amount: 8 },
        ),
        archetype == Archetype::BloodVial ==> final(world).item@[old(world).n()] && final(world).consumable@[old(world).n()] && final(world).provides_water@[old(world).n()],
        archetype == Archetype::FireballScroll ==> final(world).consumable@[old(world).n()]
            && final(world).inflicts_damage@[old(world).n()] == Some(InflictsDamage { damage: 20 })
            && final(world).area_of_effect@[old(world).n()] == Some(AreaOfEffect { radius: 3 }),
        archetype == Archetype::ConfusionScroll ==> final(world).consumable@[old(world).n()]
            && final(world).confusion@[old(world).n()] == Some(Confusion { turns: 4 }) && final(world).ranged@[old(world).n()] == Some(Ranged { range: 6 }),
        archetype == Archetype::MagicMissileScroll ==> final(world).consumable@[old(world).n()]
            && final(world).inflicts_damage@[old(world).n()] == Some(InflictsDamage { damage: 8 })
            && final(world).area_of_effect@[old(world).n()] is None && final(world).ranged@[old(world).n()] == Some(Ranged { range: 6 }),
        archetype == Archetype::MapScroll ==> final(world).consumable@[old(world).n()] && final(world).magic_mapper@[old(world).n()],
        archetype == Archetype::Dagger ==> final(world).equippable@[old(world).n()] == Some(
            Equippable { slot: EquipmentSlot::Melee },
        ) && final(world).melee_power_bonus@[old(world).n()] == Some(MeleePowerBonus { power: 2 }),
        archetype == Archetype::Sword ==> final(world).equippable@[old(world).n()] == Some(
            Equippable { slot: EquipmentSlot::Melee },
        ) && final(world).melee_power_bonus@[old(world).n()] == Some(MeleePowerBonus { power: 4 }),
        archetype == Archetype::Shield ==> final(world).equippable@[old(world).n()] == Some(
            Equippable { slot: EquipmentSlot::Shield },
        ) && final(world).defense_bonus@[old(world).n()] == Some(DefenseBonus { defense: 1 }),
        archetype == Archetype::TowerShield ==> final(world).equippable@[old(world).n()] == Some(
            Equippable { slot: EquipmentSlot::Shield },
        ) && final(world).defense_bonus@[old(world).n()] == Some(DefenseBonus { defense: 3 }),
        archetype == Archetype::SpikeTrap ==> final(world).hidden@[old(world).n()] && final(world).entry_trigger@[old(world).n()] && final(world).inflicts_damage@[old(world).n()] == Some(
            InflictsDamage { damage: 2 },
        ) && !final(world).triggers_once@[old(world).n()],
        archetype == Archetype::SnapTrap ==> final(world).hidden@[old(world).n()] && final(world).entry_trigger@[old(world).n()] && final(world).inflicts_damage@[old(world).n()] == Some(
            InflictsDamage { damage: 6 },
        ) && final(world).triggers_once@[old(world).n()],
{
    proof {
        vstd::arithmetic::div_mod::lemma_fundamental_div_mod(idx as int, 80);
        vstd::arithmetic::div_mod::lemma_mod_bound(idx as int, 80);
        vstd::arithmetic::div_mod::lemma_div_pos_is_pos(idx as int, 80);
        assert(spec_y(idx as int) < 43) by {
            if idx as int / 80 >= 43 {
                vstd::arithmetic::div_mod::lemma_div_is_ordered(3440, idx as int, 80);
            }
        }
    }
    let x: i32 = (idx % 80) as i32;
    let y: i32 = (idx / 80) as i32;
    match archetype {
        Archetype::Goblin => {
            goblin(world, x, y);
        },
        Archetype::Orc => {
            orc(world, x, y);
        },
        Archetype::HealthPotion => {
            health_potion(world, x, y);
        },
        Archetype::BloodVial => {
            blood(world, x, y);
        },
        Archetype::FireballScroll => {
            fireball_scroll(world, x, y);
        },
        Archetype::ConfusionScroll => {
            confusion_scroll(world, x, y);
        },
        Archetype::MagicMissileScroll => {
            magic_missile_scroll(world, x, y);
        },
        Archetype::MapScroll => {
            map_scroll(world, x, y);
        },
        Archetype::Dagger => {
            dagger(world, x, y);
        },
        Archetype::Sword => {
            sword(world, x, y);
        },
        Archetype::Shield => {
            shield(world, x, y);
        },
        Archetype::TowerShield => {
            tower_shield(world, x, y);
        },
        Archetype::SpikeTrap => {
            spike_trap(world, x, y);
        },
        Archetype::SnapTrap => {
            snap_trap(world, x, y);
        },
    }
}

/// A position on one of the region's tiles.
pub open spec fn on_region(area: Seq<usize>, p: Position) -> bool {
    exists|k: int|
        0 <= k < area.len() && p.x == spec_x((#[trigger] area[k]) as int) && p.y == spec_y(
            area[k] as int,
        )
}

/// Populates a region: `min(region size, roll(1, 7) + depth - 4)` distinct
/// tiles of the region, each with one weighted-random archetype. Every
/// spawned entity stands on a region tile; at depth four and beyond a
/// non-empty region spawns at least one entity, whatever the dice say.
pub fn spawn_region(
    world: &mut World,
    rng: &mut bracket_random::prelude::RandomNumberGenerator,
    area: &Vec<usize>,
    map_depth: i32,
)
    requires
        old(world).wf(),
        old(world).n() + 4000 <= 65536,
        old(world).next_marker + 4000 < 0xFFFF_FFFF_0000_0000,
        forall|k: int| 0 <= k < area.len() ==> (#[trigger] area@[k]) < 3440,
        area.len() <= 3440,
        1 <= map_depth <= 1000,
    ensures
        final(world).wf(),
        world_extends(*old(world), *final(world)),
        final(world).n() <= old(world).n() + (
        if area.len() < map_depth + 3 {
            area.len() as int
        } else {
            map_depth + 3
        }),
        map_depth >= 4 && area.len() >= 1 ==> final(world).n() > old(world).n(),
        forall|i: int|
            old(world).n() <= i < final(world).n() ==> (#[trigger] final(world).position@[i]) is Some
                && on_region(area@, final(world).position@[i]->0),
        // Tiles are drawn without replacement: for a duplicate-free
        // region, no two spawned entities share a tile.
        area@.no_duplicates() ==> forall|i1: int, i2: int|
            old(world).n() <= i1 < final(world).n() && old(world).n() <= i2 < final(world).n()
                && i1 != i2 ==> (#[trigger] final(world).position@[i1]) != (#[trigger] final(world).position@[i2]),
{
    let spawn_table = room_table(map_depth);
    let mut areas: Vec<usize> = Vec::new();
    let mut c: usize = 0;
    while c < area.len()
        invariant
            c <= area.len(),
            areas.len() == c,
            forall|k: int| 0 <= k < c ==> (#[trigger] areas@[k]) == area@[k],
            forall|k: int| 0 <= k < area.len() ==> (#[trigger] area@[k]) < 3440,
        decreases area.len() - c,
    {
        areas.push(area[c]);
        c = c + 1;
    }
    let roll = roll_dice(rng, 1, 7);
    let mut num_spawns: i32 = roll + map_depth - 4;
    if num_spawns > areas.len() as i32 {
        num_spawns = areas.len() as i32;
    }
    if num_spawns <= 0 {
        return;
    }
    proof {
        assert(num_spawns <= (if area.len() < map_depth + 3 {
            area.len() as int
        } else {
            map_depth + 3
        }));
    }
    let mut i: i32 = 0;
    let ghost w_start = *world;
    let ghost mut chosen: Seq<usize> = Seq::empty();
    while i < num_spawns
        invariant
            world.wf(),
            spawn_table.wf(),
            spawn_table.total_weight >= 10,
            0 <= i <= num_spawns,
            num_spawns <= 3440,
            areas.len() >= num_spawns - i,
            areas.len() <= 3440,
            forall|k: int| 0 <= k < areas.len() ==> (#[trigger] areas@[k]) < 3440,
            forall|k: int| 0 <= k < areas.len() ==> area@.contains(#[trigger] areas@[k]),
            world.n() <= w_start.n() + i,
            i >= 1 ==> world.n() > w_start.n(),
            w_start.n() + 4000 <= 65536,
            world.next_marker <= w_start.next_marker + i,
            w_start.next_marker + 4000 < 0xFFFF_FFFF_0000_0000,
            world_extends(w_start, *world),
            forall|i2: int|
                w_start.n() <= i2 < world.n() ==> (#[trigger] world.position@[i2]) is Some
                    && on_region(area@, world.position@[i2]->0),
            // Sampling without replacement: the chosen tiles are distinct,
            // gone from the pool, and carry the new entities.
            chosen.len() == world.n() - w_start.n(),
            area@.no_duplicates() ==> chosen.no_duplicates(),
            forall|j: int| 0 <= j < chosen.len() ==> (#[trigger] chosen[j]) < 3440,
            area@.no_duplicates() ==> forall|j: int, k: int|
                0 <= j < chosen.len() && 0 <= k < areas.len() ==> (#[trigger] chosen[j]) != (
                #[trigger] areas@[k]),
            area@.no_duplicates() ==> areas@.no_duplicates(),
            forall|j: int|
                0 <= j < chosen.len() ==> (#[trigger] world.position@[w_start.n() + j]) == Some(
                    crate::components::Position {
                        x: spec_x(chosen[j] as int) as i32,
                        y: spec_y(chosen[j] as int) as i32,
                    },
                ),
        decreases num_spawns - i,
    {
        let ghost w_iter = *world;
        let ghost chosen0 = chosen;
        let array_index: usize = if areas.len() == 1 {
            0
        } else {
            (roll_dice(rng, 1, areas.len() as i32) - 1) as usize
        };
        let map_idx = areas[array_index];
        match spawn_table.roll(rng) {
            Some(archetype) => {
                spawn_entity(world, map_idx, archetype);
                proof {
                    vstd::arithmetic::div_mod::lemma_fundamental_div_mod(map_idx as int, 80);
                    let k0 = choose|k0: int| 0 <= k0 < area.len() && #[trigger] area@[k0] == map_idx;
                    assert(on_region(area@, world.position@[w_iter.n()]->0));
                    chosen = chosen.push(map_idx);
                    assert(chosen.drop_last() =~= chosen0);
                    if area@.no_duplicates() {
                        assert forall|j1: int, j2: int|
                            0 <= j1 < chosen.len() && 0 <= j2 < chosen.len() && j1 != j2 implies
                            chosen[j1] != chosen[j2] by {
                            if j1 < chosen0.len() && j2 < chosen0.len() {
                            } else if j2 == chosen0.len() {
                                assert(chosen[j1] != areas@[array_index as int]);
                            } else if j1 == chosen0.len() {
                                assert(chosen[j2] != areas@[array_index as int]);
                            }
                        }
                    }
                }
            },
            None => {},
        }
        let ghost areas0 = areas@;
        areas.remove(array_index);
        proof {
            crate::world::lemma_extends_trans(w_start, w_iter, *world);
            assert forall|k: int|
                0 <= k < areas.len() implies area@.contains(#[trigger] areas@[k]) by {
                if k < array_index {
                    assert(areas@[k] == areas0[k]);
                } else {
                    assert(areas@[k] == areas0[k + 1]);
                }
            }
            assert forall|i2: int|
                w_start.n() <= i2 < world.n() implies (#[trigger] world.position@[i2]) is Some
                && on_region(area@, world.position@[i2]->0) by {
                if i2 < w_iter.n() {
                    assert(crate::world::unchanged_at(w_iter, *world, i2));
                }
            }
            if area@.no_duplicates() {
                assert(areas0.no_duplicates());
                assert forall|k1: int, k2: int|
                    0 <= k1 < areas.len() && 0 <= k2 < areas.len() && k1 != k2 implies areas@[k1]
                    != areas@[k2] by {
                    let m1: int = if k1 < array_index {
                        k1
                    } else {
                        k1 + 1
                    };
                    let m2: int = if k2 < array_index {
                        k2
                    } else {
                        k2 + 1
                    };
                    assert(areas@[k1] == areas0[m1]);
                    assert(areas@[k2] == areas0[m2]);
                }
                assert forall|j: int, k: int|
                    0 <= j < chosen.len() && 0 <= k < areas.len() implies (#[trigger] chosen[j])
                    != (#[trigger] areas@[k]) by {
                    let mk: int = if k < array_index {
                        k
                    } else {
                        k + 1
                    };
                    assert(areas@[k] == areas0[mk]);
                    if j < chosen0.len() {
                        assert(chosen[j] == chosen0[j]);
                        assert(chosen0[j] != areas0[mk]);
                    } else {
                        assert(chosen[j] == areas0[array_index as int]);
                        assert(areas0[array_index as int] != areas0[mk]);
                    }
                }
            }
            assert forall|j: int|
                0 <= j < chosen.len() implies (#[trigger] world.position@[w_start.n() + j])
                == Some(
                crate::components::Position {
                    x: spec_x(chosen[j] as int) as i32,
                    y: spec_y(chosen[j] as int) as i32,
                },
            ) by {
                if j < chosen0.len() {
                    assert(crate::world::unchanged_at(w_iter, *world, w_start.n() + j));
                }
            }
        }
        i = i + 1;
    }
    proof {
        if area@.no_duplicates() {
            assert forall|i1: int, i2: int|
                w_start.n() <= i1 < world.n() && w_start.n() <= i2 < world.n() && i1 != i2 implies (
            #[trigger] world.position@[i1]) != (#[trigger] world.position@[i2]) by {
                let j1 = i1 - w_start.n();
                let j2 = i2 - w_start.n();
                assert(i1 == w_start.n() + j1 && i2 == w_start.n() + j2);
                assert(world.position@[w_start.n() + j1] == Some(
                    crate::components::Position {
                        x: spec_x(chosen[j1] as int) as i32,
                        y: spec_y(chosen[j1] as int) as i32,
                    },
                ));
                assert(world.position@[w_start.n() + j2] == Some(
                    crate::components::Position {
                        x: spec_x(chosen[j2] as int) as i32,
                        y: spec_y(chosen[j2] as int) as i32,
                    },
                ));
                assert(chosen[j1] != chosen[j2]);
                vstd::arithmetic::div_mod::lemma_fundamental_div_mod(chosen[j1] as int, 80);
                vstd::arithmetic::div_mod::lemma_fundamental_div_mod(chosen[j2] as int, 80);
                vstd::arithmetic::div_mod::lemma_mod_bound(chosen[j1] as int, 80);
                vstd::arithmetic::div_mod::lemma_mod_bound(chosen[j2] as int, 80);
                vstd::arithmetic::div_mod::lemma_div_pos_is_pos(chosen[j1] as int, 80);
                vstd::arithmetic::div_mod::lemma_div_pos_is_pos(chosen[j2] as int, 80);
            }
        }
    }
}

/// Populates a room: spawns over the floor tiles of its interior. Every
/// spawned entity stands inside the room.
pub fn spawn_room(
    world: &mut World,
    m: &GameMap,
    rng: &mut bracket_random::prelude::RandomNumberGenerator,
    room: &Rect,
    map_depth: i32,
)
    requires
        old(world).wf(),
        m.wf(),
        room.wf(),
        room.x2 < 80,
        room.y2 < 43,
        old(world).n() + 4000 <= 65536,
        old(world).next_marker + 4000 < 0xFFFF_FFFF_0000_0000,
        1 <= map_depth <= 1000,
    ensures
        final(world).wf(),
        world_extends(*old(world), *final(world)),
        forall|i: int|
            old(world).n() <= i < final(world).n() ==> (#[trigger] final(world).position@[i]) is Some
                && GameMap::in_room(
                *room,
                final(world).position@[i]->0.x as int,
                final(world).position@[i]->0.y as int,
            ),
        // The room's floor tiles are collected once each, so no two
        // spawned entities share a tile.
        forall|i1: int, i2: int|
            old(world).n() <= i1 < final(world).n() && old(world).n() <= i2 < final(world).n()
                && i1 != i2 ==> (#[trigger] final(world).position@[i1]) != (#[trigger] final(world).position@[i2]),
{
    let mut possible_targets: Vec<usize> = Vec::new();
    let mut y: i32 = room.y1 + 1;
    while y < room.y2
        invariant
            m.wf(),
            room.wf(),
            room.x2 < 80,
            room.y2 < 43,
            room.y1 + 1 <= y <= room.y2 || (y == room.y1 + 1),
            forall|k: int| 0 <= k < possible_targets.len() ==> (#[trigger] possible_targets@[k]) < 3440,
            forall|k: int|
                0 <= k < possible_targets.len() ==> GameMap::in_room(
                    *room,
                    spec_x((#[trigger] possible_targets@[k]) as int),
                    spec_y(possible_targets@[k] as int),
                ),
            forall|k1: int, k2: int|
                0 <= k1 < k2 < possible_targets.len() ==> possible_targets@[k1]
                    < possible_targets@[k2],
            forall|k: int|
                0 <= k < possible_targets.len() ==> (#[trigger] possible_targets@[k] as int)
                    < spec_idx(room.x1 as int + 1, y as int),
            possible_targets.len() <= 3440,
        decreases room.y2 - y,
    {
        let mut x: i32 = room.x1 + 1;
        while x < room.x2
            invariant
                m.wf(),
                room.wf(),
                room.x2 < 80,
                room.y2 < 43,
                room.y1 + 1 <= y < room.y2,
                room.x1 + 1 <= x <= room.x2 || (x == room.x1 + 1),
                forall|k: int| 0 <= k < possible_targets.len() ==> (#[trigger] possible_targets@[k]) < 3440,
                forall|k: int|
                    0 <= k < possible_targets.len() ==> GameMap::in_room(
                        *room,
                        spec_x((#[trigger] possible_targets@[k]) as int),
                        spec_y(possible_targets@[k] as int),
                    ),
                forall|k1: int, k2: int|
                    0 <= k1 < k2 < possible_targets.len() ==> possible_targets@[k1]
                        < possible_targets@[k2],
                forall|k: int|
                    0 <= k < possible_targets.len() ==> (#[trigger] possible_targets@[k] as int)
                        < spec_idx(x as int, y as int),
                possible_targets.len() <= 3440,
            decreases room.x2 - x,
        {
            let idx = m.xy_idx(x, y);
            if m.tiles[idx] == TileType::Floor {
                if possible_targets.len() < 3440 {
                    proof {
                        lemma_xy_idx(x as int, y as int);
                    }
                    possible_targets.push(idx);
                }
            }
            x = x + 1;
        }
        y = y + 1;
    }
    proof {
        assert forall|k1: int, k2: int|
            0 <= k1 < possible_targets.len() && 0 <= k2 < possible_targets.len() && k1
                != k2 implies possible_targets@[k1] != possible_targets@[k2] by {
            if k1 < k2 {
                assert(possible_targets@[k1] < possible_targets@[k2]);
            } else {
                assert(possible_targets@[k2] < possible_targets@[k1]);
            }
        }
        assert(possible_targets@.no_duplicates());
    }
    let ghost w0 = *world;
    spawn_region(world, rng, &possible_targets, map_depth);
    proof {
        assert forall|i: int|
            old(world).n() <= i < world.n() implies (#[trigger] world.position@[i]) is Some
            && GameMap::in_room(
            *room,
            world.position@[i]->0.x as int,
            world.position@[i]->0.y as int,
        ) by {
            assert(on_region(possible_targets@, world.position@[i]->0));
            let k = choose|k: int|
                0 <= k < possible_targets@.len() && world.position@[i]->0.x == spec_x((
                #[trigger] possible_targets@[k]) as int) && world.position@[i]->0.y == spec_y(
                    possible_targets@[k] as int,
                );
        }
    }
}

} // verus!

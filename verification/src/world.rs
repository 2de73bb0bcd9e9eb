//! The entity store: one table per component type, all keyed by entity
//! index, with an alive flag, a persistence marker per entity, and a
//! deferred-deletion queue flushed only at defined synchronisation points.

use vstd::prelude::*;
use crate::components::{
    Entity, ENTITY_CAP, STAT_MAX, Position, Renderable, Viewshed, CombatStats, SufferDamage,
    Ranged, ProvidesHealing, InflictsDamage, AreaOfEffect, Confusion, InBackpack, Equippable,
    Equipped, MeleePowerBonus, DefenseBonus, ThirstClock, ParticleLifetime, WantsToPickupItem,
    WantsToUseItem, WantsToDropItem, WantsToRemoveItem, DoesMelee,
};

verus! {

pub struct World {
    pub alive: Vec<bool>,
    /// Persistence-stable identity, distinct per entity, never reused.
    pub marker: Vec<u64>,
    pub next_marker: u64,
    /// Entities queued for deletion, removed only by `flush_deletes`.
    pub pending_delete: Vec<Entity>,
    pub position: Vec<Option<Position>>,
    pub renderable: Vec<Option<Renderable>>,
    pub player: Vec<bool>,
    pub monster: Vec<bool>,
    pub name: Vec<Option<String>>,
    pub viewshed: Vec<Option<Viewshed>>,
    pub blocks_tile: Vec<bool>,
    pub combat_stats: Vec<Option<CombatStats>>,
    pub suffer_damage: Vec<Option<SufferDamage>>,
    pub item: Vec<bool>,
    pub consumable: Vec<bool>,
    pub ranged: Vec<Option<Ranged>>,
    pub provides_healing: Vec<Option<ProvidesHealing>>,
    pub provides_water: Vec<bool>,
    pub inflicts_damage: Vec<Option<InflictsDamage>>,
    pub area_of_effect: Vec<Option<AreaOfEffect>>,
    pub confusion: Vec<Option<Confusion>>,
    pub in_backpack: Vec<Option<InBackpack>>,
    pub equippable: Vec<Option<Equippable>>,
    pub equipped: Vec<Option<Equipped>>,
    pub melee_power_bonus: Vec<Option<MeleePowerBonus>>,
    pub defense_bonus: Vec<Option<DefenseBonus>>,
    pub thirst_clock: Vec<Option<ThirstClock>>,
    pub magic_mapper: Vec<bool>,
    pub hidden: Vec<bool>,
    pub entry_trigger: Vec<bool>,
    pub triggers_once: Vec<bool>,
    pub entity_moved: Vec<bool>,
    pub particle_lifetime: Vec<Option<ParticleLifetime>>,
    pub wants_to_pickup: Vec<Option<WantsToPickupItem>>,
    pub wants_to_use: Vec<Option<WantsToUseItem>>,
    pub wants_to_drop: Vec<Option<WantsToDropItem>>,
    pub wants_to_remove: Vec<Option<WantsToRemoveItem>>,
    pub does_melee: Vec<Option<DoesMelee>>,
}

impl World {
    /// Number of entity slots (alive or dead).
    pub open spec fn n(self) -> int {
        self.alive.len() as int
    }

    /// Every component table covers every entity slot.
    pub open spec fn wf_lens(self) -> bool {
        &&& self.n() <= ENTITY_CAP
        &&& self.marker.len() == self.n()
        &&& self.position.len() == self.n()
        &&& self.renderable.len() == self.n()
        &&& self.player.len() == self.n()
        &&& self.monster.len() == self.n()
        &&& self.name.len() == self.n()
        &&& self.viewshed.len() == self.n()
        &&& self.blocks_tile.len() == self.n()
        &&& self.combat_stats.len() == self.n()
        &&& self.suffer_damage.len() == self.n()
        &&& self.item.len() == self.n()
        &&& self.consumable.len() == self.n()
        &&& self.ranged.len() == self.n()
        &&& self.provides_healing.len() == self.n()
        &&& self.provides_water.len() == self.n()
        &&& self.inflicts_damage.len() == self.n()
        &&& self.area_of_effect.len() == self.n()
        &&& self.confusion.len() == self.n()
        &&& self.in_backpack.len() == self.n()
        &&& self.equippable.len() == self.n()
        &&& self.equipped.len() == self.n()
        &&& self.melee_power_bonus.len() == self.n()
        &&& self.defense_bonus.len() == self.n()
        &&& self.thirst_clock.len() == self.n()
        &&& self.magic_mapper.len() == self.n()
        &&& self.hidden.len() == self.n()
        &&& self.entry_trigger.len() == self.n()
        &&& self.triggers_once.len() == self.n()
        &&& self.entity_moved.len() == self.n()
        &&& self.particle_lifetime.len() == self.n()
        &&& self.wants_to_pickup.len() == self.n()
        &&& self.wants_to_use.len() == self.n()
        &&& self.wants_to_drop.len() == self.n()
        &&& self.wants_to_remove.len() == self.n()
        &&& self.does_melee.len() == self.n()
    }

    /// Value constraints the passes rely on: stats in range, entity
    /// references on the table, viewsheds on the grid.
    pub open spec fn wf_data(self) -> bool {
        &&& forall|i: int|
            0 <= i < self.n() && (#[trigger] self.combat_stats@[i]) is Some
                ==> self.combat_stats@[i]->0.wf()
        &&& forall|i: int|
            0 <= i < self.n() && (#[trigger] self.suffer_damage@[i]) is Some
                ==> self.suffer_damage@[i]->0.wf()
        &&& forall|i: int|
            0 <= i < self.n() && (#[trigger] self.melee_power_bonus@[i]) is Some ==> 0
                <= self.melee_power_bonus@[i]->0.power <= STAT_MAX
        &&& forall|i: int|
            0 <= i < self.n() && (#[trigger] self.defense_bonus@[i]) is Some ==> 0
                <= self.defense_bonus@[i]->0.defense <= STAT_MAX
        &&& forall|i: int|
            0 <= i < self.n() && (#[trigger] self.provides_healing@[i]) is Some ==> 0
                <= self.provides_healing@[i]->0.heal_amount <= STAT_MAX
        &&& forall|i: int|
            0 <= i < self.n() && (#[trigger] self.inflicts_damage@[i]) is Some ==> 0
                <= self.inflicts_damage@[i]->0.damage <= STAT_MAX
        &&& forall|i: int|
            0 <= i < self.n() && (#[trigger] self.viewshed@[i]) is Some ==> 0
                <= self.viewshed@[i]->0.range <= 20 && forall|k: int|
                0 <= k < self.viewshed@[i]->0.visible_tiles.len()
                    ==> (#[trigger] self.viewshed@[i]->0.visible_tiles@[k]) < 3440
        &&& forall|i: int|
            0 <= i < self.n() && (#[trigger] self.area_of_effect@[i]) is Some ==> 0
                <= self.area_of_effect@[i]->0.radius <= 20
        &&& forall|i: int|
            0 <= i < self.n() && (#[trigger] self.thirst_clock@[i]) is Some ==> 0
                <= self.thirst_clock@[i]->0.duration <= 100000
        &&& forall|i: int|
            0 <= i < self.n() && (#[trigger] self.particle_lifetime@[i]) is Some ==> -1000000
                <= self.particle_lifetime@[i]->0.remaining_ms <= 1000000
        &&& forall|i: int|
            0 <= i < self.n() && (#[trigger] self.equipped@[i]) is Some
                ==> self.equipped@[i]->0.owner < self.n()
        &&& forall|i: int|
            0 <= i < self.n() && (#[trigger] self.in_backpack@[i]) is Some
                ==> self.in_backpack@[i]->0.owner < self.n()
        &&& forall|i: int|
            0 <= i < self.n() && (#[trigger] self.does_melee@[i]) is Some
                ==> self.does_melee@[i]->0.target < self.n()
        &&& forall|i: int|
            0 <= i < self.n() && (#[trigger] self.wants_to_pickup@[i]) is Some
                ==> self.wants_to_pickup@[i]->0.item < self.n()
                    && self.wants_to_pickup@[i]->0.collected_by < self.n()
        &&& forall|i: int|
            0 <= i < self.n() && (#[trigger] self.wants_to_use@[i]) is Some
                ==> self.wants_to_use@[i]->0.item < self.n()
        &&& forall|i: int|
            0 <= i < self.n() && (#[trigger] self.wants_to_drop@[i]) is Some
                ==> self.wants_to_drop@[i]->0.item < self.n()
        &&& forall|i: int|
            0 <= i < self.n() && (#[trigger] self.wants_to_remove@[i]) is Some
                ==> self.wants_to_remove@[i]->0.item < self.n()
        &&& forall|k: int|
            0 <= k < self.pending_delete.len() ==> (#[trigger] self.pending_delete@[k])
                < self.n()
        &&& forall|i: int|
            0 <= i < self.n() && (#[trigger] self.position@[i]) is Some ==> 0
                <= self.position@[i]->0.x < 80 && 0 <= self.position@[i]->0.y < 43
    }

    /// Markers identify entities: distinct, positive, below the allocator.
    pub open spec fn wf_markers(self) -> bool {
        &&& forall|i: int, j: int|
            0 <= i < self.n() && 0 <= j < self.n() && i != j ==> #[trigger] self.marker@[i]
                != #[trigger] self.marker@[j]
        &&& forall|i: int| 0 <= i < self.n() ==> 1 <= #[trigger] self.marker@[i] < self.next_marker
        &&& self.next_marker >= 1
    }

    pub open spec fn wf(self) -> bool {
        self.wf_lens() && self.wf_data() && self.wf_markers()
    }

    /// An empty store.
    pub fn new() -> (w: World)
        ensures
            w.wf(),
            w.n() == 0,
            w.pending_delete.len() == 0,
            w.next_marker == 1,
    {
        World {
            alive: Vec::new(),
            marker: Vec::new(),
            next_marker: 1,
            pending_delete: Vec::new(),
            position: Vec::new(),
            renderable: Vec::new(),
            player: Vec::new(),
            monster: Vec::new(),
            name: Vec::new(),
            viewshed: Vec::new(),
            blocks_tile: Vec::new(),
            combat_stats: Vec::new(),
            suffer_damage: Vec::new(),
            item: Vec::new(),
            consumable: Vec::new(),
            ranged: Vec::new(),
            provides_healing: Vec::new(),
            provides_water: Vec::new(),
            inflicts_damage: Vec::new(),
            area_of_effect: Vec::new(),
            confusion: Vec::new(),
            in_backpack: Vec::new(),
            equippable: Vec::new(),
            equipped: Vec::new(),
            melee_power_bonus: Vec::new(),
            defense_bonus: Vec::new(),
            thirst_clock: Vec::new(),
            magic_mapper: Vec::new(),
            hidden: Vec::new(),
            entry_trigger: Vec::new(),
            triggers_once: Vec::new(),
            entity_moved: Vec::new(),
            particle_lifetime: Vec::new(),
            wants_to_pickup: Vec::new(),
            wants_to_use: Vec::new(),
            wants_to_drop: Vec::new(),
            wants_to_remove: Vec::new(),
            does_melee: Vec::new(),
        }
    }

    /// The new entity of `create_entity`: every table grown by one
    /// componentless slot, alive, with a fresh marker.
    pub open spec fn grown_by_one(w0: World, w1: World) -> bool {
        &&& w1.alive@ == w0.alive@.push(true)
        &&& w1.marker@ == w0.marker@.push(w0.next_marker)
        &&& w1.next_marker == w0.next_marker + 1
        &&& w1.pending_delete@ == w0.pending_delete@
        &&& w1.position@ == w0.position@.push(None::<Position>)
        &&& w1.renderable@ == w0.renderable@.push(None::<Renderable>)
        &&& w1.player@ == w0.player@.push(false)
        &&& w1.monster@ == w0.monster@.push(false)
        &&& w1.name@ == w0.name@.push(None::<String>)
        &&& w1.viewshed@ == w0.viewshed@.push(None::<Viewshed>)
        &&& w1.blocks_tile@ == w0.blocks_tile@.push(false)
        &&& w1.combat_stats@ == w0.combat_stats@.push(None::<CombatStats>)
        &&& w1.suffer_damage@ == w0.suffer_damage@.push(None::<SufferDamage>)
        &&& w1.item@ == w0.item@.push(false)
        &&& w1.consumable@ == w0.consumable@.push(false)
        &&& w1.ranged@ == w0.ranged@.push(None::<Ranged>)
        &&& w1.provides_healing@ == w0.provides_healing@.push(None::<ProvidesHealing>)
        &&& w1.provides_water@ == w0.provides_water@.push(false)
        &&& w1.inflicts_damage@ == w0.inflicts_damage@.push(None::<InflictsDamage>)
        &&& w1.area_of_effect@ == w0.area_of_effect@.push(None::<AreaOfEffect>)
        &&& w1.confusion@ == w0.confusion@.push(None::<Confusion>)
        &&& w1.in_backpack@ == w0.in_backpack@.push(None::<InBackpack>)
        &&& w1.equippable@ == w0.equippable@.push(None::<Equippable>)
        &&& w1.equipped@ == w0.equipped@.push(None::<Equipped>)
        &&& w1.melee_power_bonus@ == w0.melee_power_bonus@.push(None::<MeleePowerBonus>)
        &&& w1.defense_bonus@ == w0.defense_bonus@.push(None::<DefenseBonus>)
        &&& w1.thirst_clock@ == w0.thirst_clock@.push(None::<ThirstClock>)
        &&& w1.magic_mapper@ == w0.magic_mapper@.push(false)
        &&& w1.hidden@ == w0.hidden@.push(false)
        &&& w1.entry_trigger@ == w0.entry_trigger@.push(false)
        &&& w1.triggers_once@ == w0.triggers_once@.push(false)
        &&& w1.entity_moved@ == w0.entity_moved@.push(false)
        &&& w1.particle_lifetime@ == w0.particle_lifetime@.push(None::<ParticleLifetime>)
        &&& w1.wants_to_pickup@ == w0.wants_to_pickup@.push(None::<WantsToPickupItem>)
        &&& w1.wants_to_use@ == w0.wants_to_use@.push(None::<WantsToUseItem>)
        &&& w1.wants_to_drop@ == w0.wants_to_drop@.push(None::<WantsToDropItem>)
        &&& w1.wants_to_remove@ == w0.wants_to_remove@.push(None::<WantsToRemoveItem>)
        &&& w1.does_melee@ == w0.does_melee@.push(None::<DoesMelee>)
    }

    /// Creates a fresh, componentless, alive entity and returns its index.
    pub fn create_entity(&mut self) -> (e: Entity)
        requires
            old(self).wf(),
            old(self).n() < ENTITY_CAP,
            old(self).next_marker < 0xFFFF_FFFF_FFFF_FFFF,
        ensures
            final(self).wf(),
            e == old(self).n(),
            final(self).n() == old(self).n() + 1,
            World::grown_by_one(*old(self), *final(self)),
    {
        let e = self.alive.len();
        self.alive.push(true);
        self.marker.push(self.next_marker);
        self.next_marker = self.next_marker + 1;
        self.position.push(None);
        self.renderable.push(None);
        self.player.push(false);
        self.monster.push(false);
        self.name.push(None);
        self.viewshed.push(None);
        self.blocks_tile.push(false);
        self.combat_stats.push(None);
        self.suffer_damage.push(None);
        self.item.push(false);
        self.consumable.push(false);
        self.ranged.push(None);
        self.provides_healing.push(None);
        self.provides_water.push(false);
        self.inflicts_damage.push(None);
        self.area_of_effect.push(None);
        self.confusion.push(None);
        self.in_backpack.push(None);
        self.equippable.push(None);
        self.equipped.push(None);
        self.melee_power_bonus.push(None);
        self.defense_bonus.push(None);
        self.thirst_clock.push(None);
        self.magic_mapper.push(false);
        self.hidden.push(false);
        self.entry_trigger.push(false);
        self.triggers_once.push(false);
        self.entity_moved.push(false);
        self.particle_lifetime.push(None);
        self.wants_to_pickup.push(None);
        self.wants_to_use.push(None);
        self.wants_to_drop.push(None);
        self.wants_to_remove.push(None);
        self.does_melee.push(None);
        e
    }

    /// Queues an entity for deletion; nothing changes until the queue is
    /// flushed at a synchronisation point.
    pub fn delete_entity(&mut self, e: Entity)
        requires
            old(self).wf(),
            e < old(self).n(),
        ensures
            final(self).wf(),
            *final(self) == (World { pending_delete: final(self).pending_delete, ..*old(self) }),
            final(self).pending_delete@ == old(self).pending_delete@.push(e),
    {
        self.pending_delete.push(e);
    }

    /// The slot `e` stripped bare: dead, with every component removed;
    /// every other slot untouched. Marker kept (markers are never reused).
    pub open spec fn cleared_at(w0: World, w1: World, e: int) -> bool {
        &&& w1.alive@ == w0.alive@.update(e, false)
        &&& w1.marker@ == w0.marker@
        &&& w1.next_marker == w0.next_marker
        &&& w1.position@ == w0.position@.update(e, None::<Position>)
        &&& w1.renderable@ == w0.renderable@.update(e, None::<Renderable>)
        &&& w1.player@ == w0.player@.update(e, false)
        &&& w1.monster@ == w0.monster@.update(e, false)
        &&& w1.name@ == w0.name@.update(e, None::<String>)
        &&& w1.viewshed@ == w0.viewshed@.update(e, None::<Viewshed>)
        &&& w1.blocks_tile@ == w0.blocks_tile@.update(e, false)
        &&& w1.combat_stats@ == w0.combat_stats@.update(e, None::<CombatStats>)
        &&& w1.suffer_damage@ == w0.suffer_damage@.update(e, None::<SufferDamage>)
        &&& w1.item@ == w0.item@.update(e, false)
        &&& w1.consumable@ == w0.consumable@.update(e, false)
        &&& w1.ranged@ == w0.ranged@.update(e, None::<Ranged>)
        &&& w1.provides_healing@ == w0.provides_healing@.update(e, None::<ProvidesHealing>)
        &&& w1.provides_water@ == w0.provides_water@.update(e, false)
        &&& w1.inflicts_damage@ == w0.inflicts_damage@.update(e, None::<InflictsDamage>)
        &&& w1.area_of_effect@ == w0.area_of_effect@.update(e, None::<AreaOfEffect>)
        &&& w1.confusion@ == w0.confusion@.update(e, None::<Confusion>)
        &&& w1.in_backpack@ == w0.in_backpack@.update(e, None::<InBackpack>)
        &&& w1.equippable@ == w0.equippable@.update(e, None::<Equippable>)
        &&& w1.equipped@ == w0.equipped@.update(e, None::<Equipped>)
        &&& w1.melee_power_bonus@ == w0.melee_power_bonus@.update(e, None::<MeleePowerBonus>)
        &&& w1.defense_bonus@ == w0.defense_bonus@.update(e, None::<DefenseBonus>)
        &&& w1.thirst_clock@ == w0.thirst_clock@.update(e, None::<ThirstClock>)
        &&& w1.magic_mapper@ == w0.magic_mapper@.update(e, false)
        &&& w1.hidden@ == w0.hidden@.update(e, false)
        &&& w1.entry_trigger@ == w0.entry_trigger@.update(e, false)
        &&& w1.triggers_once@ == w0.triggers_once@.update(e, false)
        &&& w1.entity_moved@ == w0.entity_moved@.update(e, false)
        &&& w1.particle_lifetime@ == w0.particle_lifetime@.update(e, None::<ParticleLifetime>)
        &&& w1.wants_to_pickup@ == w0.wants_to_pickup@.update(e, None::<WantsToPickupItem>)
        &&& w1.wants_to_use@ == w0.wants_to_use@.update(e, None::<WantsToUseItem>)
        &&& w1.wants_to_drop@ == w0.wants_to_drop@.update(e, None::<WantsToDropItem>)
        &&& w1.wants_to_remove@ == w0.wants_to_remove@.update(e, None::<WantsToRemoveItem>)
        &&& w1.does_melee@ == w0.does_melee@.update(e, None::<DoesMelee>)
    }

    /// Removes every component of `e` and marks the slot dead.
    pub fn clear_entity(&mut self, e: Entity)
        requires
            old(self).wf(),
            e < old(self).n(),
        ensures
            final(self).wf(),
            final(self).n() == old(self).n(),
            final(self).pending_delete@ == old(self).pending_delete@,
            World::cleared_at(*old(self), *final(self), e as int),
    {
        self.alive.set(e, false);
        self.position.set(e, None);
        self.renderable.set(e, None);
        self.player.set(e, false);
        self.monster.set(e, false);
        self.name.set(e, None);
        self.viewshed.set(e, None);
        self.blocks_tile.set(e, false);
        self.combat_stats.set(e, None);
        self.suffer_damage.set(e, None);
        self.item.set(e, false);
        self.consumable.set(e, false);
        self.ranged.set(e, None);
        self.provides_healing.set(e, None);
        self.provides_water.set(e, false);
        self.inflicts_damage.set(e, None);
        self.area_of_effect.set(e, None);
        self.confusion.set(e, None);
        self.in_backpack.set(e, None);
        self.equippable.set(e, None);
        self.equipped.set(e, None);
        self.melee_power_bonus.set(e, None);
        self.defense_bonus.set(e, None);
        self.thirst_clock.set(e, None);
        self.magic_mapper.set(e, false);
        self.hidden.set(e, false);
        self.entry_trigger.set(e, false);
        self.triggers_once.set(e, false);
        self.entity_moved.set(e, false);
        self.particle_lifetime.set(e, None);
        self.wants_to_pickup.set(e, None);
        self.wants_to_use.set(e, None);
        self.wants_to_drop.set(e, None);
        self.wants_to_remove.set(e, None);
        self.does_melee.set(e, None);
    }

    /// Flushes the deferred-deletion queue: every queued entity is cleared,
    /// the queue emptied. Slots are never removed, so no live index moves.
    pub fn flush_deletes(&mut self)
        requires
            old(self).wf(),
            forall|k: int|
                0 <= k < old(self).pending_delete.len()
                    ==> (#[trigger] old(self).pending_delete@[k]) < old(self).n(),
        ensures
            final(self).wf(),
            final(self).n() == old(self).n(),
            final(self).pending_delete.len() == 0,
            final(self).marker@ == old(self).marker@,
            final(self).next_marker == old(self).next_marker,
            forall|i: int|
                0 <= i < old(self).n() && !old(self).pending_delete@.contains(i as usize)
                    ==> unchanged_at(*old(self), *final(self), i),
            forall|i: int|
                0 <= i < old(self).n() && old(self).pending_delete@.contains(i as usize)
                    ==> bare_at(*final(self), i),
    {
        let mut k: usize = 0;
        let n = self.alive.len();
        while k < self.pending_delete.len()
            invariant
                self.wf(),
                self.n() == old(self).n(),
                self.pending_delete@ == old(self).pending_delete@,
                self.marker@ == old(self).marker@,
                self.next_marker == old(self).next_marker,
                k <= self.pending_delete.len(),
                forall|j: int|
                    0 <= j < self.pending_delete.len()
                        ==> (#[trigger] self.pending_delete@[j]) < self.n(),
                forall|i: int|
                    0 <= i < self.n() && !old(self).pending_delete@.contains(i as usize)
                        ==> unchanged_at(*old(self), *self, i),
                forall|j: int|
                    0 <= j < k ==> bare_at(*self, (#[trigger] self.pending_delete@[j]) as int),
            decreases self.pending_delete.len() - k,
        {
            let e = self.pending_delete[k];
            let ghost w0 = *self;
            self.clear_entity(e);
            proof {
                assert forall|i: int|
                    0 <= i < self.n() && !old(self).pending_delete@.contains(i as usize) implies
                    unchanged_at(*old(self), *self, i) by {
                    assert(old(self).pending_delete@[k as int] == e);
                    assert(i != e as int);
                    assert(unchanged_at(*old(self), w0, i));
                }
                assert forall|j: int|
                    0 <= j < k + 1 implies bare_at(
                    *self,
                    (#[trigger] self.pending_delete@[j]) as int,
                ) by {
                    if j < k {
                        assert(bare_at(w0, self.pending_delete@[j] as int));
                    }
                }
            }
            k = k + 1;
        }
        let ghost wend = *self;
        self.pending_delete = Vec::new();
        proof {
            assert forall|i: int|
                0 <= i < old(self).n() && !old(self).pending_delete@.contains(i as usize) implies
                unchanged_at(*old(self), *self, i) by {
                assert(unchanged_at(*old(self), wend, i));
            }
            assert forall|i: int|
                0 <= i < old(self).n() && old(self).pending_delete@.contains(i as usize) implies
                bare_at(*self, i) by {
                let j = choose|j: int|
                    0 <= j < old(self).pending_delete@.len() && old(self).pending_delete@[j]
                        == i as usize;
                assert(bare_at(wend, wend.pending_delete@[j] as int));
            }
        }
    }
}

/// `w1` grew out of `w0` by creating entities: every slot `w0` had is
/// untouched (markers included), and only new slots were added.
pub open spec fn world_extends(w0: World, w1: World) -> bool {
    &&& w1.wf_lens()
    &&& w0.n() <= w1.n()
    &&& forall|i: int| 0 <= i < w0.n() ==> #[trigger] unchanged_at(w0, w1, i)
    &&& forall|i: int| 0 <= i < w0.n() ==> #[trigger] w1.marker@[i] == w0.marker@[i]
    &&& w1.next_marker >= w0.next_marker
    &&& w1.pending_delete@ == w0.pending_delete@
}

/// Growing a world twice grows it once.
pub proof fn lemma_extends_trans(w0: World, w1: World, w2: World)
    requires
        world_extends(w0, w1),
        world_extends(w1, w2),
    ensures
        world_extends(w0, w2),
{
    assert forall|i: int| 0 <= i < w0.n() implies #[trigger] unchanged_at(w0, w2, i) by {
        assert(unchanged_at(w0, w1, i));
        assert(unchanged_at(w1, w2, i));
    }
}

/// Slot `i` holds the same alive flag and components in both worlds.
pub open spec fn unchanged_at(w0: World, w1: World, i: int) -> bool {
    &&& w1.alive@[i] == w0.alive@[i]
    &&& w1.position@[i] == w0.position@[i]
    &&& w1.renderable@[i] == w0.renderable@[i]
    &&& w1.player@[i] == w0.player@[i]
    &&& w1.monster@[i] == w0.monster@[i]
    &&& w1.name@[i] == w0.name@[i]
    &&& w1.viewshed@[i] == w0.viewshed@[i]
    &&& w1.blocks_tile@[i] == w0.blocks_tile@[i]
    &&& w1.combat_stats@[i] == w0.combat_stats@[i]
    &&& w1.suffer_damage@[i] == w0.suffer_damage@[i]
    &&& w1.item@[i] == w0.item@[i]
    &&& w1.consumable@[i] == w0.consumable@[i]
    &&& w1.ranged@[i] == w0.ranged@[i]
    &&& w1.provides_healing@[i] == w0.provides_healing@[i]
    &&& w1.provides_water@[i] == w0.provides_water@[i]
    &&& w1.inflicts_damage@[i] == w0.inflicts_damage@[i]
    &&& w1.area_of_effect@[i] == w0.area_of_effect@[i]
    &&& w1.confusion@[i] == w0.confusion@[i]
    &&& w1.in_backpack@[i] == w0.in_backpack@[i]
    &&& w1.equippable@[i] == w0.equippable@[i]
    &&& w1.equipped@[i] == w0.equipped@[i]
    &&& w1.melee_power_bonus@[i] == w0.melee_power_bonus@[i]
    &&& w1.defense_bonus@[i] == w0.defense_bonus@[i]
    &&& w1.thirst_clock@[i] == w0.thirst_clock@[i]
    &&& w1.magic_mapper@[i] == w0.magic_mapper@[i]
    &&& w1.hidden@[i] == w0.hidden@[i]
    &&& w1.entry_trigger@[i] == w0.entry_trigger@[i]
    &&& w1.triggers_once@[i] == w0.triggers_once@[i]
    &&& w1.entity_moved@[i] == w0.entity_moved@[i]
    &&& w1.particle_lifetime@[i] == w0.particle_lifetime@[i]
    &&& w1.wants_to_pickup@[i] == w0.wants_to_pickup@[i]
    &&& w1.wants_to_use@[i] == w0.wants_to_use@[i]
    &&& w1.wants_to_drop@[i] == w0.wants_to_drop@[i]
    &&& w1.wants_to_remove@[i] == w0.wants_to_remove@[i]
    &&& w1.does_melee@[i] == w0.does_melee@[i]
}

/// Slot `i` is dead and componentless.
pub open spec fn bare_at(w: World, i: int) -> bool {
    &&& !w.alive@[i]
    &&& w.position@[i] is None
    &&& w.renderable@[i] is None
    &&& !w.player@[i]
    &&& !w.monster@[i]
    &&& w.name@[i] is None
    &&& w.viewshed@[i] is None
    &&& !w.blocks_tile@[i]
    &&& w.combat_stats@[i] is None
    &&& w.suffer_damage@[i] is None
    &&& !w.item@[i]
    &&& !w.consumable@[i]
    &&& w.ranged@[i] is None
    &&& w.provides_healing@[i] is None
    &&& !w.provides_water@[i]
    &&& w.inflicts_damage@[i] is None
    &&& w.area_of_effect@[i] is None
    &&& w.confusion@[i] is None
    &&& w.in_backpack@[i] is None
    &&& w.equippable@[i] is None
    &&& w.equipped@[i] is None
    &&& w.melee_power_bonus@[i] is None
    &&& w.defense_bonus@[i] is None
    &&& w.thirst_clock@[i] is None
    &&& !w.magic_mapper@[i]
    &&& !w.hidden@[i]
    &&& !w.entry_trigger@[i]
    &&& !w.triggers_once@[i]
    &&& !w.entity_moved@[i]
    &&& w.particle_lifetime@[i] is None
    &&& w.wants_to_pickup@[i] is None
    &&& w.wants_to_use@[i] is None
    &&& w.wants_to_drop@[i] is None
    &&& w.wants_to_remove@[i] is None
    &&& w.does_melee@[i] is None
}

} // verus!

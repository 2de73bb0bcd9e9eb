//! The component types of the entity store: plain data attached to entities,
//! read and written by the turn-pipeline passes.

use vstd::prelude::*;

verus! {

/// An entity is an index into the world's component tables.
pub type Entity = usize;

/// Bound on every single combat figure (hit points, power, defense, bonus,
/// damage, heal amount) a well-formed world may hold.
pub const STAT_MAX: i32 = 1000;

/// Bound on the number of entity slots a well-formed world may hold.
pub const ENTITY_CAP: usize = 65536;

#[derive(Clone, Copy, PartialEq, Eq, Structural, Debug)]
pub struct Position {
    pub x: i32,
    pub y: i32,
}

/// A named palette colour; turning it into concrete channel values is a
/// rendering concern and happens outside this crate.
#[derive(Clone, Copy, PartialEq, Eq, Structural, Debug)]
pub enum Color {
    Yellow,
    Black,
    Red,
    DarkRed,
    Magenta,
    Cyan,
    DarkCyan,
    LightCyan,
    Pink,
    Orange,
    Green,
    Violet,
    White,
}

#[derive(Clone, Copy, PartialEq, Eq, Structural, Debug)]
pub struct Renderable {
    pub glyph: char,
    pub fg: Color,
    pub bg: Color,
    /// Draw-priority tie-break: lower values are drawn last, on top.
    pub render_order: i32,
}

#[derive(Clone, Copy, PartialEq, Eq, Structural, Debug)]
pub struct CombatStats {
    pub hp: i32,
    pub max_hp: i32,
    pub power: i32,
    pub defense: i32,
}

impl CombatStats {
    /// Figures a well-formed world keeps within range: healing clamps to
    /// `max_hp`, damage is applied with a floor, stats are bounded.
    pub open spec fn wf(self) -> bool {
        &&& -STAT_MAX <= self.hp <= self.max_hp
        &&& 0 <= self.max_hp <= STAT_MAX
        &&& 0 <= self.power <= STAT_MAX
        &&& 0 <= self.defense <= STAT_MAX
    }
}

/// Pending damage against one entity; several sources in one turn queue
/// their amounts here and the damage pass applies the sum.
#[derive(Clone, PartialEq, Eq, Debug)]
pub struct SufferDamage {
    pub amounts: Vec<i32>,
}

impl SufferDamage {
    pub open spec fn wf(self) -> bool {
        forall|i: int| 0 <= i < self.amounts.len() ==> 0 <= #[trigger] self.amounts[i]
    }

    /// The total pending damage, as an unbounded integer.
    pub open spec fn total(self) -> int {
        sum_of(self.amounts@)
    }
}

/// Sum of a sequence of machine integers, as an unbounded integer.
pub open spec fn sum_of(s: Seq<i32>) -> int
    decreases s.len(),
{
    if s.len() == 0 {
        0
    } else {
        sum_of(s.drop_last()) + s.last()
    }
}

/// The set of tiles an entity currently sees, recomputed when `dirty`.
#[derive(Clone, PartialEq, Eq, Debug)]
pub struct Viewshed {
    pub visible_tiles: Vec<usize>,
    pub range: i32,
    pub dirty: bool,
}

#[derive(Clone, Copy, PartialEq, Eq, Structural, Debug)]
pub enum ThirstState {
    Quenched,
    Normal,
    Thirsty,
    Parched,
}

#[derive(Clone, Copy, PartialEq, Eq, Structural, Debug)]
pub struct ThirstClock {
    pub state: ThirstState,
    pub duration: i32,
}

#[derive(Clone, Copy, PartialEq, Eq, Structural, Debug)]
pub enum EquipmentSlot {
    Melee,
    Shield,
}

#[derive(Clone, Copy, PartialEq, Eq, Structural, Debug)]
pub struct Equippable {
    pub slot: EquipmentSlot,
}

#[derive(Clone, Copy, PartialEq, Eq, Structural, Debug)]
pub struct Equipped {
    pub owner: Entity,
    pub slot: EquipmentSlot,
}

#[derive(Clone, Copy, PartialEq, Eq, Structural, Debug)]
pub struct InBackpack {
    pub owner: Entity,
}

#[derive(Clone, Copy, PartialEq, Eq, Structural, Debug)]
pub struct MeleePowerBonus {
    pub power: i32,
}

#[derive(Clone, Copy, PartialEq, Eq, Structural, Debug)]
pub struct DefenseBonus {
    pub defense: i32,
}

#[derive(Clone, Copy, PartialEq, Eq, Structural, Debug)]
pub struct ProvidesHealing {
    pub heal_amount: i32,
}

#[derive(Clone, Copy, PartialEq, Eq, Structural, Debug)]
pub struct InflictsDamage {
    pub damage: i32,
}

#[derive(Clone, Copy, PartialEq, Eq, Structural, Debug)]
pub struct AreaOfEffect {
    pub radius: i32,
}

#[derive(Clone, Copy, PartialEq, Eq, Structural, Debug)]
pub struct Confusion {
    pub turns: i32,
}

#[derive(Clone, Copy, PartialEq, Eq, Structural, Debug)]
pub struct Ranged {
    pub range: i32,
}

/// Transient visual effect, aged out by the particle pass.
#[derive(Clone, Copy, PartialEq, Eq, Structural, Debug)]
pub struct ParticleLifetime {
    pub remaining_ms: i32,
}

/// Single-turn intent: pick an item up off the floor.
#[derive(Clone, Copy, PartialEq, Eq, Structural, Debug)]
pub struct WantsToPickupItem {
    pub collected_by: Entity,
    pub item: Entity,
}

/// Single-turn intent: use an item, optionally at a target point.
#[derive(Clone, Copy, PartialEq, Eq, Structural, Debug)]
pub struct WantsToUseItem {
    pub item: Entity,
    pub target: Option<Position>,
}

#[derive(Clone, Copy, PartialEq, Eq, Structural, Debug)]
pub struct WantsToDropItem {
    pub item: Entity,
}

#[derive(Clone, Copy, PartialEq, Eq, Structural, Debug)]
pub struct WantsToRemoveItem {
    pub item: Entity,
}

/// Single-turn intent: attack a target in melee.
#[derive(Clone, Copy, PartialEq, Eq, Structural, Debug)]
pub struct DoesMelee {
    pub target: Entity,
}

} // verus!

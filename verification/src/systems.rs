//! The ordered turn-resolution passes. They run in a fixed order every
//! time the pipeline executes; the ordering is load-bearing.

pub mod damage;
pub mod indexing;
pub mod inventory;
pub mod item_use;
pub mod melee;
pub mod monster_ai;
pub mod particles;
pub mod thirst;
pub mod trigger;
pub mod visibility;

//! The scrolling message log: structured events, appended by the passes,
//! turned into text only by the presentation layer outside this crate.

use vstd::prelude::*;
use crate::components::Entity;

verus! {

/// One user-visible message, as the data it reports.
#[derive(Clone, Copy, PartialEq, Eq, Structural, Debug)]
pub enum LogEvent {
    /// An attack that dealt no damage.
    Miss { attacker: Entity, target: Entity },
    /// An attack that dealt damage.
    Hit { attacker: Entity, target: Entity, damage: i32 },
    /// A hidden entity spotted.
    Discovered { entity: Entity },
    /// A trap set off by a mover.
    Triggered { entity: Entity },
    PickedUp { item: Entity },
    NothingToPickUp,
    Equipped { item: Entity },
    Unequipped { item: Entity },
    Drank { item: Entity },
    Healed { item: Entity, amount: i32 },
    UsedInflict { item: Entity, target: Entity, damage: i32 },
    UsedConfusion { item: Entity, target: Entity },
    Dropped { item: Entity },
    MappedSurroundings { item: Entity },
    NoLongerQuenched,
    GrewThirsty,
    GrewParched,
    ThirstHurts,
    NoWayDown,
    Descended,
    Waited,
    Rested,
    ThirstPreventsRest,
    EnemyPreventsRest,
    PlayerDied,
}

pub struct GameLog {
    pub entries: Vec<LogEvent>,
}

impl GameLog {
    pub fn new() -> (l: GameLog)
        ensures
            l.entries@ =~= Seq::<LogEvent>::empty(),
    {
        GameLog { entries: Vec::new() }
    }

    pub fn push(&mut self, e: LogEvent)
        ensures
            final(self).entries@ == old(self).entries@.push(e),
    {
        self.entries.push(e);
    }
}

/// The log only ever grows: the new entries extend the old ones.
pub open spec fn log_extended(l0: GameLog, l1: GameLog) -> bool {
    l0.entries@.is_prefix_of(l1.entries@)
}

} // verus!

//! The thirst pass: the acting side's clocks run down once per turn, and
//! on underflow a clock escalates one step along the fixed order
//! Quenched, Normal, Thirsty, Parched; a parched clock hurts instead of
//! escalating further.

use vstd::prelude::*;
use crate::components::{ThirstClock, ThirstState};
use crate::world::World;
use crate::gamelog::{GameLog, LogEvent, log_extended};
use crate::systems::damage::{amounts_of, add_damage};

verus! {

/// Damage a parched clock inflicts at each underflow.
pub const PARCHED_DAMAGE: i32 = 2;

/// Duration granted by drinking.
pub const THIRST_RESET_DRINK: i32 = 20;

/// Duration granted by each escalation.
pub const THIRST_RESET: i32 = 200;

/// The next state in the escalation order; Parched stays Parched.
pub open spec fn escalated(s: ThirstState) -> ThirstState {
    match s {
        ThirstState::Quenched => ThirstState::Normal,
        ThirstState::Normal => ThirstState::Thirsty,
        ThirstState::Thirsty => ThirstState::Parched,
        ThirstState::Parched => ThirstState::Parched,
    }
}

/// One tick of a thirst clock: the duration runs down; on underflow the
/// state escalates and the duration resets (a parched clock stays at
/// zero and hurts instead).
pub open spec fn spec_tick(c: ThirstClock) -> ThirstClock {
    if c.duration > 1 {
        ThirstClock { state: c.state, duration: (c.duration - 1) as i32 }
    } else if c.state == ThirstState::Parched {
        ThirstClock { state: ThirstState::Parched, duration: 0 }
    } else {
        ThirstClock { state: escalated(c.state), duration: THIRST_RESET }
    }
}

/// A tick hurts exactly when a parched clock underflows.
pub open spec fn tick_hurts(c: ThirstClock) -> bool {
    c.duration <= 1 && c.state == ThirstState::Parched
}

/// Whose clocks run this pass: the player's on the player's turn, every
/// other clock on the monster turn, and none in any other run state.
#[derive(Clone, Copy, PartialEq, Eq, Structural, Debug)]
pub enum ThirstSide {
    PlayerTurn,
    MonsterTurn,
    Inactive,
}

/// The clock of entity `e` ticks this pass.
pub open spec fn ticked(w: World, e: int, side: ThirstSide) -> bool {
    w.thirst_clock@[e] is Some && (match side {
        ThirstSide::PlayerTurn => w.player@[e],
        ThirstSide::MonsterTurn => !w.player@[e],
        ThirstSide::Inactive => false,
    })
}

/// A tick changes the state only by escalating one step in the fixed
/// order, and only on underflow, resetting the duration as it does; a
/// tick never jumps a step or goes backwards.
pub proof fn lemma_thirst_escalation(c: ThirstClock)
    ensures
        spec_tick(c).state == c.state || (c.duration <= 1 && spec_tick(c).state == escalated(
            c.state,
        ) && spec_tick(c).duration == THIRST_RESET),
        c.duration > 1 ==> spec_tick(c) == (ThirstClock {
            state: c.state,
            duration: (c.duration - 1) as i32,
        }),
        c.state == ThirstState::Parched ==> spec_tick(c).state == ThirstState::Parched,
        tick_hurts(c) <==> (c.duration <= 1 && c.state == ThirstState::Parched),
{
}

/// The thirst pass. Every clock of the acting side ticks once as
/// `spec_tick` describes (no clock at all outside the two turn states);
/// an underflowing parched clock queues its fixed damage against its
/// owner; everything else is untouched.
pub fn thirst_system(world: &mut World, side: ThirstSide, log: &mut GameLog)
    requires
        old(world).wf(),
    ensures
        final(world).wf(),
        final(world).n() == old(world).n(),
        *final(world) == (World {
            thirst_clock: final(world).thirst_clock,
            suffer_damage: final(world).suffer_damage,
            ..*old(world)
        }),
        forall|e: int|
            0 <= e < old(world).n() && ticked(*old(world), e, side)
                ==> (#[trigger] final(world).thirst_clock@[e]) == Some(
                spec_tick(old(world).thirst_clock@[e]->0),
            ),
        forall|e: int|
            0 <= e < old(world).n() && !ticked(*old(world), e, side)
                ==> (#[trigger] final(world).thirst_clock@[e]) == old(world).thirst_clock@[e],
        forall|e: int|
            0 <= e < old(world).n() ==> amounts_of(*final(world), e) =~= amounts_of(
                *old(world),
                e,
            ) + (
            if ticked(*old(world), e, side) && tick_hurts(old(world).thirst_clock@[e]->0) {
                seq![PARCHED_DAMAGE]
            } else {
                Seq::empty()
            }),
        log_extended(*old(log), *final(log)),
        forall|e: int|
            0 <= e < old(world).n() && old(world).player@[e] && ticked(*old(world), e, side)
                && tick_hurts(old(world).thirst_clock@[e]->0) ==> final(log).entries@.contains(
                LogEvent::ThirstHurts,
            ),
{
    let n = world.alive.len();
    let mut e: usize = 0;
    while e < n
        invariant
            world.wf(),
            n == old(world).n(),
            world.n() == n,
            e <= n,
            *world == (World {
                thirst_clock: world.thirst_clock,
                suffer_damage: world.suffer_damage,
                ..*old(world)
            }),
            forall|e2: int|
                0 <= e2 < e && ticked(*old(world), e2, side)
                    ==> (#[trigger] world.thirst_clock@[e2]) == Some(
                    spec_tick(old(world).thirst_clock@[e2]->0),
                ),
            forall|e2: int|
                (0 <= e2 < e && !ticked(*old(world), e2, side)) || e <= e2 < n
                    ==> (#[trigger] world.thirst_clock@[e2]) == old(world).thirst_clock@[e2],
            forall|e2: int|
                0 <= e2 < n ==> amounts_of(*world, e2) =~= amounts_of(*old(world), e2) + (
                if e2 < e && ticked(*old(world), e2, side) && tick_hurts(
                    old(world).thirst_clock@[e2]->0,
                ) {
                    seq![PARCHED_DAMAGE]
                } else {
                    Seq::empty()
                }),
            log_extended(*old(log), *log),
            forall|e2: int|
                0 <= e2 < e && old(world).player@[e2] && ticked(*old(world), e2, side)
                    && tick_hurts(old(world).thirst_clock@[e2]->0) ==> log.entries@.contains(
                    LogEvent::ThirstHurts,
                ),
        decreases n - e,
    {
        let ghost log_iter = *log;
        let ghost w0 = *world;
        let ghost mut did_hurt = false;
        let mut has_clock = false;
        let mut clock = ThirstClock { state: ThirstState::Normal, duration: 0 };
        match world.thirst_clock[e] {
            Some(c) => {
                has_clock = true;
                clock = c;
            },
            None => {},
        }
        let runs = match side {
            ThirstSide::PlayerTurn => world.player[e],
            ThirstSide::MonsterTurn => !world.player[e],
            ThirstSide::Inactive => false,
        };
        if has_clock && runs {
            if clock.duration > 1 {
                world.thirst_clock.set(
                    e,
                    Some(ThirstClock { state: clock.state, duration: clock.duration - 1 }),
                );
            } else if clock.state == ThirstState::Parched {
                world.thirst_clock.set(
                    e,
                    Some(ThirstClock { state: ThirstState::Parched, duration: 0 }),
                );
                let ghost w1 = *world;
                add_damage(world, e, PARCHED_DAMAGE);
                proof {
                    did_hurt = true;
                    assert(amounts_of(w1, e as int) == amounts_of(w0, e as int));
                    assert(amounts_of(*world, e as int) == amounts_of(w1, e as int).push(
                        PARCHED_DAMAGE,
                    ));
                    assert forall|e2: int| 0 <= e2 < n && e2 != e implies
                        world.suffer_damage@[e2] == w0.suffer_damage@[e2] by {
                        assert(world.suffer_damage@[e2] == w1.suffer_damage@[e2]);
                    }
                }
                if world.player[e] {
                    log.push(LogEvent::ThirstHurts);
                    proof {
                        assert(log.entries@[log.entries@.len() - 1] == LogEvent::ThirstHurts);
                    }
                }
            } else {
                let next_state = if clock.state == ThirstState::Quenched {
                    ThirstState::Normal
                } else if clock.state == ThirstState::Normal {
                    ThirstState::Thirsty
                } else {
                    ThirstState::Parched
                };
                world.thirst_clock.set(
                    e,
                    Some(ThirstClock { state: next_state, duration: THIRST_RESET }),
                );
                if world.player[e] {
                    if next_state == ThirstState::Normal {
                        log.push(LogEvent::NoLongerQuenched);
                    } else if next_state == ThirstState::Thirsty {
                        log.push(LogEvent::GrewThirsty);
                    } else {
                        log.push(LogEvent::GrewParched);
                    }
                }
            }
        }
        proof {
            assert forall|e2: int|
                0 <= e2 < e + 1 && old(world).player@[e2] && ticked(*old(world), e2, side)
                    && tick_hurts(old(world).thirst_clock@[e2]->0) implies log.entries@.contains(
                LogEvent::ThirstHurts,
            ) by {
                if e2 < e {
                    assert(log_iter.entries@.contains(LogEvent::ThirstHurts));
                    let k = choose|k: int|
                        0 <= k < log_iter.entries@.len() && log_iter.entries@[k]
                            == LogEvent::ThirstHurts;
                    assert(log.entries@.take(log_iter.entries@.len() as int) =~= log_iter.entries@);
                    assert(log.entries@[k] == LogEvent::ThirstHurts);
                }
            }
            assert forall|e2: int|
                0 <= e2 < n implies amounts_of(*world, e2) =~= amounts_of(*old(world), e2) + (
            if e2 < e + 1 && ticked(*old(world), e2, side) && tick_hurts(
                old(world).thirst_clock@[e2]->0,
            ) {
                seq![PARCHED_DAMAGE]
            } else {
                Seq::empty()
            }) by {
                if e2 == e as int && did_hurt {
                    assert(amounts_of(w0, e2) =~= amounts_of(*old(world), e2));
                } else if e2 == e as int {
                    assert(world.suffer_damage@[e2] == w0.suffer_damage@[e2]);
                    assert(amounts_of(*world, e2) == amounts_of(w0, e2));
                } else {
                    assert(world.suffer_damage@[e2] == w0.suffer_damage@[e2]);
                    assert(amounts_of(*world, e2) == amounts_of(w0, e2));
                }
            }
        }
        e = e + 1;
    }
}

} // verus!

//! The inventory passes: picking an item up off the floor, dropping it at
//! the carrier's feet, and unequipping back into the backpack. Each pass
//! consumes and clears its intent table.

use vstd::prelude::*;
use crate::components::{InBackpack, Position};
use crate::world::World;
use crate::gamelog::{GameLog, LogEvent, log_extended};

verus! {

/// Some entity wants to pick item `i` up.
pub open spec fn pickup_wanted(w: World, i: int) -> bool {
    exists|e: int|
        0 <= e < w.n() && (#[trigger] w.wants_to_pickup@[e]) is Some
            && w.wants_to_pickup@[e]->0.item == i
}

/// The pickup pass. Every item someone wants to pick up loses its
/// position and lands in the backpack of one of its collectors; items
/// nobody wants are untouched; the intents are cleared.
pub fn item_collection_system(world: &mut World, player: usize, log: &mut GameLog)
    requires
        old(world).wf(),
    ensures
        final(world).wf(),
        final(world).n() == old(world).n(),
        *final(world) == (World {
            position: final(world).position,
            in_backpack: final(world).in_backpack,
            wants_to_pickup: final(world).wants_to_pickup,
            ..*old(world)
        }),
        forall|e: int| 0 <= e < old(world).n() ==> (#[trigger] final(world).wants_to_pickup@[e]) is None,
        forall|i: int|
            0 <= i < old(world).n() && pickup_wanted(*old(world), i) ==> (#[trigger] final(world).position@[i]) is None && final(world).in_backpack@[i] is Some && exists|e: int|
                0 <= e < old(world).n() && (#[trigger] old(world).wants_to_pickup@[e]) is Some
                    && old(world).wants_to_pickup@[e]->0.item == i && final(world).in_backpack@[i]->0.owner == old(world).wants_to_pickup@[e]->0.collected_by,
        forall|i: int|
            0 <= i < old(world).n() && !pickup_wanted(*old(world), i) ==> (#[trigger] final(world).position@[i]) == old(world).position@[i] && final(world).in_backpack@[i] == old(world).in_backpack@[i],
        log_extended(*old(log), *final(log)),
        // The pickup message: logged for the player's own pickups.
        forall|e: int|
            0 <= e < old(world).n() && (#[trigger] old(world).wants_to_pickup@[e]) is Some && old(world).wants_to_pickup@[e]->0.collected_by == player ==> final(log).entries@.contains(
                LogEvent::PickedUp { item: old(world).wants_to_pickup@[e]->0.item },
            ),
{
    let n = world.alive.len();
    let mut e: usize = 0;
    while e < n
        invariant
            world.wf(),
            n == old(world).n(),
            world.n() == n,
            e <= n,
            *world == (World {
                position: world.position,
                in_backpack: world.in_backpack,
                ..*old(world)
            }),
            forall|e2: int|
                0 <= e2 < e && (#[trigger] old(world).wants_to_pickup@[e2]) is Some && old(world).wants_to_pickup@[e2]->0.collected_by == player ==> log.entries@.contains(
                    LogEvent::PickedUp { item: old(world).wants_to_pickup@[e2]->0.item },
                ),
            forall|i: int|
                0 <= i < n && (exists|e2: int|
                    0 <= e2 < e && (#[trigger] old(world).wants_to_pickup@[e2]) is Some && old(world).wants_to_pickup@[e2]->0.item == i) ==> (#[trigger] world.position@[i]) is None
                    && world.in_backpack@[i] is Some && exists|e2: int|
                    0 <= e2 < n && (#[trigger] old(world).wants_to_pickup@[e2]) is Some && old(world).wants_to_pickup@[e2]->0.item == i && world.in_backpack@[i]->0.owner == old(world).wants_to_pickup@[e2]->0.collected_by,
            forall|i: int|
                0 <= i < n && !pickup_wanted(*old(world), i) ==> (#[trigger] world.position@[i])
                    == old(world).position@[i] && world.in_backpack@[i] == old(world).in_backpack@[i],
            log_extended(*old(log), *log),
        decreases n - e,
    {
        let ghost w0 = *world;
        let ghost log_iter = *log;
        match world.wants_to_pickup[e] {
            Some(intent) => {
                let i = intent.item;
                world.position.set(i, None);
                world.in_backpack.set(i, Some(InBackpack { owner: intent.collected_by }));
                if intent.collected_by == player {
                    log.push(LogEvent::PickedUp { item: i });
                    proof {
                        assert(log.entries@[log.entries@.len() - 1] == LogEvent::PickedUp {
                            item: i,
                        });
                    }
                }
                proof {
                    assert(old(world).wants_to_pickup@[e as int] is Some && old(world).wants_to_pickup@[e as int]->0.item == i);
                    assert(pickup_wanted(*old(world), i as int));
                }
            },
            None => {},
        }
        proof {
            assert forall|e2: int|
                0 <= e2 < e + 1 && (#[trigger] old(world).wants_to_pickup@[e2]) is Some && old(world).wants_to_pickup@[e2]->0.collected_by == player implies log.entries@.contains(
                LogEvent::PickedUp { item: old(world).wants_to_pickup@[e2]->0.item },
            ) by {
                if e2 < e {
                    let ev = LogEvent::PickedUp { item: old(world).wants_to_pickup@[e2]->0.item };
                    assert(log_iter.entries@.contains(ev));
                    let k2 = choose|k2: int|
                        0 <= k2 < log_iter.entries@.len() && log_iter.entries@[k2] == ev;
                    assert(log.entries@.take(log_iter.entries@.len() as int)
                        =~= log_iter.entries@);
                    assert(log.entries@[k2] == ev);
                }
            }
            assert forall|i2: int|
                0 <= i2 < n && !pickup_wanted(*old(world), i2) implies ((
                #[trigger] world.position@[i2]) == old(world).position@[i2]
                && world.in_backpack@[i2] == old(world).in_backpack@[i2]) by {
                assert(w0.position@[i2] == old(world).position@[i2]);
                assert(w0.in_backpack@[i2] == old(world).in_backpack@[i2]);
                if old(world).wants_to_pickup@[e as int] is Some {
                    let it = old(world).wants_to_pickup@[e as int]->0.item;
                    assert(pickup_wanted(*old(world), it as int));
                    assert(i2 != it);
                }
            }
        }
        e = e + 1;
    }
    // Clear the intents.
    let ghost w_mid = *world;
    let mut e2: usize = 0;
    while e2 < n
        invariant
            world.wf(),
            n == world.n(),
            e2 <= n,
            *world == (World { wants_to_pickup: world.wants_to_pickup, ..w_mid }),
            forall|e3: int| 0 <= e3 < e2 ==> (#[trigger] world.wants_to_pickup@[e3]) is None,
        decreases n - e2,
    {
        world.wants_to_pickup.set(e2, None);
        e2 = e2 + 1;
    }
}

/// Some entity with a position wants to drop item `i`.
pub open spec fn drop_wanted(w: World, i: int) -> bool {
    exists|e: int|
        0 <= e < w.n() && (#[trigger] w.wants_to_drop@[e]) is Some && w.wants_to_drop@[e]->0.item
            == i && w.position@[e] is Some
}

/// The drop pass. Every item a positioned carrier wants to drop leaves
/// the backpack and gains the position of one such carrier; the intents
/// are cleared.
pub fn item_drop_system(world: &mut World, player: usize, log: &mut GameLog)
    requires
        old(world).wf(),
    ensures
        final(world).wf(),
        final(world).n() == old(world).n(),
        *final(world) == (World {
            position: final(world).position,
            in_backpack: final(world).in_backpack,
            wants_to_drop: final(world).wants_to_drop,
            ..*old(world)
        }),
        forall|e: int| 0 <= e < old(world).n() ==> (#[trigger] final(world).wants_to_drop@[e]) is None,
        forall|i: int|
            0 <= i < old(world).n() && drop_wanted(*old(world), i) ==> (#[trigger] final(world).in_backpack@[i]) is None && final(world).position@[i] is Some && exists|e: int|
                0 <= e < old(world).n() && (#[trigger] old(world).wants_to_drop@[e]) is Some && old(world).wants_to_drop@[e]->0.item == i && old(world).position@[e] is Some && final(world).position@[i] == old(world).position@[e],
        forall|i: int|
            0 <= i < old(world).n() && !drop_wanted(*old(world), i) ==> (#[trigger] final(world).position@[i]) == old(world).position@[i] && final(world).in_backpack@[i] == old(world).in_backpack@[i],
        log_extended(*old(log), *final(log)),
{
    let n = world.alive.len();
    let mut pos0: Vec<Option<Position>> = Vec::new();
    let mut c: usize = 0;
    while c < n
        invariant
            world.wf(),
            n == world.n(),
            c <= n,
            pos0.len() == c,
            forall|k: int| 0 <= k < c ==> #[trigger] pos0@[k] == world.position@[k],
        decreases n - c,
    {
        pos0.push(world.position[c]);
        c = c + 1;
    }
    let mut e: usize = 0;
    while e < n
        invariant
            world.wf(),
            old(world).wf(),
            n == old(world).n(),
            world.n() == n,
            e <= n,
            pos0.len() == n,
            forall|k: int| 0 <= k < n ==> #[trigger] pos0@[k] == old(world).position@[k],
            *world == (World {
                position: world.position,
                in_backpack: world.in_backpack,
                ..*old(world)
            }),
            forall|i: int|
                0 <= i < n && (exists|e2: int|
                    0 <= e2 < e && (#[trigger] old(world).wants_to_drop@[e2]) is Some && old(world).wants_to_drop@[e2]->0.item == i && old(world).position@[e2] is Some)
                    ==> (#[trigger] world.in_backpack@[i]) is None && world.position@[i] is Some
                    && exists|e2: int|
                    0 <= e2 < n && (#[trigger] old(world).wants_to_drop@[e2]) is Some && old(world).wants_to_drop@[e2]->0.item == i && old(world).position@[e2] is Some
                        && world.position@[i] == old(world).position@[e2],
            forall|i: int|
                0 <= i < n && !drop_wanted(*old(world), i) ==> (#[trigger] world.position@[i])
                    == old(world).position@[i] && world.in_backpack@[i] == old(world).in_backpack@[i],
            log_extended(*old(log), *log),
        decreases n - e,
    {
        let ghost w0 = *world;
        let mut act = false;
        let mut item: usize = 0;
        let mut pos = Position { x: 0, y: 0 };
        match world.wants_to_drop[e] {
            Some(intent) => {
                match pos0[e] {
                    Some(p) => {
                        act = true;
                        item = intent.item;
                        pos = p;
                    },
                    None => {},
                }
            },
            None => {},
        }
        if act {
            proof {
                assert(old(world).position@[e as int] is Some);
                assert(drop_wanted(*old(world), item as int));
            }
            world.position.set(item, Some(pos));
            world.in_backpack.set(item, None);
            if e == player {
                log.push(LogEvent::Dropped { item });
            }
        }
        proof {
            assert forall|i2: int|
                0 <= i2 < n && !drop_wanted(*old(world), i2) implies ((
                #[trigger] world.position@[i2]) == old(world).position@[i2]
                && world.in_backpack@[i2] == old(world).in_backpack@[i2]) by {
                assert(w0.position@[i2] == old(world).position@[i2]);
                assert(w0.in_backpack@[i2] == old(world).in_backpack@[i2]);
                if act {
                    assert(drop_wanted(*old(world), item as int));
                    assert(i2 != item as int);
                }
            }
        }
        e = e + 1;
    }
    let ghost w_mid = *world;
    let mut e2: usize = 0;
    while e2 < n
        invariant
            world.wf(),
            n == world.n(),
            e2 <= n,
            *world == (World { wants_to_drop: world.wants_to_drop, ..w_mid }),
            forall|e3: int| 0 <= e3 < e2 ==> (#[trigger] world.wants_to_drop@[e3]) is None,
        decreases n - e2,
    {
        world.wants_to_drop.set(e2, None);
        e2 = e2 + 1;
    }
}

/// Some entity wants to unequip item `i`.
pub open spec fn remove_wanted(w: World, i: int) -> bool {
    exists|e: int|
        0 <= e < w.n() && (#[trigger] w.wants_to_remove@[e]) is Some
            && w.wants_to_remove@[e]->0.item == i
}

/// The unequip pass. Every item someone wants to remove leaves its slot
/// and lands in the remover's backpack; the intents are cleared.
pub fn item_remove_system(world: &mut World)
    requires
        old(world).wf(),
    ensures
        final(world).wf(),
        final(world).n() == old(world).n(),
        *final(world) == (World {
            equipped: final(world).equipped,
            in_backpack: final(world).in_backpack,
            wants_to_remove: final(world).wants_to_remove,
            ..*old(world)
        }),
        forall|e: int|
            0 <= e < old(world).n() ==> (#[trigger] final(world).wants_to_remove@[e]) is None,
        forall|i: int|
            0 <= i < old(world).n() && remove_wanted(*old(world), i) ==> (#[trigger] final(world).equipped@[i]) is None && final(world).in_backpack@[i] is Some && exists|e: int|
                0 <= e < old(world).n() && (#[trigger] old(world).wants_to_remove@[e]) is Some
                    && old(world).wants_to_remove@[e]->0.item == i && final(world).in_backpack@[i]->0.owner == e,
        forall|i: int|
            0 <= i < old(world).n() && !remove_wanted(*old(world), i) ==> (#[trigger] final(world).equipped@[i]) == old(world).equipped@[i] && final(world).in_backpack@[i] == old(world).in_backpack@[i],
{
    let n = world.alive.len();
    let mut e: usize = 0;
    while e < n
        invariant
            world.wf(),
            n == old(world).n(),
            world.n() == n,
            e <= n,
            *world == (World {
                equipped: world.equipped,
                in_backpack: world.in_backpack,
                ..*old(world)
            }),
            forall|i: int|
                0 <= i < n && (exists|e2: int|
                    0 <= e2 < e && (#[trigger] old(world).wants_to_remove@[e2]) is Some && old(world).wants_to_remove@[e2]->0.item == i) ==> (#[trigger] world.equipped@[i]) is None
                    && world.in_backpack@[i] is Some && exists|e2: int|
                    0 <= e2 < n && (#[trigger] old(world).wants_to_remove@[e2]) is Some && old(world).wants_to_remove@[e2]->0.item == i && world.in_backpack@[i]->0.owner == e2,
            forall|i: int|
                0 <= i < n && !remove_wanted(*old(world), i) ==> (#[trigger] world.equipped@[i])
                    == old(world).equipped@[i] && world.in_backpack@[i] == old(world).in_backpack@[i],
        decreases n - e,
    {
        match world.wants_to_remove[e] {
            Some(intent) => {
                let i = intent.item;
                world.equipped.set(i, None);
                world.in_backpack.set(i, Some(InBackpack { owner: e }));
                proof {
                    assert(old(world).wants_to_remove@[e as int] is Some);
                    assert(remove_wanted(*old(world), i as int));
                }
            },
            None => {},
        }
        e = e + 1;
    }
    let ghost w_mid = *world;
    let mut e2: usize = 0;
    while e2 < n
        invariant
            world.wf(),
            n == world.n(),
            e2 <= n,
            *world == (World { wants_to_remove: world.wants_to_remove, ..w_mid }),
            forall|e3: int| 0 <= e3 < e2 ==> (#[trigger] world.wants_to_remove@[e3]) is None,
        decreases n - e2,
    {
        world.wants_to_remove.set(e2, None);
        e2 = e2 + 1;
    }
}

} // verus!

//! The orchestrator: the run-state machine and the fixed, ordered
//! turn-resolution pipeline. Key decoding, menu drawing and rendering
//! live in the shell; the shell substitutes the outcome of the
//! input-driven states and otherwise steps the machine with
//! `advance_state`.

use vstd::prelude::*;
use crate::components::{Entity, Position};
use crate::world::World;
use crate::map::GameMap;
use crate::gamelog::{GameLog, LogEvent, log_extended};
use crate::systems::visibility::visibility_system;
use crate::systems::monster_ai::monster_ai_system;
use crate::systems::indexing::{map_indexing_system, index_exact, occupies};
use crate::systems::melee::melee_combat_system;
use crate::systems::trigger::trigger_system;
use crate::systems::damage::{damage_system, delete_the_dead};
use crate::systems::inventory::{item_collection_system, item_drop_system, item_remove_system};
use crate::systems::item_use::{item_use_system, occupants_wf};
use crate::systems::thirst::{thirst_system, ThirstSide};
use crate::systems::particles::cull_dead_particles;
use crate::player::{entities_to_remove_on_level_change, heal_on_descent, carried_by_player};
use crate::map_builders::{random_builder, MapBuildError};
use crate::map_builders::common::builder_output_ok;

verus! {

#[derive(Clone, Copy, PartialEq, Eq, Structural, Debug)]
pub enum MainMenuSelection {
    NewGame,
    LoadGame,
    Quit,
}

/// The outcome the shell reports back from an item menu.
#[derive(Clone, Copy, PartialEq, Eq, Structural, Debug)]
pub enum ItemMenuResult {
    Cancel,
    NoResponse,
    Selected,
}

#[derive(Clone, Copy, PartialEq, Eq, Structural, Debug)]
pub enum RunState {
    AwaitingInput,
    PreRun,
    PlayerTurn,
    MonsterTurn,
    ShowInventory,
    ShowDropItem,
    ShowTargeting { range: i32, item: Entity },
    MainMenu { selection: MainMenuSelection },
    SaveGame,
    NextLevel,
    ShowRemoveItem,
    GameOver,
    MapReveal { row: i32 },
    MapGeneration,
}

/// An exact occupant index lets the trigger and item-use passes read the
/// per-tile occupant lists safely.
pub proof fn lemma_index_gives_occupants_wf(w: World, m: GameMap)
    requires
        index_exact(w, m),
    ensures
        occupants_wf(m, w.n()),
{
    assert forall|t1: int, t2: int, ent: usize|
        0 <= t1 < 3440 && 0 <= t2 < 3440 && #[trigger] m.tile_content@[t1]@.contains(ent)
            && #[trigger] m.tile_content@[t2]@.contains(ent) implies t1 == t2 by {
        let k1 = choose|k1: int|
            0 <= k1 < m.tile_content@[t1].len() && #[trigger] m.tile_content@[t1]@[k1] == ent;
        assert(occupies(w, ent as int, t1));
        assert(occupies(w, ent as int, t2));
    }
}

/// One full run of the turn pipeline, in the fixed, load-bearing order:
/// visibility, monster AI, spatial indexing, melee, triggers, damage,
/// pickup, item use, drop, unequip, thirst, particle decay, then the
/// death sweep and the deferred-deletion flush. Returns whether the
/// player died and whether a used item maps the surroundings.
pub fn run_systems(
    world: &mut World,
    m: &mut GameMap,
    log: &mut GameLog,
    rng: &mut bracket_random::prelude::RandomNumberGenerator,
    player: Entity,
    player_pos: Position,
    side: ThirstSide,
) -> (r: (bool, bool))
    requires
        old(world).wf(),
        old(m).wf(),
        player < old(world).n(),
        0 <= player_pos.x < 80,
        0 <= player_pos.y < 43,
        forall|i: int, j: int|
            0 <= i < old(world).n() && 0 <= j < old(world).n() && old(world).player@[i] && old(world).player@[j] ==> i == j,
    ensures
        final(world).wf(),
        final(world).n() == old(world).n(),
        final(m).wf(),
        log_extended(*old(log), *final(log)),
        // Every single-turn intent was consumed and cleared by its pass.
        forall|e: int| 0 <= e < old(world).n() ==> #[trigger] final_intents_cleared(
            *final(world),
            e,
        ),
        // Both deferred-deletion flush points ran.
        final(world).pending_delete.len() == 0,
        // Hidden entities are only ever revealed, never newly hidden.
        forall|e: int|
            0 <= e < old(world).n() && (#[trigger] final(world).hidden@[e]) ==> old(
                world,
            ).hidden@[e],
{
    visibility_system(world, m, log, rng);
    let ghost w_vis = *world;
    let _marking = monster_ai_system(world, m, player_pos);
    map_indexing_system(world, m);
    proof {
        lemma_index_gives_occupants_wf(*world, *m);
    }
    let ghost w_ai = *world;
    melee_combat_system(world, log);
    let ghost w_melee = *world;
    trigger_system(world, m, log);
    let ghost w_trig = *world;
    damage_system(world, m);
    item_collection_system(world, player, log);
    let ghost w_pick = *world;
    let used_map_scroll = item_use_system(world, m, log, player);
    let ghost w_use = *world;
    item_drop_system(world, player, log);
    let ghost w_drop = *world;
    item_remove_system(world);
    let ghost w_rem = *world;
    thirst_system(world, side, log);
    cull_dead_particles(world, 100);
    let player_died = delete_the_dead(world, log);
    let ghost w_dead = *world;
    world.flush_deletes();
    proof {
        assert forall|e: int|
            0 <= e < old(world).n() implies (#[trigger] final_intents_cleared(*world, e)) by {
            if world.alive@[e] == w_dead.alive@[e] && !w_dead.pending_delete@.contains(e as usize) {
                assert(crate::world::unchanged_at(w_dead, *world, e));
            } else if w_dead.pending_delete@.contains(e as usize) {
                assert(crate::world::bare_at(*world, e));
            } else {
                assert(crate::world::unchanged_at(w_dead, *world, e));
            }
        }
        assert forall|e: int|
            0 <= e < old(world).n() && (#[trigger] world.hidden@[e]) implies old(
            world,
        ).hidden@[e] by {
            if w_dead.pending_delete@.contains(e as usize) {
                assert(crate::world::bare_at(*world, e));
            } else {
                assert(crate::world::unchanged_at(w_dead, *world, e));
                assert(w_trig.hidden@[e] ==> w_melee.hidden@[e]);
                assert(w_melee.hidden@[e] ==> w_vis.hidden@[e]);
                assert(w_vis.hidden@[e] ==> old(world).hidden@[e]);
            }
        }
    }
    (player_died, used_map_scroll)
}

/// Every single-turn intent of slot `e` is gone.
pub open spec fn final_intents_cleared(w: World, e: int) -> bool {
    &&& w.does_melee@[e] is None
    &&& w.wants_to_pickup@[e] is None
    &&& w.wants_to_use@[e] is None
    &&& w.wants_to_drop@[e] is None
    &&& w.wants_to_remove@[e] is None
}

/// The next run state, for the states the machine itself decides: the
/// pipeline states hand over in the fixed order, a map scroll interposes
/// the row-by-row reveal, the player's death ends the game, and the
/// input-driven states wait for the shell.
pub open spec fn spec_advance(s: RunState, used_map_scroll: bool, player_died: bool) -> RunState {
    match s {
        RunState::PreRun => RunState::AwaitingInput,
        RunState::PlayerTurn => if player_died {
            RunState::GameOver
        } else if used_map_scroll {
            RunState::MapReveal { row: 0 }
        } else {
            RunState::MonsterTurn
        },
        RunState::MonsterTurn => if player_died {
            RunState::GameOver
        } else {
            RunState::AwaitingInput
        },
        RunState::MapReveal { row } => if row >= 42 {
            RunState::MonsterTurn
        } else {
            RunState::MapReveal { row: (row + 1) as i32 }
        },
        RunState::SaveGame => RunState::MainMenu { selection: MainMenuSelection::Quit },
        RunState::NextLevel => RunState::PreRun,
        RunState::MapGeneration => RunState::PreRun,
        _ => s,
    }
}

/// Steps the state machine.
pub fn advance_state(s: RunState, used_map_scroll: bool, player_died: bool) -> (next: RunState)
    requires
        s matches RunState::MapReveal { row } ==> 0 <= row <= 42,
    ensures
        next == spec_advance(s, used_map_scroll, player_died),
{
    match s {
        RunState::PreRun => RunState::AwaitingInput,
        RunState::PlayerTurn => {
            if player_died {
                RunState::GameOver
            } else if used_map_scroll {
                RunState::MapReveal { row: 0 }
            } else {
                RunState::MonsterTurn
            }
        },
        RunState::MonsterTurn => {
            if player_died {
                RunState::GameOver
            } else {
                RunState::AwaitingInput
            }
        },
        RunState::MapReveal { row } => {
            if row >= 42 {
                RunState::MonsterTurn
            } else {
                RunState::MapReveal { row: row + 1 }
            }
        },
        RunState::SaveGame => RunState::MainMenu { selection: MainMenuSelection::Quit },
        RunState::NextLevel => RunState::PreRun,
        RunState::MapGeneration => RunState::PreRun,
        _ => s,
    }
}

/// The map scroll's effect, one row per tick: marks every tile of `row`
/// revealed and nothing else.
pub fn reveal_map_row(m: &mut GameMap, row: i32)
    requires
        old(m).wf(),
        0 <= row < 43,
    ensures
        final(m).wf(),
        *final(m) == (GameMap { revealed_tiles: final(m).revealed_tiles, ..*old(m) }),
        forall|i: int|
            0 <= i < 3440 ==> #[trigger] final(m).revealed_tiles@[i] == (old(m).revealed_tiles@[i]
                || crate::map::spec_y(i) == row),
{
    let mut x: i32 = 0;
    while x < 80
        invariant
            m.wf(),
            0 <= row < 43,
            0 <= x <= 80,
            *m == (GameMap { revealed_tiles: m.revealed_tiles, ..*old(m) }),
            forall|i: int|
                0 <= i < 3440 ==> #[trigger] m.revealed_tiles@[i] == (old(m).revealed_tiles@[i] || (
                crate::map::spec_y(i) == row && crate::map::spec_x(i) < x)),
        decreases 80 - x,
    {
        let idx = m.xy_idx(x, row);
        m.revealed_tiles.set(idx, true);
        proof {
            crate::map::lemma_xy_idx(x as int, row as int);
        }
        x = x + 1;
    }
}

/// The level transition: everything the player does not carry is deleted,
/// a fresh map one level deeper is built and populated, the player is
/// placed at its start with a dirty viewshed, climbs down with at least
/// half its health, and the descent is logged. Returns the new map and
/// start.
pub fn descend_to_next_level(
    world: &mut World,
    log: &mut GameLog,
    rng: &mut bracket_random::prelude::RandomNumberGenerator,
    player: Entity,
    current_depth: i32,
) -> (r: Result<(GameMap, Position), MapBuildError>)
    requires
        old(world).wf(),
        player < old(world).n(),
        old(world).player@[player as int],
        old(world).alive@[player as int],
        old(world).pending_delete.len() == 0,
        1 <= current_depth < 1000,
    ensures
        final(world).wf(),
        r matches Ok(mp) ==> {
            &&& mp.0.wf()
            &&& builder_output_ok(mp.0, mp.1)
            &&& player < final(world).n()
            &&& final(world).alive@[player as int]
            &&& final(world).position@[player as int] == Some(mp.1)
            &&& final(world).viewshed@[player as int] is Some ==> final(world).viewshed@[
                player as int
            ]->0.dirty
            &&& final(log).entries@.contains(LogEvent::Descended)
            // Everything the player did not carry is gone.
            &&& forall|e: int|
                0 <= e < old(world).n() && old(world).alive@[e] && !carried_by_player(
                    *old(world),
                    e,
                    player as int,
                ) ==> !(#[trigger] final(world).alive@[e])
        },
{
    // Delete everything the player does not take along.
    let to_delete = entities_to_remove_on_level_change(world, player);
    let mut k: usize = 0;
    while k < to_delete.len()
        invariant
            world.wf(),
            world.n() == old(world).n(),
            k <= to_delete.len(),
            *world == (World { pending_delete: world.pending_delete, ..*old(world) }),
            forall|j: int| 0 <= j < to_delete.len() ==> (#[trigger] to_delete@[j]) < world.n(),
            forall|j: int| 0 <= j < k ==> world.pending_delete@.contains(#[trigger] to_delete@[j]),
            forall|j: int|
                0 <= j < world.pending_delete.len() ==> to_delete@.contains(
                    #[trigger] world.pending_delete@[j],
                ),
        decreases to_delete.len() - k,
    {
        let ghost pd0 = world.pending_delete@;
        world.delete_entity(to_delete[k]);
        proof {
            assert(world.pending_delete@[world.pending_delete@.len() - 1] == to_delete@[k as int]);
            assert forall|j: int|
                0 <= j < k + 1 implies world.pending_delete@.contains(
                #[trigger] to_delete@[j],
            ) by {
                if j < k {
                    let i = choose|i: int| 0 <= i < pd0.len() && pd0[i] == to_delete@[j];
                    assert(world.pending_delete@[i] == to_delete@[j]);
                }
            }
        }
        k = k + 1;
    }
    let ghost w_del = *world;
    world.flush_deletes();
    let ghost w_flushed = *world;
    // Build and populate the next level.
    let mut builder = random_builder(current_depth + 1);
    match builder.build_map(rng) {
        Ok(()) => {},
        Err(err) => {
            return Err(err);
        },
    }
    let map = builder.get_map();
    let start = builder.get_starting_position();
    builder.spawn_entities(world, rng);
    let ghost w_spawned = *world;
    proof {
        assert(builder_output_ok(map, start)) by {
            let i = choose|i: int| builder.spec_map().single_downstairs_at(i);
            assert(map.tiles@ == builder.spec_map().tiles@);
            assert(map.single_downstairs_at(i));
        }
        assert forall|e: int|
            0 <= e < old(world).n() && old(world).alive@[e] && !carried_by_player(
                *old(world),
                e,
                player as int,
            ) implies !(#[trigger] w_spawned.alive@[e]) by {
            assert(to_delete@.contains(e as usize));
            assert(w_del.pending_delete@.contains(e as usize));
            assert(crate::world::bare_at(w_flushed, e));
            assert(crate::world::unchanged_at(w_flushed, w_spawned, e));
        }
        assert(!w_del.pending_delete@.contains(player));
        assert(crate::world::unchanged_at(w_del, w_flushed, player as int));
        assert(crate::world::unchanged_at(w_flushed, w_spawned, player as int));
    }
    // Place the player at the start, looking around afresh.
    world.position.set(player, Some(start));
    match &world.viewshed[player] {
        Some(v) => {
            let range = v.range;
            world.viewshed.set(
                player,
                Some(crate::components::Viewshed { visible_tiles: Vec::new(), range, dirty: true }),
            );
        },
        None => {},
    }
    heal_on_descent(world, player);
    log.push(LogEvent::Descended);
    proof {
        assert(log.entries@[log.entries@.len() - 1] == LogEvent::Descended);
        assert(log.entries@.contains(LogEvent::Descended));
        assert(map.wf());
        assert(builder_output_ok(map, start));
        assert(player < world.n());
        assert(world.alive@[player as int]);
        assert(world.position@[player as int] == Some(start));
        assert(world.viewshed@[player as int] is Some ==> world.viewshed@[
            player as int
        ]->0.dirty);
        assert forall|e: int|
            0 <= e < old(world).n() && old(world).alive@[e] && !carried_by_player(
                *old(world),
                e,
                player as int,
            ) implies !(#[trigger] world.alive@[e]) by {
            assert(e != player);
            assert(!w_spawned.alive@[e]);
        }
    }
    Ok((map, start))
}

} // verus!

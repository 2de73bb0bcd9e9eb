// End-to-end checks of the library: the melee formula, the thirst clock,
// the smoothing rule, the builders' guarantees and the spawn table, run
// with the real random number generator.

use rogue_core::combat::melee_damage;
use rogue_core::components::{CombatStats, ThirstClock, ThirstState};
use rogue_core::map::{GameMap, TileType};
use rogue_core::map_builders::cellular_automata::smooth_pass;
use rogue_core::map_builders::{random_builder, MapBuilder};
use rogue_core::map_builders::simple_map::SimpleMapBuilder;
use rogue_core::rng::rng_seeded;
use rogue_core::spawner::{room_table, Archetype};
use rogue_core::world::World;
use rogue_core::gamelog::GameLog;
use rogue_core::systems::damage::{add_damage, damage_system};
use rogue_core::systems::thirst::{thirst_system, ThirstSide};
use rogue_core::systems::item_use::use_item;
use rogue_core::saveload::{save_game, load_game};
use rogue_core::runstate::{advance_state, descend_to_next_level, RunState};
use rogue_core::player::try_next_level;
use rogue_core::components::{Position, WantsToUseItem, Equipped, EquipmentSlot};

#[test]
fn melee_damage_concrete_scenario() {
    // Attacker {power:5, defense:2} vs defender {power:4, defense:1, hp:16}
    // with no equipment bonuses: damage is max(0, 5 - 1) = 4.
    let dmg = melee_damage(5, 0, 1, 0);
    assert_eq!(dmg, 4);
    // Applying it takes the defender from 16 to 12 hit points.
    let mut world = World::new();
    let mut map = GameMap::new(1);
    let mut rng = rng_seeded(7);
    let defender = rogue_core::spawner::orc(&mut world, 5, 5);
    let _ = rng;
    world.combat_stats[defender] = Some(CombatStats { hp: 16, max_hp: 16, power: 4, defense: 1 });
    add_damage(&mut world, defender, dmg);
    damage_system(&mut world, &mut map);
    let stats = world.combat_stats[defender].unwrap();
    assert_eq!(stats.hp, 12);
}

#[test]
fn melee_damage_never_negative() {
    assert_eq!(melee_damage(1, 0, 10, 10), 0);
    assert_eq!(melee_damage(0, 0, 0, 0), 0);
}

#[test]
fn thirst_escalates_in_order() {
    let mut world = World::new();
    let mut log = GameLog::new();
    let p = rogue_core::spawner::player(&mut world, 10, 10);
    world.thirst_clock[p] = Some(ThirstClock { state: ThirstState::Quenched, duration: 1 });
    thirst_system(&mut world, ThirstSide::PlayerTurn, &mut log);
    let c = world.thirst_clock[p].unwrap();
    assert_eq!(c.state, ThirstState::Normal);
    assert_eq!(c.duration, 200);
    world.thirst_clock[p] = Some(ThirstClock { state: ThirstState::Normal, duration: 1 });
    thirst_system(&mut world, ThirstSide::PlayerTurn, &mut log);
    assert_eq!(world.thirst_clock[p].unwrap().state, ThirstState::Thirsty);
    world.thirst_clock[p] = Some(ThirstClock { state: ThirstState::Thirsty, duration: 1 });
    thirst_system(&mut world, ThirstSide::PlayerTurn, &mut log);
    assert_eq!(world.thirst_clock[p].unwrap().state, ThirstState::Parched);
    // Parched stays parched and hurts instead.
    world.thirst_clock[p] = Some(ThirstClock { state: ThirstState::Parched, duration: 1 });
    thirst_system(&mut world, ThirstSide::PlayerTurn, &mut log);
    assert_eq!(world.thirst_clock[p].unwrap().state, ThirstState::Parched);
    assert!(world.suffer_damage[p].is_some());
    // A clock with time left only ticks down.
    world.thirst_clock[p] = Some(ThirstClock { state: ThirstState::Quenched, duration: 20 });
    thirst_system(&mut world, ThirstSide::PlayerTurn, &mut log);
    let c2 = world.thirst_clock[p].unwrap();
    assert_eq!(c2.state, ThirstState::Quenched);
    assert_eq!(c2.duration, 19);
    // Outside the two turn states no clock runs at all.
    thirst_system(&mut world, ThirstSide::Inactive, &mut log);
    let c3 = world.thirst_clock[p].unwrap();
    assert_eq!(c3.duration, 19);
}

#[test]
fn smoothing_all_wall_stays_all_wall() {
    // An all-wall interior has no neighbour count that can produce floor.
    let tiles = vec![TileType::Wall; 3440];
    let out = smooth_pass(&tiles);
    assert_eq!(out.len(), 3440);
    for t in out.iter() {
        assert_eq!(*t, TileType::Wall);
    }
}

#[test]
fn cellular_builder_guarantees() {
    // Exactly one staircase, and the start on a floor tile.
    let mut rng = rng_seeded(12345);
    let mut builder = random_builder(1);
    let built = builder.build_map(&mut rng);
    assert!(built.is_ok());
    let map = builder.get_map();
    let start = builder.get_starting_position();
    let mut stairs = 0;
    for t in map.tiles.iter() {
        if *t == TileType::DownStairs {
            stairs += 1;
        }
    }
    assert_eq!(stairs, 1);
    let sidx = (start.y as usize) * 80 + (start.x as usize);
    assert_eq!(map.tiles[sidx], TileType::Floor);
}

#[test]
fn simple_builder_guarantees() {
    let mut rng = rng_seeded(99);
    let mut builder = SimpleMapBuilder::new(1);
    let built = builder.build_map(&mut rng);
    assert!(built.is_ok());
    let map = builder.get_map();
    let start = builder.get_starting_position();
    let mut stairs = 0;
    for t in map.tiles.iter() {
        if *t == TileType::DownStairs {
            stairs += 1;
        }
    }
    assert_eq!(stairs, 1);
    let sidx = (start.y as usize) * 80 + (start.x as usize);
    assert_eq!(map.tiles[sidx], TileType::Floor);
}

#[test]
fn spawn_table_ratio_goblin_to_orc() {
    // At depth 1 the table weighs Goblin 10 and Orc 2: over many draws the
    // counts should sit near that 10:2 ratio.
    let mut rng = rng_seeded(2024);
    let table = room_table(1);
    let mut goblins = 0u32;
    let mut orcs = 0u32;
    for _ in 0..200000 {
        match table.roll(&mut rng) {
            Some(Archetype::Goblin) => goblins += 1,
            Some(Archetype::Orc) => orcs += 1,
            _ => {}
        }
    }
    assert!(orcs > 0);
    let ratio = goblins as f64 / orcs as f64;
    assert!(ratio > 4.0 && ratio < 6.0, "ratio {}", ratio);
}

#[test]
fn save_load_round_trip_values() {
    let mut world = World::new();
    let map = GameMap::new(3);
    let p = rogue_core::spawner::player(&mut world, 12, 9);
    let o = rogue_core::spawner::orc(&mut world, 14, 9);
    let d = rogue_core::spawner::dagger(&mut world, 13, 9);
    // The player carries the dagger, equipped.
    world.in_backpack[d] = None;
    world.equipped[d] = Some(Equipped { owner: p, slot: EquipmentSlot::Melee });
    let sd = save_game(&world, &map);
    let (w2, m2, player_found) = load_game(&sd);
    assert_eq!(w2.alive.len(), 3);
    assert_eq!(w2.combat_stats[p], world.combat_stats[p]);
    assert_eq!(w2.combat_stats[o], world.combat_stats[o]);
    assert_eq!(w2.position[o], world.position[o]);
    assert_eq!(w2.name[o], world.name[o]);
    assert_eq!(w2.equipped[d].unwrap().owner, p);
    assert_eq!(m2.depth, 3);
    let (pe, ppos) = player_found.unwrap();
    assert_eq!(pe, p);
    assert_eq!(ppos, Position { x: 12, y: 9 });
}

#[test]
fn state_machine_turn_order() {
    // The fixed order: pre-run hands to input, the player's turn to the
    // monsters', the monsters' back to input; death ends the game; a map
    // scroll interposes the row-by-row reveal.
    assert_eq!(advance_state(RunState::PreRun, false, false), RunState::AwaitingInput);
    assert_eq!(advance_state(RunState::PlayerTurn, false, false), RunState::MonsterTurn);
    assert_eq!(advance_state(RunState::MonsterTurn, false, false), RunState::AwaitingInput);
    assert_eq!(advance_state(RunState::PlayerTurn, true, false), RunState::MapReveal { row: 0 });
    assert_eq!(advance_state(RunState::MapReveal { row: 0 }, false, false), RunState::MapReveal {
        row: 1,
    });
    assert_eq!(advance_state(RunState::MapReveal { row: 42 }, false, false), RunState::MonsterTurn);
    assert_eq!(advance_state(RunState::PlayerTurn, false, true), RunState::GameOver);
    assert_eq!(advance_state(RunState::NextLevel, false, false), RunState::PreRun);
}

#[test]
fn drinking_quenches_the_user_itself() {
    // A monster drinking its own vial quenches its own thirst, not the
    // player's.
    let mut world = World::new();
    let map = GameMap::new(1);
    let p = rogue_core::spawner::player(&mut world, 5, 5);
    let o = rogue_core::spawner::orc(&mut world, 10, 10);
    let vial = rogue_core::spawner::blood(&mut world, 10, 10);
    world.thirst_clock[o] = Some(rogue_core::components::ThirstClock {
        state: ThirstState::Parched,
        duration: 3,
    });
    world.wants_to_use[o] = Some(WantsToUseItem { item: vial, target: None });
    let mut log = rogue_core::gamelog::GameLog::new();
    let _mapped = use_item(&mut world, &map, &mut log, p, o);
    let clock = world.thirst_clock[o].unwrap();
    assert_eq!(clock.state, ThirstState::Quenched);
    assert_eq!(clock.duration, 20);
    // The player's clock is untouched.
    assert_eq!(world.thirst_clock[p].unwrap().state, ThirstState::Quenched);
    assert_eq!(world.thirst_clock[p].unwrap().duration, 20);
    // The vial was consumed: queued for deletion.
    assert!(world.pending_delete.contains(&vial));
}

#[test]
fn simple_builder_rooms_do_not_overlap() {
    let mut rng = rng_seeded(7);
    let mut builder = SimpleMapBuilder::new(1);
    assert!(builder.build_map(&mut rng).is_ok());
    assert!(builder.rooms.len() >= 1);
    for i in 0..builder.rooms.len() {
        for j in 0..builder.rooms.len() {
            if i != j {
                assert!(!builder.rooms[i].intersect(&builder.rooms[j]));
            }
        }
    }
    // The start sits at the first room's centre.
    let start = builder.get_starting_position();
    let c = builder.rooms[0].center();
    assert_eq!((start.x, start.y), c);
}

#[test]
fn down_stairs_detected_underfoot() {
    let mut m = GameMap::new(1);
    let mut log = rogue_core::gamelog::GameLog::new();
    let idx = m.xy_idx(10, 10);
    m.tiles[idx] = TileType::DownStairs;
    assert!(try_next_level(&m, &mut log, Position { x: 10, y: 10 }));
    assert!(!try_next_level(&m, &mut log, Position { x: 11, y: 10 }));
    assert_eq!(log.entries.len(), 1);
}

#[test]
fn descending_rebuilds_and_keeps_the_player() {
    let mut rng = rng_seeded(31);
    let mut world = World::new();
    let mut log = rogue_core::gamelog::GameLog::new();
    let p = rogue_core::spawner::player(&mut world, 10, 10);
    let o = rogue_core::spawner::orc(&mut world, 12, 10);
    let carried = rogue_core::spawner::dagger(&mut world, 11, 10);
    world.position[carried] = None;
    world.in_backpack[carried] =
        Some(rogue_core::components::InBackpack { owner: p });
    let r = descend_to_next_level(&mut world, &mut log, &mut rng, p, 1);
    let (map, start) = r.expect("the cellular builder fails only on degenerate dice");
    // The loose orc is gone; the player and its pack survive, at the start.
    assert!(!world.alive[o]);
    assert!(world.alive[p]);
    assert!(world.alive[carried]);
    assert_eq!(world.position[p], Some(start));
    let mut stairs = 0;
    for t in map.tiles.iter() {
        if *t == TileType::DownStairs {
            stairs += 1;
        }
    }
    assert_eq!(stairs, 1);
}

#[test]
fn region_spawns_land_on_distinct_region_tiles() {
    let mut rng = rng_seeded(64);
    let mut world = World::new();
    let region: Vec<usize> = vec![10 * 80 + 10, 10 * 80 + 11, 10 * 80 + 12, 11 * 80 + 10];
    rogue_core::spawner::spawn_region(&mut world, &mut rng, &region, 5);
    // Depth five with a non-empty region spawns at least one entity.
    assert!(world.alive.len() >= 1);
    for i in 0..world.alive.len() {
        let pi = world.position[i].unwrap();
        assert!(region.contains(&((pi.y as usize) * 80 + pi.x as usize)));
        for j in 0..world.alive.len() {
            if i != j {
                assert_ne!(world.position[i], world.position[j]);
            }
        }
    }
}

//! The player's world mutations: moving (and bumping into something
//! fightable), picking an item off the floor, resting a turn, and
//! checking for the way down. Key decoding stays in the shell; it calls
//! these with plain values.

use vstd::prelude::*;
use crate::components::{
    Entity, Position, DoesMelee, WantsToPickupItem, CombatStats, ThirstState,
};
use crate::world::World;
use crate::map::{GameMap, TileType, spec_idx};
use crate::gamelog::{GameLog, LogEvent, log_extended};
use crate::runstate::RunState;

verus! {

/// Tries to move the player one step. A fightable occupant of the target
/// tile is attacked instead (a melee intent is queued); an unblocked
/// target tile is entered, marking the player moved and its viewshed
/// dirty. Returns the new position when the player moved.
pub fn try_move_player(
    world: &mut World,
    m: &GameMap,
    player: Entity,
    delta_x: i32,
    delta_y: i32,
) -> (moved: Option<Position>)
    requires
        old(world).wf(),
        m.wf(),
        player < old(world).n(),
        -1 <= delta_x <= 1,
        -1 <= delta_y <= 1,
        forall|t: int, k: int|
            0 <= t < 3440 && 0 <= k < m.tile_content@[t].len()
                ==> (#[trigger] m.tile_content@[t]@[k]) < old(world).n(),
    ensures
        final(world).wf(),
        final(world).n() == old(world).n(),
        *final(world) == (World {
            position: final(world).position,
            viewshed: final(world).viewshed,
            does_melee: final(world).does_melee,
            entity_moved: final(world).entity_moved,
            ..*old(world)
        }),
        old(world).position@[player as int] is None ==> *final(world) == *old(world) && moved is None,
        moved matches Some(p) ==> {
            &&& old(world).position@[player as int] is Some
            &&& p.x == old(world).position@[player as int]->0.x + delta_x
            &&& p.y == old(world).position@[player as int]->0.y + delta_y
            &&& 1 <= p.x <= 78
            &&& 1 <= p.y <= 41
            &&& !m.blocked@[spec_idx(p.x as int, p.y as int)]
            &&& final(world).position@[player as int] == Some(p)
            &&& final(world).entity_moved@[player as int]
            &&& (old(world).viewshed@[player as int] is Some ==> final(world).viewshed@[player as int] is Some && final(world).viewshed@[player as int]->0.dirty)
        },
        // An in-interior, unblocked destination is always entered.
        ({
            let px = old(world).position@[player as int]->0.x + delta_x;
            let py = old(world).position@[player as int]->0.y + delta_y;
            old(world).position@[player as int] is Some && 1 <= px <= 78 && 1 <= py <= 41
                && !m.blocked@[spec_idx(px as int, py as int)] ==> moved == Some(
                Position { x: px as i32, y: py as i32 },
            )
        }),
        // A fightable occupant of an in-interior destination is always
        // attacked: the melee intent is queued against such an occupant.
        ({
            let px = old(world).position@[player as int]->0.x + delta_x;
            let py = old(world).position@[player as int]->0.y + delta_y;
            old(world).position@[player as int] is Some && 1 <= px <= 78 && 1 <= py <= 41 && (
            exists|k: int|
                0 <= k < m.tile_content@[spec_idx(px as int, py as int)].len() && old(world).combat_stats@[(#[trigger] m.tile_content@[spec_idx(px as int, py as int)]@[
                    k
                ]) as int] is Some) ==> final(world).does_melee@[player as int] is Some && old(world).combat_stats@[final(world).does_melee@[player as int]->0.target as int] is Some
                && m.tile_content@[spec_idx(px as int, py as int)]@.contains(
                final(world).does_melee@[player as int]->0.target,
            )
        }),
        moved is None ==> final(world).position@[player as int] == old(world).position@[player as int],
        forall|e: int|
            0 <= e < old(world).n() && e != player ==> (#[trigger] final(world).position@[e]) == old(world).position@[e] && final(world).viewshed@[e] == old(world).viewshed@[e] && final(world).does_melee@[e] == old(world).does_melee@[e] && final(world).entity_moved@[e] == old(world).entity_moved@[e],
        final(world).does_melee@[player as int] is Some ==> (final(world).does_melee@[player as int] == old(world).does_melee@[player as int] || old(world).combat_stats@[final(world).does_melee@[player as int]->0.target as int] is Some),
{
    let pos = match world.position[player] {
        Some(p) => p,
        None => {
            return None;
        },
    };
    let nx = pos.x + delta_x;
    let ny = pos.y + delta_y;
    if nx < 1 || nx > 78 || ny < 1 || ny > 41 {
        return None;
    }
    let dest = m.xy_idx(nx, ny);
    // Bump attack: any fightable occupant of the destination.
    let olen = m.tile_content[dest].len();
    let mut k: usize = 0;
    while k < olen
        invariant
            world.wf(),
            m.wf(),
            player < world.n(),
            dest < 3440,
            k <= olen,
            olen == m.tile_content@[dest as int].len(),
            forall|t: int, k2: int|
                0 <= t < 3440 && 0 <= k2 < m.tile_content@[t].len()
                    ==> (#[trigger] m.tile_content@[t]@[k2]) < world.n(),
            world.n() == old(world).n(),
            *world == (World { does_melee: world.does_melee, ..*old(world) }),
            forall|e: int|
                0 <= e < world.n() && e != player ==> (#[trigger] world.does_melee@[e]) == old(world).does_melee@[e],
            (exists|k2: int|
                0 <= k2 < k && old(world).combat_stats@[(#[trigger] m.tile_content@[
                    dest as int
                ]@[k2]) as int] is Some) ==> world.does_melee@[player as int] is Some && old(world).combat_stats@[world.does_melee@[player as int]->0.target as int] is Some
                && m.tile_content@[dest as int]@.contains(
                world.does_melee@[player as int]->0.target,
            ),
            !(exists|k2: int|
                0 <= k2 < k && old(world).combat_stats@[(#[trigger] m.tile_content@[
                    dest as int
                ]@[k2]) as int] is Some) ==> world.does_melee@[player as int] == old(world).does_melee@[player as int],
            world.does_melee@[player as int] is Some ==> (world.does_melee@[player as int] == old(world).does_melee@[player as int] || old(world).combat_stats@[world.does_melee@[
                player as int
            ]->0.target as int] is Some),
        decreases olen - k,
    {
        let occ = m.tile_content[dest][k];
        match world.combat_stats[occ] {
            Some(_) => {
                world.does_melee.set(player, Some(DoesMelee { target: occ }));
                proof {
                    assert(m.tile_content@[dest as int]@[k as int] == occ);
                    assert(m.tile_content@[dest as int]@.contains(occ));
                }
            },
            None => {},
        }
        k = k + 1;
    }
    proof {
        if exists|k2: int|
            0 <= k2 < olen && old(world).combat_stats@[(#[trigger] m.tile_content@[dest as int]@[
                k2
            ]) as int] is Some {
        }
    }
    if !m.blocked[dest] {
        world.position.set(player, Some(Position { x: nx, y: ny }));
        world.entity_moved.set(player, true);
        match &world.viewshed[player] {
            Some(v) => {
                let range = v.range;
                let dirty_view = crate::components::Viewshed {
                    visible_tiles: Vec::new(),
                    range,
                    dirty: true,
                };
                world.viewshed.set(player, Some(dirty_view));
            },
            None => {},
        }
        Some(Position { x: nx, y: ny })
    } else {
        None
    }
}

/// Some item lies at position `p`.
pub open spec fn item_at(w: World, p: Position) -> bool {
    exists|e: int|
        0 <= e < w.n() && #[trigger] w.item@[e] && w.alive@[e] && w.position@[e] == Some(p)
}

/// Picks up from the floor: queues a pickup intent for an item at the
/// player's feet, or reports that nothing lies there.
pub fn get_item(world: &mut World, log: &mut GameLog, player: Entity, player_pos: Position)
    requires
        old(world).wf(),
        player < old(world).n(),
    ensures
        final(world).wf(),
        final(world).n() == old(world).n(),
        *final(world) == (World { wants_to_pickup: final(world).wants_to_pickup, ..*old(world) }),
        item_at(*old(world), player_pos) ==> final(world).wants_to_pickup@[player as int] is Some
            && final(world).wants_to_pickup@[player as int]->0.collected_by == player && old(world).item@[final(world).wants_to_pickup@[player as int]->0.item as int],
        !item_at(*old(world), player_pos) ==> *final(world) == *old(world) && final(log).entries@ == old(log).entries@.push(LogEvent::NothingToPickUp),
        log_extended(*old(log), *final(log)),
{
    let n = world.alive.len();
    let mut target_item: Option<Entity> = None;
    let mut e: usize = 0;
    while e < n
        invariant
            world.wf(),
            n == world.n(),
            e <= n,
            match target_item {
                Some(it) => it < n && world.item@[it as int] && world.alive@[it as int]
                    && world.position@[it as int] == Some(player_pos),
                None => forall|e2: int|
                    0 <= e2 < e ==> !((#[trigger] world.item@[e2]) && world.alive@[e2]
                        && world.position@[e2] == Some(player_pos)),
            },
        decreases n - e,
    {
        if world.item[e] && world.alive[e] {
            match world.position[e] {
                Some(p) => {
                    if p.x == player_pos.x && p.y == player_pos.y {
                        target_item = Some(e);
                    }
                },
                None => {},
            }
        }
        e = e + 1;
    }
    match target_item {
        None => {
            log.push(LogEvent::NothingToPickUp);
        },
        Some(item) => {
            world.wants_to_pickup.set(
                player,
                Some(WantsToPickupItem { collected_by: player, item }),
            );
        },
    }
}

/// A monster stands on a tile the player currently sees.
pub open spec fn monster_in_sight(w: World, m: GameMap, player: int) -> bool {
    exists|k: int, o: int|
        {
            &&& w.viewshed@[player] is Some
            &&& 0 <= k < w.viewshed@[player]->0.visible_tiles.len()
            &&& (#[trigger] w.viewshed@[player]->0.visible_tiles@[k]) < 3440
            &&& 0 <= o < m.tile_content@[w.viewshed@[player]->0.visible_tiles@[k] as int].len()
            &&& w.monster@[(#[trigger] m.tile_content@[w.viewshed@[player]->0.visible_tiles@[
                k
            ] as int]@[o]) as int]
        }
}

/// Scans the player's visible tiles for a monster.
fn monster_visible(world: &World, m: &GameMap, player: Entity) -> (r: bool)
    requires
        world.wf(),
        m.wf(),
        player < world.n(),
        forall|t: int, k: int|
            0 <= t < 3440 && 0 <= k < m.tile_content@[t].len()
                ==> (#[trigger] m.tile_content@[t]@[k]) < world.n(),
    ensures
        r == monster_in_sight(*world, *m, player as int),
{
    let vlen = match &world.viewshed[player] {
        Some(v) => v.visible_tiles.len(),
        None => 0,
    };
    let mut found = false;
    let mut k: usize = 0;
    while k < vlen
        invariant
            world.wf(),
            m.wf(),
            player < world.n(),
            vlen > 0 ==> world.viewshed@[player as int] is Some,
            vlen > 0 ==> vlen == world.viewshed@[player as int]->0.visible_tiles.len(),
            k <= vlen,
            forall|t: int, k2: int|
                0 <= t < 3440 && 0 <= k2 < m.tile_content@[t].len()
                    ==> (#[trigger] m.tile_content@[t]@[k2]) < world.n(),
            found ==> monster_in_sight(*world, *m, player as int),
            !found ==> forall|k2: int, o: int|
                0 <= k2 < k && (#[trigger] world.viewshed@[player as int]->0.visible_tiles@[k2])
                    < 3440 && 0 <= o < m.tile_content@[world.viewshed@[
                    player as int
                ]->0.visible_tiles@[k2] as int].len() ==> !world.monster@[(
                #[trigger] m.tile_content@[world.viewshed@[player as int]->0.visible_tiles@[
                    k2
                ] as int]@[o]) as int],
        decreases vlen - k,
    {
        let t = match &world.viewshed[player] {
            Some(v) => v.visible_tiles[k],
            None => 0,
        };
        if t < 3440 {
            let olen = m.tile_content[t].len();
            let mut o: usize = 0;
            while o < olen
                invariant
                    world.wf(),
                    m.wf(),
                    player < world.n(),
                    world.viewshed@[player as int] is Some,
                    k < world.viewshed@[player as int]->0.visible_tiles.len(),
                    t == world.viewshed@[player as int]->0.visible_tiles@[k as int],
                    t < 3440,
                    o <= olen,
                    olen == m.tile_content@[t as int].len(),
                    forall|t2: int, k2: int|
                        0 <= t2 < 3440 && 0 <= k2 < m.tile_content@[t2].len()
                            ==> (#[trigger] m.tile_content@[t2]@[k2]) < world.n(),
                    found ==> monster_in_sight(*world, *m, player as int),
                    !found ==> forall|k2: int, o2: int|
                        0 <= k2 < k && (#[trigger] world.viewshed@[player as int]->0.visible_tiles@[
                            k2
                        ]) < 3440 && 0 <= o2 < m.tile_content@[world.viewshed@[
                            player as int
                        ]->0.visible_tiles@[k2] as int].len() ==> !world.monster@[(
                        #[trigger] m.tile_content@[world.viewshed@[player as int]->0.visible_tiles@[
                            k2
                        ] as int]@[o2]) as int],
                    !found ==> forall|o2: int|
                        0 <= o2 < o ==> !world.monster@[(#[trigger] m.tile_content@[t as int]@[
                            o2
                        ]) as int],
                decreases olen - o,
            {
                let occ = m.tile_content[t][o];
                if world.monster[occ] {
                    found = true;
                }
                o = o + 1;
            }
        }
        proof {
            if !found {
                assert forall|k2: int, o: int|
                    0 <= k2 < k + 1 && (#[trigger] world.viewshed@[player as int]->0.visible_tiles@[
                        k2
                    ]) < 3440 && 0 <= o < m.tile_content@[world.viewshed@[
                        player as int
                    ]->0.visible_tiles@[k2] as int].len() implies !world.monster@[(
                #[trigger] m.tile_content@[world.viewshed@[player as int]->0.visible_tiles@[
                    k2
                ] as int]@[o]) as int] by {
                    if k2 == k as int {
                        assert(world.viewshed@[player as int]->0.visible_tiles@[k2] == t);
                    }
                }
            }
        }
        k = k + 1;
    }
    proof {
        if !found {
            if monster_in_sight(*world, *m, player as int) {
                let (k2, o) = choose|k2: int, o: int|
                    {
                        &&& world.viewshed@[player as int] is Some
                        &&& 0 <= k2 < world.viewshed@[player as int]->0.visible_tiles.len()
                        &&& (#[trigger] world.viewshed@[player as int]->0.visible_tiles@[k2]) < 3440
                        &&& 0 <= o < m.tile_content@[world.viewshed@[player as int]->0.visible_tiles@[
                            k2
                        ] as int].len()
                        &&& world.monster@[(#[trigger] m.tile_content@[world.viewshed@[
                            player as int
                        ]->0.visible_tiles@[k2] as int]@[o]) as int]
                    };
                assert(false);
            }
        }
    }
    found
}

/// Rests a turn: with no monster in sight and a thirst state short of
/// thirsty, the player heals one hit point (clamped to the maximum).
/// Always ends in the player's turn.
pub fn skip_turn(world: &mut World, m: &GameMap, log: &mut GameLog, player: Entity) -> (r: RunState)
    requires
        old(world).wf(),
        m.wf(),
        player < old(world).n(),
        forall|t: int, k: int|
            0 <= t < 3440 && 0 <= k < m.tile_content@[t].len()
                ==> (#[trigger] m.tile_content@[t]@[k]) < old(world).n(),
    ensures
        final(world).wf(),
        final(world).n() == old(world).n(),
        *final(world) == (World { combat_stats: final(world).combat_stats, ..*old(world) }),
        r == RunState::PlayerTurn,
        forall|e: int|
            0 <= e < old(world).n() && e != player ==> (#[trigger] final(world).combat_stats@[e])
                == old(world).combat_stats@[e],
        ({
            let can_heal = !monster_in_sight(*old(world), *m, player as int) && !(old(world).thirst_clock@[player as int] is Some && (old(world).thirst_clock@[player as int]->0.state == ThirstState::Thirsty || old(world).thirst_clock@[player as int]->0.state == ThirstState::Parched));
            &&& (can_heal && old(world).combat_stats@[player as int] is Some ==> final(world).combat_stats@[player as int] == Some(
                CombatStats {
                    hp: (
                    if old(world).combat_stats@[player as int]->0.hp + 1 <= old(world).combat_stats@[player as int]->0.max_hp {
                        old(world).combat_stats@[player as int]->0.hp + 1
                    } else {
                        old(world).combat_stats@[player as int]->0.max_hp as int
                    }) as i32,
                    ..old(world).combat_stats@[player as int]->0
                },
            ))
            &&& (!can_heal ==> final(world).combat_stats@[player as int] == old(world).combat_stats@[player as int])
        }),
        log_extended(*old(log), *final(log)),
{
    let found_monster = monster_visible(world, m, player);
    let mut can_heal = !found_monster;
    let mut thirst_blocks = false;
    match world.thirst_clock[player] {
        Some(tc) => {
            if tc.state == ThirstState::Thirsty || tc.state == ThirstState::Parched {
                thirst_blocks = true;
                can_heal = false;
            }
        },
        None => {},
    }
    if can_heal {
        match world.combat_stats[player] {
            Some(s) => {
                let new_hp = if s.hp + 1 <= s.max_hp {
                    s.hp + 1
                } else {
                    s.max_hp
                };
                world.combat_stats.set(player, Some(CombatStats { hp: new_hp, ..s }));
                if new_hp >= s.max_hp {
                    log.push(LogEvent::Waited);
                } else {
                    log.push(LogEvent::Rested);
                }
            },
            None => {},
        }
    } else if thirst_blocks && !found_monster {
        log.push(LogEvent::ThirstPreventsRest);
    } else {
        log.push(LogEvent::EnemyPreventsRest);
    }
    RunState::PlayerTurn
}

/// Whether the way down is underfoot; logs the refusal otherwise.
pub fn try_next_level(m: &GameMap, log: &mut GameLog, player_pos: Position) -> (r: bool)
    requires
        m.wf(),
        GameMap::spec_in_bounds(player_pos.x as int, player_pos.y as int),
    ensures
        r == (m.tiles@[spec_idx(player_pos.x as int, player_pos.y as int)]
            == TileType::DownStairs),
        !r ==> final(log).entries@ == old(log).entries@.push(LogEvent::NoWayDown),
        r ==> *final(log) == *old(log),
{
    let idx = m.xy_idx(player_pos.x, player_pos.y);
    if m.tiles[idx] == TileType::DownStairs {
        true
    } else {
        log.push(LogEvent::NoWayDown);
        false
    }
}

/// An entity the player carries, wears or is: kept across a level change.
pub open spec fn carried_by_player(w: World, e: int, player: int) -> bool {
    ||| w.player@[e]
    ||| (w.in_backpack@[e] is Some && w.in_backpack@[e]->0.owner == player)
    ||| (w.equipped@[e] is Some && w.equipped@[e]->0.owner == player)
}

/// The entities a level change deletes: everything alive the player does
/// not take along.
pub fn entities_to_remove_on_level_change(world: &World, player: Entity) -> (r: Vec<Entity>)
    requires
        world.wf(),
        player < world.n(),
    ensures
        forall|k: int|
            0 <= k < r.len() ==> (#[trigger] r@[k]) < world.n() && world.alive@[r@[k] as int]
                && !carried_by_player(*world, r@[k] as int, player as int),
        forall|e: int|
            0 <= e < world.n() && #[trigger] world.alive@[e] && !carried_by_player(
                *world,
                e,
                player as int,
            ) ==> r@.contains(e as usize),
{
    let n = world.alive.len();
    let mut r: Vec<Entity> = Vec::new();
    let mut e: usize = 0;
    while e < n
        invariant
            world.wf(),
            n == world.n(),
            player < n,
            e <= n,
            forall|k: int|
                0 <= k < r.len() ==> (#[trigger] r@[k]) < e && world.alive@[r@[k] as int]
                    && !carried_by_player(*world, r@[k] as int, player as int),
            forall|e2: int|
                0 <= e2 < e && #[trigger] world.alive@[e2] && !carried_by_player(
                    *world,
                    e2,
                    player as int,
                ) ==> r@.contains(e2 as usize),
        decreases n - e,
    {
        let ghost r0 = r@;
        let mut keep = !world.alive[e];
        if world.player[e] {
            keep = true;
        }
        match world.in_backpack[e] {
            Some(b) => {
                if b.owner == player {
                    keep = true;
                }
            },
            None => {},
        }
        match world.equipped[e] {
            Some(q) => {
                if q.owner == player {
                    keep = true;
                }
            },
            None => {},
        }
        if !keep {
            r.push(e);
        }
        proof {
            assert(keep == !(world.alive@[e as int] && !carried_by_player(
                *world,
                e as int,
                player as int,
            )));
            assert forall|e2: int|
                0 <= e2 < e + 1 && #[trigger] world.alive@[e2] && !carried_by_player(
                    *world,
                    e2,
                    player as int,
                ) implies r@.contains(e2 as usize) by {
                if e2 < e {
                    assert(r0.contains(e2 as usize));
                    let k = choose|k: int| 0 <= k < r0.len() && r0[k] == e2 as usize;
                    assert(r@[k] == e2 as usize);
                } else {
                    assert(r@[r@.len() - 1] == e);
                }
            }
        }
        e = e + 1;
    }
    r
}

/// The descent heal: the player climbs down with at least half its
/// maximum hit points.
pub fn heal_on_descent(world: &mut World, player: Entity)
    requires
        old(world).wf(),
        player < old(world).n(),
    ensures
        final(world).wf(),
        final(world).n() == old(world).n(),
        *final(world) == (World { combat_stats: final(world).combat_stats, ..*old(world) }),
        forall|e: int|
            0 <= e < old(world).n() && e != player ==> (#[trigger] final(world).combat_stats@[e])
                == old(world).combat_stats@[e],
        old(world).combat_stats@[player as int] is Some ==> final(world).combat_stats@[player as int] == Some(
            CombatStats {
                hp: (
                if old(world).combat_stats@[player as int]->0.hp >= old(world).combat_stats@[player as int]->0.max_hp / 2 {
                    old(world).combat_stats@[player as int]->0.hp as int
                } else {
                    old(world).combat_stats@[player as int]->0.max_hp as int / 2
                }) as i32,
                ..old(world).combat_stats@[player as int]->0
            },
        ),
        old(world).combat_stats@[player as int] is None ==> *final(world) == *old(world),
{
    match world.combat_stats[player] {
        Some(s) => {
            let half = s.max_hp / 2;
            let new_hp = if s.hp >= half {
                s.hp
            } else {
                half
            };
            world.combat_stats.set(player, Some(CombatStats { hp: new_hp, ..s }));
        },
        None => {},
    }
}

} // verus!

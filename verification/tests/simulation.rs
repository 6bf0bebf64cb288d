use wow_vanilla_server::aoi::aoi_stats;
use wow_vanilla_server::cell::{PacerStates, PlayerRegistry};
use wow_vanilla_server::character::Character;
use wow_vanilla_server::character_screen::{CharacterScreenClient, CharacterScreenProgress};
use wow_vanilla_server::client::Client;
use wow_vanilla_server::command::{CommandQueue, UnitEffect, WorldCommand};
use wow_vanilla_server::config::{CombatConfig, ConfigSlot, CreatureConfig, RespawnConfig, ServerConfig, TickConfig};
use wow_vanilla_server::creature::{Creature, CreatureBehavior, CreatureLifeState, Position};
use wow_vanilla_server::creature_ai::ChaseStep;
use wow_vanilla_server::database::WorldDatabase;
use wow_vanilla_server::departures::MSG_MOVE_HEARTBEAT;
use wow_vanilla_server::entities::{ApplyEffectResult, Entity};
use wow_vanilla_server::gm_command::{award_item, gm_command, report_regions, GmOutcome, Surroundings};
use wow_vanilla_server::gm_parser::GmCommand;
use wow_vanilla_server::item::Item;
use wow_vanilla_server::map_state::MapState;
use wow_vanilla_server::movement::{Place, FORWARD};
use wow_vanilla_server::notice::{Notice, Outgoing};
use wow_vanilla_server::phases::{MapTick, Phase};
use wow_vanilla_server::player::{
    get_client_login_messages, get_update_object_player_self, player_create_object, prepare_teleport, TeleportKind,
};
use wow_vanilla_server::rank::{rank, top};
use wow_vanilla_server::schedule::WakeSchedule;
use wow_vanilla_server::swing::{swing_is_due, SwingKind};
use wow_vanilla_server::walking::{plan_creature, walk_creature, WalkPlan, WalkStep};
use wow_vanilla_server::world::{representative, total_up, PerCellTickResult, Promotion, Turn, World};

const MS: u64 = 1_000_000;
const SECOND: u64 = 1_000_000_000;
const EASTERN_KINGDOMS: u32 = 0;
const KALIMDOR: u32 = 1;

fn place(x: f32, y: f32) -> Place {
    Place {
        x: x.to_bits(),
        y: y.to_bits(),
        z: 0,
        cell: ((x / 33.3333).floor() as i32, (y / 33.3333).floor() as i32),
        grid: ((x / 533.3333).floor() as i32, (y / 533.3333).floor() as i32),
    }
}

fn at(x: f32, y: f32) -> Position {
    Position { map: EASTERN_KINGDOMS, place: place(x, y), orientation: 0 }
}

fn dist_sq(a: &Place, b: &Place) -> u32 {
    let dx = f32::from_bits(a.x) - f32::from_bits(b.x);
    let dy = f32::from_bits(a.y) - f32::from_bits(b.y);
    (dx * dx + dy * dy).to_bits()
}

fn sq(r: f32) -> u32 {
    (r * r).to_bits()
}

fn fresh_db() -> WorldDatabase {
    WorldDatabase::new(at(0.0, 0.0), &CombatConfig::default())
}

fn test_character_at(db: &mut WorldDatabase, name: &str, x: f32, y: f32) -> Character {
    // A troll warrior.
    let mut c = Character::test_character(db, name.to_string(), 8, 1, 0, at(x, y), &CombatConfig::default()).unwrap();
    c.account = "TEST".to_string();
    c
}

fn client(db: &mut WorldDatabase, name: &str, x: f32, y: f32) -> Client {
    Client::from_parts(test_character_at(db, name, x, y), "TEST".to_string())
}

fn test_creature_at(guid: u64, x: f32, y: f32) -> Creature {
    Creature::new(format!("creature_{guid}"), guid, at(x, y), &RespawnConfig::default(), 0)
}

fn test_wander_creature_at(guid: u64, x: f32, y: f32) -> Creature {
    let mut c = test_creature_at(guid, x, y);
    c.behavior = CreatureBehavior::RandomWander {
        anchor: place(x, y),
        radius: 20.0f32.to_bits(),
        target: None,
        next_decision_at: 0,
    };
    c
}

fn map_with(creatures: Vec<Creature>) -> (MapState, Vec<usize>) {
    MapState::build_map_state_with_creatures(EASTERN_KINGDOMS, creatures, &TickConfig::default())
}

fn world_with(creatures: Vec<Creature>) -> World {
    World::with_creatures_and_db(creatures, fresh_db(), &TickConfig::default())
}

#[test]
fn ensure_map_exists_creates_new_map() {
    let mut world = world_with(vec![test_creature_at(1, 100.0, 100.0)]);
    assert_eq!(world.maps.len(), 1);
    world.ensure_map_exists(KALIMDOR, &TickConfig::default());
    assert_eq!(world.maps.len(), 2);
    assert_eq!(world.maps.get(KALIMDOR as u64).map(|m| m.map), Some(KALIMDOR));
}

#[test]
fn ensure_map_exists_is_idempotent() {
    let mut world = world_with(vec![]);
    world.ensure_map_exists(EASTERN_KINGDOMS, &TickConfig::default());
    world.ensure_map_exists(EASTERN_KINGDOMS, &TickConfig::default());
    assert_eq!(world.maps.len(), 1);
}

#[test]
fn continent_teleport_rehomes_client_to_destination_map() {
    let tick = TickConfig::default();
    let mut world = world_with(vec![]);
    let traveler = client(&mut world.db, "Traveler", 100.0, 100.0);
    let guid = traveler.character.guid;
    let key = world.admit_client_at_position(traveler, &tick);
    assert_eq!(world.maps.get(0).map(|m| m.clients.len()), Some(1));
    assert!(world.maps.get(KALIMDOR as u64).is_none());
    let ek = world.maps.get_mut(0).unwrap();
    let mut c = ek.take_active_client(key);
    let to = Position { map: KALIMDOR, place: place(-2000.0, 0.0), orientation: 0 };
    assert_eq!(prepare_teleport(to, &mut c), TeleportKind::Far);
    ek.reinsert_active_client(c);
    let changers = ek.take_map_changers(&mut world.registry);
    assert_eq!(changers.len(), 1);
    world.rehome(changers, &tick);
    assert_eq!(world.maps.get(0).map(|m| m.clients.len()), Some(0), "client should have left the EK MapState");
    assert_eq!(
        world.maps.get(KALIMDOR as u64).map(|m| m.clients.len()),
        Some(1),
        "client should be re-homed into the Kalimdor MapState"
    );
    assert_eq!(world.registry.lookup_player_position(guid).map(|p| p.map), Some(KALIMDOR));
}

#[test]
fn players_see_nearby_via_client_grid_not_distant() {
    let mut db = fresh_db();
    let mut registry = PlayerRegistry::new();
    let (mut map, _) = map_with(vec![]);
    let mut keys = Vec::new();
    let mut guids = Vec::new();
    for (name, x, y) in [("Alice", 100.0, 100.0), ("Bob", 110.0, 100.0), ("Carol", 100.0, 5000.0)] {
        let c = client(&mut db, name, x, y);
        guids.push(c.character.guid);
        keys.push(map.insert_client(c, &mut registry));
    }
    let snapshot = map.build_local_aoi_snapshot();
    let sighted: Vec<Vec<(u64, u32)>> = keys
        .iter()
        .map(|k| {
            let me = &map.clients[*k].character;
            snapshot
                .candidates(me.guid, me.map, me.info.position.cell, 6)
                .iter()
                .map(|v| (v.guid, dist_sq(&v.position, &me.info.position)))
                .collect()
        })
        .collect();
    let changes = map.tick_aoi_transitions(&sighted, sq(200.0), SECOND, 3 * SECOND);
    assert!(map.clients[keys[0]].sees(guids[1]), "Alice should see nearby Bob");
    assert!(!map.clients[keys[0]].sees(guids[2]), "Alice should NOT see distant Carol");
    assert_eq!(aoi_stats(&changes).entered, 2);
    assert!(matches!(map.announce(guids[1]), Some(Notice::ShowPlayer { guid }) if guid == guids[1]));
}

#[test]
fn spatial_index_membership_matches_slab_after_ticks() {
    let mut db = fresh_db();
    let mut registry = PlayerRegistry::new();
    let (mut ek, _) = map_with(vec![
        test_creature_at(1, 120.0, 100.0),
        test_creature_at(2, 5000.0, 5000.0),
        test_creature_at(3, 130.0, 110.0),
    ]);
    let mut keys = Vec::new();
    for i in 0..5 {
        let c = client(&mut db, &format!("P{i}"), 100.0 + i as f32 * 5.0, 100.0);
        keys.push(ek.insert_client(c, &mut registry));
    }
    for i in 1..4 {
        assert!(tick_map(&mut ek, &mut registry, &mut db, i * 50 * MS));
    }
    assert_eq!(ek.clients.len(), keys.len());
    assert_eq!(ek.index.tracked_client_count(), ek.clients.len());
    for (k, _) in ek.clients.iter() {
        assert!(ek.index.is_client_tracked(k), "client slab key {k} missing from index");
    }
    assert_eq!(ek.index.tracked_creature_count(), ek.creatures.len());
    for (k, _) in ek.creatures.iter() {
        assert!(ek.index.is_creature_tracked(k), "creature slab key {k} missing from index");
    }
}

/// A tick of a map, with all its phases. Nobody sends anything, and nobody leaves.
fn tick_map(map: &mut MapState, registry: &mut PlayerRegistry, db: &mut WorldDatabase, now: u64) -> bool {
    if !map.is_due(now) {
        return false;
    }
    let start = map.begin_tick(now, &TickConfig::default());
    let seen = map.build_local_aoi_snapshot();
    let mut out: Vec<Outgoing> = Vec::new();
    let mut tick = MapTick::begin(map.map);
    loop {
        match tick.phase {
            Phase::Clients => {
                let keys: Vec<usize> = map.clients.iter().map(|(k, _)| k).collect();
                for k in keys {
                    let c = map.take_active_client(k);
                    assert_eq!(map.reinsert_active_client(c), k);
                }
            }
            Phase::View => {}
            Phase::Movement => {
                map.flush_movement_broadcasts(start.heartbeat_skip_ratio);
            }
            Phase::Sight => {
                let sighted: Vec<Vec<(u64, u32)>> = map
                    .clients
                    .iter()
                    .map(|(_, c)| {
                        let at = &c.character.info.position;
                        seen.candidates(c.character.guid, c.character.map, at.cell, 6)
                            .iter()
                            .map(|v| (v.guid, dist_sq(&v.position, at)))
                            .collect()
                    })
                    .collect();
                let changes = map.tick_aoi_transitions(&sighted, sq(200.0), now, 0);
                map.tell_of_sight(&changes, &mut out);
            }
            Phase::Commands => {
                map.apply_commands(vec![], &vec![], &vec![], now, &mut out);
            }
            Phase::Corpses => {
                let near = vec![vec![]; map.due_for_revival(now).len()];
                map.tick_corpses_and_respawns(now, RespawnConfig::default().corpse_despawn(), &near, &mut out);
            }
            Phase::Creatures => {
                map.refresh_active_grids();
                map.expire_roots(now, &mut out);
                let far: Vec<Vec<u32>> = map
                    .aggro_creature_keys
                    .iter()
                    .map(|k| {
                        let from = map.creatures[*k].info.position;
                        map.clients.iter().map(|(_, c)| dist_sq(&c.character.info.position, &from)).collect()
                    })
                    .collect();
                let targets = map.pick_targets(&far, sq(30.0), now);
                let steps: Vec<ChaseStep> = map
                    .group_chasers(&targets)
                    .iter()
                    .flat_map(|g| {
                        let to = map.clients[g.player].character.info.position;
                        g.creatures.iter().map(move |k| ChaseStep {
                            creature: *k,
                            to,
                            dist: 10.0f32.to_bits(),
                            duration_ms: 1000,
                        })
                    })
                    .collect();
                map.run_chasers(&steps, CreatureConfig::default().re_path_threshold, &mut out);
                walk_once(map, now);
            }
            Phase::Logouts => {
                map.drain_logouts(&vec![], registry);
            }
            Phase::Stale => {
                map.drop_stale(&vec![], registry, db);
            }
            Phase::Changers => {
                assert!(map.take_map_changers(registry).is_empty());
            }
            Phase::Done => break,
        }
        tick.finish(MS);
    }
    map.end_tick(tick.result.t_cell_total(), 0, 33 * MS, &mut PacerStates::new());
    true
}

fn walk_once(map: &mut MapState, now: u64) {
    let plans = map.plan_walking(now);
    let steps: Vec<Option<WalkStep>> = plans
        .iter()
        .map(|p| match p {
            WalkPlan::Go { target, .. } => {
                let to = target.unwrap_or(place(5020.0, 5000.0));
                Some(WalkStep {
                    target: to,
                    orientation: 0,
                    dist: 10.0f32.to_bits(),
                    step: 1.0f32.to_bits(),
                    advanced: place(5011.0, 5000.0),
                    roll: 3,
                })
            }
            _ => None,
        })
        .collect();
    let events = map.finish_walking(&plans, &steps, now, &CreatureConfig::default());
    let heights = vec![None; events.len()];
    let mut out: Vec<Outgoing> = Vec::new();
    map.tell_of_walks(&events, &heights, &mut out);
}

#[test]
fn idle_grid_creature_does_not_move() {
    let (mut map, keys) = map_with(vec![test_wander_creature_at(1, 5000.0, 5000.0)]);
    let mut db = fresh_db();
    let mut registry = PlayerRegistry::new();
    for i in 0..5 {
        assert!(tick_map(&mut map, &mut registry, &mut db, SECOND + i * 50 * MS));
    }
    let c = &map.creatures[keys[0]];
    assert_eq!(c.info.position.x, 5000.0f32.to_bits(), "creature in an unpopulated grid must not wander");
    assert_eq!(c.info.flags, 0);
}

#[test]
fn active_grid_creature_wanders() {
    let mut db = fresh_db();
    let mut registry = PlayerRegistry::new();
    let (mut map, keys) = map_with(vec![test_wander_creature_at(1, 5010.0, 5000.0)]);
    map.insert_client(client(&mut db, "Watcher", 5000.0, 5000.0), &mut registry);
    for i in 0..10 {
        assert!(tick_map(&mut map, &mut registry, &mut db, SECOND + i * 50 * MS));
    }
    assert!(map.grid_is_active(place(5010.0, 5000.0).grid));
    assert_ne!(
        map.creatures[keys[0]].info.position.x,
        5010.0f32.to_bits(),
        "creature in a player-occupied grid should wander"
    );
}

#[test]
fn a_creature_killed_in_its_sleep_does_not_walk() {
    let mut db = fresh_db();
    let mut registry = PlayerRegistry::new();
    let (mut map, keys) = map_with(vec![test_wander_creature_at(1, 5010.0, 5000.0)]);
    map.insert_client(client(&mut db, "Watcher", 5000.0, 5000.0), &mut registry);
    let key = keys[0];
    map.walking_creature_keys.clear();
    map.creature_wake_at.park(2 * SECOND, key);
    let mut out: Vec<Outgoing> = Vec::new();
    map.kill_creature(key, SECOND, &mut out);
    let lies = map.creatures[key].info;
    for i in 0..4 {
        assert!(tick_map(&mut map, &mut registry, &mut db, (2 + i) * SECOND));
    }
    assert!(map.walking_creature_keys.is_empty());
    assert!(map.creature_wake_at.take_due(u64::MAX).is_empty());
    let still = map.creatures[key].info;
    assert_eq!((still.position.x, still.position.y), (lies.position.x, lies.position.y));
    assert_eq!((still.orientation, still.flags), (lies.orientation, lies.flags));
}

#[test]
fn who_comes_back_early_is_listed_once() {
    let (mut map, keys) = map_with(vec![test_wander_creature_at(1, 5010.0, 5000.0)]);
    let key = keys[0];
    map.walking_creature_keys.clear();
    map.creature_wake_at.park(100 * SECOND, key);
    let mut out: Vec<Outgoing> = Vec::new();
    map.creatures[key].respawn_delay = 0;
    map.kill_creature(key, SECOND, &mut out);
    map.tick_corpses_and_respawns(2 * SECOND, SECOND, &vec![], &mut out);
    let near = vec![vec![]; map.due_for_revival(3 * SECOND).len()];
    assert_eq!(near.len(), 1);
    map.tick_corpses_and_respawns(3 * SECOND, SECOND, &near, &mut out);
    assert_eq!(map.walking_creature_keys, vec![key]);
    map.plan_walking(200 * SECOND);
    assert_eq!(map.walking_creature_keys, vec![key]);
}

#[test]
fn the_dead_are_not_planned_for() {
    let mut c = test_wander_creature_at(1, 5010.0, 5000.0);
    c.life_state = CreatureLifeState::Corpse { died_at: 0 };
    c.info.flags = FORWARD;
    assert!(matches!(plan_creature(&mut c, 9 * SECOND, true), WalkPlan::Still));
    assert!(matches!(plan_creature(&mut c, 9 * SECOND, false), WalkPlan::Still));
    assert_eq!(c.info.flags, FORWARD);
    assert_eq!(c.last_advanced_at, 0);
}

#[test]
fn only_wanderers_need_time_to_pause() {
    let mut c = test_creature_at(1, 0.0, 0.0);
    c.behavior = CreatureBehavior::Waypoint {
        waypoints: vec![place(1.0, 0.0), place(2.0, 0.0)],
        waittimes_ms: vec![700, 0],
        current: 0,
        idle_until: None,
    };
    let mut cfg = CreatureConfig::default();
    cfg.wander_idle_min_ms = 5;
    cfg.wander_idle_max_ms = 5;
    let s = WalkStep {
        target: place(1.0, 0.0),
        orientation: 0,
        dist: 0,
        step: 1.0f32.to_bits(),
        advanced: place(0.5, 0.0),
        roll: 3,
    };
    let mut events = Vec::new();
    assert_eq!(walk_creature(&mut c, 0, SECOND, true, place(1.0, 0.0), &s, &cfg, &mut events), Some(SECOND + 700 * MS));
    assert_eq!(events.len(), 2);
}

#[test]
fn empty_map_ticks_cheaply() {
    let tick = TickConfig::default();
    let mut world = world_with(vec![]);
    for m in 0..10 {
        world.ensure_map_exists(m, &tick);
    }
    assert_eq!(world.maps.len(), 10);
    let map = world.maps.get_mut(3).unwrap();
    assert!(map.is_due(0));
    let start = map.begin_tick(0, &tick);
    assert_eq!((start.elapsed, start.heartbeat_skip_ratio), (33 * MS, 1));
    assert!(!map.is_due(10 * MS));
    assert!(map.is_due(33 * MS));
    let mut pacers = PacerStates::new();
    assert!(map.end_tick(MS, 0, 20 * MS, &mut pacers).is_none());
    assert_eq!(pacers.get(3).map(|p| p.last_tick_ms), Some(1));
}

#[test]
fn a_killed_creature_decays_and_comes_back() {
    let (mut map, keys) = map_with(vec![test_creature_at(1, 0.0, 0.0)]);
    let k = keys[0];
    let mut out: Vec<Outgoing> = Vec::new();
    map.kill_creature(k, 100 * SECOND, &mut out);
    assert!(matches!(map.creatures[k].life_state, CreatureLifeState::Corpse { died_at } if died_at == 100 * SECOND));
    assert!(map.aggro_creature_keys.is_empty());
    assert!(matches!(out[0].what, Notice::UnitDied { guid: 1 }));
    let despawn = 20 * SECOND;
    map.tick_corpses_and_respawns(120 * SECOND, despawn, &vec![], &mut out);
    let due = match map.creatures[k].life_state {
        CreatureLifeState::Respawning { respawn_at } => respawn_at,
        _ => panic!("the corpse should be gone"),
    };
    assert!(!map.index.is_creature_tracked(k));
    assert!(map.due_for_revival(due - 1).is_empty());
    assert_eq!(map.due_for_revival(due), vec![k]);
    map.tick_corpses_and_respawns(due, despawn, &vec![vec![]], &mut out);
    assert!(matches!(map.creatures[k].life_state, CreatureLifeState::Alive));
    assert_eq!(map.creatures[k].health, map.creatures[k].max_health);
    assert_eq!(map.aggro_creature_keys, vec![k]);
}

#[test]
fn commands_spawn_and_kill() {
    let mut db = fresh_db();
    let mut registry = PlayerRegistry::new();
    let (mut map, _) = map_with(vec![]);
    let watcher = map.insert_client(client(&mut db, "Watcher", 0.0, 0.0), &mut registry);
    let mut out: Vec<Outgoing> = Vec::new();
    let keys = map.apply_commands(
        vec![WorldCommand::SpawnCreature(test_creature_at(77, 1.0, 1.0)), WorldCommand::KillCreature(77)],
        &vec![Some(5.0f32.to_bits()), None],
        &vec![vec![watcher], vec![]],
        0,
        &mut out,
    );
    assert_eq!(map.find_creature(77), Some(keys[0]));
    assert_eq!(map.creatures[keys[0]].info.position.z, 5.0f32.to_bits());
    assert!(map.clients[watcher].sees(77));
    assert!(matches!(map.creatures[keys[0]].life_state, CreatureLifeState::Corpse { .. }));
}

#[test]
fn effects_reach_whom_they_are_meant_for() {
    let mut db = fresh_db();
    let mut registry = PlayerRegistry::new();
    let (mut map, keys) = map_with(vec![test_creature_at(7, 0.0, 0.0)]);
    let c = client(&mut db, "Bob", 0.0, 0.0);
    let bob = c.character.guid;
    let key = map.insert_client(c, &mut registry);
    map.creatures[keys[0]].health = 10;
    assert_eq!(
        map.apply_effect(7, UnitEffect::Damage { amount: 50 }),
        ApplyEffectResult::AppliedLocally { creature_died: true }
    );
    assert_eq!(
        map.apply_effect(bob, UnitEffect::Root { until: 9 }),
        ApplyEffectResult::AppliedLocally { creature_died: false }
    );
    assert_eq!(map.clients[key].character.root_until, Some(9));
    assert_eq!(map.apply_effect(999, UnitEffect::Root { until: 9 }), ApplyEffectResult::Unknown);
    assert_eq!(map.find_guid(7), Some(Entity::Creature(keys[0])));
    assert_eq!(map.find_guid(bob), Some(Entity::Player(key)));
    assert_eq!(map.find_position(7).map(|p| p.map), Some(EASTERN_KINGDOMS));
}

#[test]
fn who_logs_out_is_gone_for_the_others() {
    let mut db = fresh_db();
    let mut registry = PlayerRegistry::new();
    let (mut map, _) = map_with(vec![]);
    let a = client(&mut db, "Alice", 0.0, 0.0);
    let b = client(&mut db, "Bob", 1.0, 0.0);
    let (ga, gb) = (a.character.guid, b.character.guid);
    let mut out: Vec<Outgoing> = Vec::new();
    let ka = map.welcome(a, &vec![], &vec![], &mut registry, &mut out);
    let kb = map.welcome(b, &vec![ka], &vec![], &mut registry, &mut out);
    assert!(map.clients[ka].sees(gb));
    assert!(map.clients[kb].sees(ga));
    let gone = map.drain_logouts(&vec![kb], &mut registry);
    assert_eq!(gone.clients.len(), 1);
    assert_eq!(gone.gone[0].guids, vec![gb]);
    assert!(!map.clients[ka].sees(gb));
    assert!(registry.lookup_player_position(gb).is_none());
    assert!(map.find_player(gb).is_none());
}

#[test]
fn whose_connection_breaks_is_written_back() {
    let mut world = world_with(vec![]);
    let tick = TickConfig::default();
    let mut c = client(&mut world.db, "Alice", 0.0, 0.0);
    let guid = c.character.guid;
    world.db.create_character_in_account("TEST", c.character.clone());
    c.character.level = 33;
    let key = world.admit_client_at_position(c, &tick);
    let map = world.maps.get_mut(0).unwrap();
    let gone = map.drop_stale(&vec![key], &mut world.registry, &mut world.db);
    assert_eq!(gone.clients.len(), 1);
    assert_eq!(world.db.get_character_by_guid(guid).map(|c| c.level), Some(33));
}

#[test]
fn everybody_is_written_back() {
    let mut world = world_with(vec![]);
    let mut c = client(&mut world.db, "Alice", 0.0, 0.0);
    let guid = c.character.guid;
    world.db.create_character_in_account("TEST", c.character.clone());
    c.character.level = 44;
    world.admit_client_at_position(c, &TickConfig::default());
    world.sync_clients_to_db();
    assert_eq!(world.db.get_character_by_guid(guid).map(|c| c.level), Some(44));
}

#[test]
fn those_who_wait_enter_in_order() {
    let mut world = world_with(vec![]);
    let dev = world.db.all_characters()[0].guid;
    let mut first = CharacterScreenClient::new("DEV".to_string());
    first.status = CharacterScreenProgress::WaitingToLogIn(dev);
    let mut lost = CharacterScreenClient::new("X".to_string());
    lost.status = CharacterScreenProgress::WaitingToLogIn(123_456);
    world.clients_on_character_screen.push(CharacterScreenClient::new("IDLE".to_string()));
    world.clients_on_character_screen.push(first);
    world.clients_on_character_screen.push(lost);
    let client = match world.next_promotion(0, 1) {
        Some(Turn { at: 1, what: Promotion::Ready(c) }) => c,
        _ => panic!("somebody waits"),
    };
    assert_eq!(client.character.guid, dev);
    assert!(world.next_promotion(1, 1).is_none());
    assert!(matches!(
        world.next_promotion(1, 0),
        Some(Turn { at: 1, what: Promotion::Dropped { guid: 123_456, .. } })
    ));
    assert!(world.next_promotion(2, 0).is_none());
    world.take_back(vec![client]);
    assert_eq!(world.clients_on_character_screen.len(), 2);
    assert_eq!(world.clients_on_character_screen[1].account_name(), "DEV");
    world.drop_finished(&vec![true, false]);
    assert_eq!(world.clients_on_character_screen.len(), 1);
}

/// A world where `D` waits with a character, `X` with none, and `I` does not wait.
fn world_with_queue(queue: &str) -> World {
    let mut world = world_with(vec![]);
    let dev = world.db.all_characters()[0].guid;
    for (i, kind) in queue.chars().enumerate() {
        let mut c = CharacterScreenClient::new(format!("{kind}{i}"));
        match kind {
            'D' => c.status = CharacterScreenProgress::WaitingToLogIn(dev),
            'X' => c.status = CharacterScreenProgress::WaitingToLogIn(123_456),
            _ => {}
        }
        world.clients_on_character_screen.push(c);
    }
    world
}

fn left_by(turns: &[Turn]) -> Vec<(usize, bool)> {
    turns.iter().map(|t| (t.at, matches!(t.what, Promotion::Ready(_)))).collect()
}

fn screen_of(world: &World) -> Vec<&str> {
    world.clients_on_character_screen.iter().map(|c| c.account_name()).collect()
}

#[test]
fn no_more_enter_in_a_tick_than_may() {
    let mut world = world_with_queue("IDDIDD");
    assert_eq!(left_by(&world.promote(3)), vec![(1, true), (1, true), (2, true)]);
    assert_eq!(screen_of(&world), vec!["I0", "I3", "D5"]);
    assert_eq!(left_by(&world.promote(3)), vec![(2, true)]);
    assert_eq!(screen_of(&world), vec!["I0", "I3"]);
    assert!(world.promote(3).is_empty());
}

#[test]
fn everybody_enters_where_there_is_no_limit() {
    let mut world = world_with_queue("DIDDID");
    assert_eq!(left_by(&world.promote(0)), vec![(0, true), (1, true), (1, true), (2, true)]);
    assert_eq!(screen_of(&world), vec!["I1", "I4"]);
}

#[test]
fn who_has_no_character_does_not_count() {
    let mut world = world_with_queue("XDXIXDXD");
    let turns = world.promote(2);
    assert_eq!(left_by(&turns), vec![(0, false), (0, true), (0, false), (1, false), (1, true)]);
    assert!(matches!(&turns[3].what, Promotion::Dropped { account_name, guid: 123_456 } if account_name == "X4"));
    assert_eq!(screen_of(&world), vec!["I3", "X6", "D7"]);
}

#[test]
fn movements_are_told_once_and_heartbeats_are_thinned_out() {
    let mut db = fresh_db();
    let (mut map, _) = map_with(vec![]);
    let c = test_character_at(&mut db, "Alice", 0.0, 0.0);
    map.queue_movement(&c, 1);
    map.queue_movement(&c, MSG_MOVE_HEARTBEAT);
    let flush = map.flush_movement_broadcasts(1);
    assert_eq!(flush.broadcasts.len(), 1);
    assert_eq!(flush.broadcasts[0].1.opcode, MSG_MOVE_HEARTBEAT);
    assert!(map.flush_movement_broadcasts(1).broadcasts.is_empty());
    map.queue_movement(&c, MSG_MOVE_HEARTBEAT);
    let flush = map.flush_movement_broadcasts(4);
    assert_eq!((flush.broadcasts.len(), flush.throttled), (0, 1));
    map.queue_movement(&c, 0xb5);
    assert_eq!(map.flush_movement_broadcasts(4).broadcasts.len(), 1);
}

#[test]
fn a_swing_hits_in_reach_and_misses_beyond() {
    let mut db = fresh_db();
    let (mut map, keys) = map_with(vec![test_creature_at(7, 2.0, 0.0)]);
    map.creatures[keys[0]].health = 1000;
    let mut me = test_character_at(&mut db, "Alice", 0.0, 0.0);
    assert!(!swing_is_due(&me));
    me.attacking = true;
    me.target = 7;
    assert!(swing_is_due(&me));
    let target = map.resolve_swing(&me).expect("the target is there");
    assert!(matches!(target.kind, SwingKind::Creature(k) if k == keys[0]));
    let mut out: Vec<Outgoing> = Vec::new();
    map.swing(&mut me, Some(target), sq(9.0), sq(5.0), 0, 0, &mut out);
    assert_eq!(map.creatures[keys[0]].health, 1000);
    assert_eq!(f32::from_bits(me.auto_attack_timer), 0.1);
    map.swing(&mut me, Some(target), sq(2.0), sq(5.0), 3, 0, &mut out);
    assert_eq!(map.creatures[keys[0]].health, 1000 - 13);
    assert_eq!(f32::from_bits(me.auto_attack_timer), 1.8);
    assert!(out.iter().any(|o| matches!(o.what, Notice::AttackerState { target: 7, damage: 13, .. })));
}

#[test]
fn a_nova_roots_all_but_the_caster() {
    let mut db = fresh_db();
    let mut registry = PlayerRegistry::new();
    let (mut map, keys) = map_with(vec![test_creature_at(7, 5.0, 0.0), test_creature_at(8, 50.0, 0.0)]);
    map.creatures[keys[0]].info.flags = FORWARD;
    let caster = test_character_at(&mut db, "Mage", 0.0, 0.0);
    let bob = map.insert_client(client(&mut db, "Bob", 3.0, 0.0), &mut registry);
    let r = map.nova(
        &caster,
        &vec![(keys[0], sq(5.0)), (keys[1], sq(50.0))],
        &vec![(bob, sq(3.0))],
        SECOND,
    );
    assert_eq!(r.creature_hits, vec![7]);
    assert_eq!(r.client_hits.len(), 1);
    assert_eq!(map.creatures[keys[0]].root_until, Some(7 * SECOND));
    assert_eq!(map.creatures[keys[1]].root_until, None);
    assert_eq!(map.clients[bob].character.root_until, Some(7 * SECOND));
    let mut out: Vec<Outgoing> = Vec::new();
    map.expire_roots(8 * SECOND, &mut out);
    assert_eq!(map.creatures[keys[0]].root_until, None);
    assert!(out.iter().any(|o| matches!(o.what, Notice::AurasCleared { guid: 7 })));
}

#[test]
fn a_frost_nova_is_cast_at_whom_is_seen() {
    let mut db = fresh_db();
    let mut registry = PlayerRegistry::new();
    let (mut map, _) = map_with(vec![test_creature_at(7, 5.0, 0.0)]);
    let key = map.insert_client(client(&mut db, "Mage", 0.0, 0.0), &mut registry);
    let snapshot = map.build_local_aoi_snapshot();
    let caster = map.clients[key].character.clone();
    let seen = snapshot.candidates(caster.guid, caster.map, caster.info.position.cell, 1);
    assert_eq!(seen.len(), 1);
    let r = map.cast_frost_nova(&caster, &seen, &vec![sq(5.0)], 0);
    assert_eq!(r.creature_hits, vec![7]);
    assert!(r.client_hits.is_empty());
}

#[test]
fn only_who_is_there_is_seen() {
    let mut db = fresh_db();
    let mut registry = PlayerRegistry::new();
    let (mut map, keys) = map_with(vec![test_creature_at(7, 5.0, 0.0)]);
    let cell = map.creatures[keys[0]].info.position.cell;
    let seen = |map: &MapState| -> Vec<u64> {
        map.build_local_aoi_snapshot().candidates(0, EASTERN_KINGDOMS, cell, 1).iter().map(|v| v.guid).collect()
    };
    let c = client(&mut db, "Alice", 5.0, 0.0);
    let guid = c.character.guid;
    let key = map.insert_client(c, &mut registry);
    let mut both = seen(&map);
    both.sort();
    let mut expected = vec![7, guid];
    expected.sort();
    assert_eq!(both, expected);
    let c = map.take_active_client(key);
    map.reinsert_active_client(c);
    assert_eq!(seen(&map).len(), 2);
    map.remove_client(key, &mut registry);
    assert_eq!(seen(&map), vec![7]);
    let mut out: Vec<Outgoing> = Vec::new();
    map.kill_creature(keys[0], SECOND, &mut out);
    assert_eq!(seen(&map), vec![7]);
    map.tick_corpses_and_respawns(1000 * SECOND, SECOND, &vec![], &mut out);
    assert!(seen(&map).is_empty());
}

#[test]
fn an_explosion_hurts_in_reach() {
    let (mut map, keys) = map_with(vec![test_creature_at(7, 5.0, 0.0), test_creature_at(8, 5.0, 0.0)]);
    map.creatures[keys[0]].health = 2000;
    map.creatures[keys[1]].health = 100;
    let mut commands = CommandQueue::new();
    let hits = map.boom(&vec![(keys[0], sq(5.0)), (keys[1], sq(5.0))], EASTERN_KINGDOMS, &mut commands);
    assert_eq!(hits, vec![(7, 2000 - 1332), (8, 0)]);
    assert!(matches!(commands.drain()[..], [WorldCommand::KillCreature(8)]));
}

#[test]
fn creatures_chase_the_nearest_player() {
    let mut db = fresh_db();
    let mut registry = PlayerRegistry::new();
    let (mut map, keys) = map_with(vec![test_creature_at(7, 0.0, 0.0)]);
    let far = map.insert_client(client(&mut db, "Far", 20.0, 0.0), &mut registry);
    let near = map.insert_client(client(&mut db, "Near", 10.0, 0.0), &mut registry);
    assert!(far < near);
    map.refresh_active_grids();
    let targets = map.pick_targets(&vec![vec![sq(20.0), sq(10.0)]], sq(50.0), 0);
    assert_eq!(targets, vec![(keys[0], Some(near))]);
    let groups = map.group_chasers(&targets);
    assert_eq!((groups.len(), groups[0].player), (1, near));
    assert_eq!(groups[0].creatures, keys);
    let mut out: Vec<Outgoing> = Vec::new();
    let steps = vec![ChaseStep {
        creature: keys[0],
        to: place(9.0, 0.0),
        dist: 9.0f32.to_bits(),
        duration_ms: 500,
    }];
    map.run_chasers(&steps, 1.0f32.to_bits(), &mut out);
    assert_eq!(map.creatures[keys[0]].info.position.x, 9.0f32.to_bits());
    assert!(matches!(out[0].what, Notice::MonsterMove { guid: 7, duration_ms: 500, .. }));
    assert!(map.pick_targets(&vec![vec![sq(80.0), sq(90.0)]], sq(50.0), 0)[0].1.is_none());
}

#[test]
fn sleepers_wake_in_time() {
    let mut s = WakeSchedule::new();
    s.park(20, 1);
    s.park(10, 2);
    s.park(20, 3);
    assert!(s.take_due(9).is_empty());
    assert_eq!(s.take_due(10), vec![2]);
    s.park(30, 4);
    s.park(15, 4);
    s.forget(4);
    assert_eq!(s.take_due(100), vec![1, 3]);
    assert!(s.take_due(u64::MAX).is_empty());
}

fn nothing_around() -> Surroundings {
    Surroundings {
        creature_dists: vec![],
        client_dists: vec![],
        flat_dists: vec![],
        sight_sq: sq(200.0),
        run_speed: 7.0f32.to_bits(),
        player_regions: vec![],
        creature_regions: vec![],
    }
}

#[test]
fn game_masters_spawn_and_count() {
    let mut db = fresh_db();
    let (mut map, _) = map_with(vec![test_wander_creature_at(1, 0.0, 0.0), test_creature_at(2, 0.0, 0.0)]);
    let mut gm = client(&mut db, "Gm", 0.0, 0.0);
    let mut commands = CommandQueue::new();
    let mut dice = 5;
    let cfg = RespawnConfig::default();
    let spawn = GmCommand::Spawn { display_id: Some(99), name: Some("Pet".to_string()) };
    let r = gm_command(spawn, &mut gm, &mut map, &mut db, &mut commands, &mut dice, &nothing_around(), &cfg, 0);
    assert!(matches!(r, GmOutcome::Spawned { display_id: 99, .. }));
    assert_eq!(commands.len(), 1);
    let r = gm_command(
        GmCommand::WorldDbInfo,
        &mut gm,
        &mut map,
        &mut db,
        &mut commands,
        &mut dice,
        &nothing_around(),
        &cfg,
        0,
    );
    assert!(matches!(r, GmOutcome::Creatures(h) if h.wander == 1 && h.aggro == 1));
    let r = gm_command(
        GmCommand::SetRunSpeed(2.0f32.to_bits()),
        &mut gm,
        &mut map,
        &mut db,
        &mut commands,
        &mut dice,
        &Surroundings { run_speed: 14.0f32.to_bits(), ..nothing_around() },
        &cfg,
        0,
    );
    assert!(matches!(r, GmOutcome::SpeedSet { speed, .. } if f32::from_bits(speed) == 14.0));
    assert_eq!(f32::from_bits(gm.character.movement_speed), 14.0);
    let r = gm_command(
        GmCommand::Information(2),
        &mut gm,
        &mut map,
        &mut db,
        &mut commands,
        &mut dice,
        &nothing_around(),
        &cfg,
        0,
    );
    assert!(matches!(r, GmOutcome::Info(Entity::Creature(_))));
}

#[test]
fn an_item_is_awarded_into_the_backpack() {
    let mut db = fresh_db();
    let mut c = test_character_at(&mut db, "Alice", 0.0, 0.0);
    for s in 23..39 {
        c.inventory.clear(s);
    }
    let data = c.inventory.slots.iter().flatten().next().unwrap().item;
    let item = Item::new(data, 0, 1, &mut db);
    let a = award_item(item, &mut c);
    assert_eq!(a.slot, Some(23));
    assert_eq!(c.inventory.get(23).map(|i| i.guid), Some(item.guid));
}

#[test]
fn the_fullest_come_first() {
    let r = rank(&vec![5, 9, 5, 7, 9, 5], &vec![7, 7]);
    assert_eq!(r.iter().map(|x| x.key).collect::<Vec<u64>>(), vec![5, 9, 7]);
    assert_eq!((r[0].major, r[2].minor), (3, 2));
    assert_eq!(top(&r, 2).len(), 2);
    let report = report_regions(&vec![1, 2, 2], &vec![1]);
    assert_eq!(report.populated, 2);
    assert_eq!(report.top[0].key, 2);
}

#[test]
fn a_player_is_shown_as_the_game_data_says() {
    let mut db = fresh_db();
    let c = test_character_at(&mut db, "Troll", 3.0, 4.0);
    let f = player_create_object(&c);
    let rc = wow_world_base::vanilla::RaceClass::TrollWarrior;
    assert_eq!(f.display_id, rc.display_id(wow_world_base::vanilla::PlayerGender::Male));
    assert_eq!(f.faction, rc.faction_id().as_int() as i32);
    assert_eq!(f.guid, c.guid);
    let own = get_update_object_player_self(&c);
    assert_eq!(own.stats.stamina, rc.base_stats_for(60).unwrap().stamina);
    let login = get_client_login_messages(&c);
    assert_eq!(login.map, EASTERN_KINGDOMS);
    assert!(!login.spells.is_empty());
    assert!(rc.starter_spells().iter().all(|s| login.spells.contains(&(*s as u16))));
    assert_eq!(login.items.len(), c.inventory.slots.iter().flatten().count());
}

#[test]
fn results_of_maps_are_summed() {
    let mut a = PerCellTickResult::empty();
    a.map = 1;
    a.census.clients = 3;
    a.census.idle = 2;
    let mut b = PerCellTickResult::empty();
    b.map = 2;
    b.census.clients = 5;
    let t = total_up(&vec![a, b]);
    assert_eq!((t.clients, t.most_clients, t.idle), (8, 5, 2));
    a.t_aoi = 7;
    a.t_flush = 4;
    assert_eq!(a.t_cell_total(), 11);
    let _ = representative(&vec![a, b]);
    let mut world = world_with(vec![]);
    assert_eq!(world.count_packets(10), 10);
    assert_eq!(world.count_packets(25), 15);
    assert_eq!(world.count_packets(5), 0);
}

#[test]
fn a_configuration_is_installed_once() {
    let mut slot = ConfigSlot::new();
    assert_eq!(slot.config().tick.target_interval_ms, 33);
    let mut cfg = ServerConfig::default();
    cfg.tick.target_interval_ms = 50;
    slot.install(cfg);
    assert_eq!(slot.config().tick.target_interval_ms, 50);
    let mut again = ServerConfig::default();
    again.tick.target_interval_ms = 70;
    slot.install(again);
    assert_eq!(slot.config().tick.target_interval_ms, 50);
}

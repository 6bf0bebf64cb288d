use wow_vanilla_server::cell::{partition_creatures, PacerSnapshot, PacerStates, PlayerRegistry, PlayerRegistryEntry};
use wow_vanilla_server::command::{CommandQueue, WorldCommand};
use wow_vanilla_server::config::RespawnConfig;
use wow_vanilla_server::creature::{Creature, Position};
use wow_vanilla_server::movement::Place;

fn at(map: u32, x: f32, y: f32) -> Position {
    let cell = ((x / 33.3333).floor() as i32, (y / 33.3333).floor() as i32);
    let grid = ((x / 533.3333).floor() as i32, (y / 533.3333).floor() as i32);
    Position { map, place: Place { x: x.to_bits(), y: y.to_bits(), z: 0, cell, grid }, orientation: 0 }
}

fn make_creature_at(guid: u64, map: u32, x: f32, y: f32) -> Creature {
    Creature::new(format!("test_{guid}"), guid, at(map, x, y), &RespawnConfig::default(), 0)
}

#[test]
fn partition_creatures_preserves_empty_input() {
    assert!(partition_creatures(Vec::new()).is_empty());
}

#[test]
fn partition_creatures_groups_multiple_in_same_cell() {
    let buckets = partition_creatures(vec![make_creature_at(1, 0, 100.0, 100.0), make_creature_at(2, 0, 900.0, 900.0)]);
    assert_eq!(buckets.len(), 1);
    assert_eq!(buckets[0].map, 0);
    assert_eq!(buckets[0].creatures.len(), 2);
}

#[test]
fn partition_creatures_separates_by_map() {
    let buckets = partition_creatures(vec![make_creature_at(1, 0, 100.0, 100.0), make_creature_at(2, 1, 100.0, 100.0)]);
    assert_eq!(buckets.len(), 2);
    assert!(buckets.iter().any(|b| b.map == 0));
    assert!(buckets.iter().any(|b| b.map == 1));
}

#[test]
fn new_queue_is_empty() {
    let q = CommandQueue::new();
    assert!(q.is_empty());
    assert_eq!(q.len(), 0);
}

#[test]
fn push_then_drain_returns_in_order() {
    let mut q = CommandQueue::new();
    q.push(WorldCommand::KillCreature(1));
    q.push(WorldCommand::KillCreature(2));
    q.push(WorldCommand::KillCreature(3));
    assert_eq!(q.len(), 3);
    let collected: Vec<u64> = q
        .drain()
        .into_iter()
        .map(|c| match c {
            WorldCommand::KillCreature(g) => g,
            _ => panic!("unexpected variant"),
        })
        .collect();
    assert_eq!(collected, vec![1, 2, 3]);
    assert!(q.is_empty());
}

#[test]
fn players_are_found_by_guid_and_by_name() {
    let mut r = PlayerRegistry::new();
    r.register_player(PlayerRegistryEntry { guid: 5, name: "Alice".to_string(), position: at(0, 1.0, 2.0) });
    assert_eq!(r.lookup_player_position(5).map(|p| p.place.x), Some(1.0f32.to_bits()));
    assert_eq!(r.lookup_player_position_by_name("aLiCe").map(|p| p.map), Some(0));
    r.unregister_player(5);
    assert!(r.lookup_player_position(5).is_none());
    assert!(r.lookup_player_position_by_name("Alice").is_none());
}

#[test]
fn the_state_of_a_pacer_is_published() {
    let mut s = PacerStates::new();
    assert!(s.get(1).is_none());
    s.publish_pacer_state(
        1,
        PacerSnapshot { current_interval_ms: 66, slow_ema: 0, healthy_streak: 3, last_tick_ms: 12 },
    );
    assert_eq!(s.get(1).map(|p| p.current_interval_ms), Some(66));
    assert!(s.get(0).is_none());
}

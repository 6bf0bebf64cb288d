use std::sync::Arc;
use wow_vanilla_server::command::UnitEffect;
use wow_vanilla_server::config::RespawnConfig;
use wow_vanilla_server::creature::{
    corpse_despawn, default_creature_health, health_on_the_wire, initial_respawn_delay, Creature, Position,
};
use wow_vanilla_server::entities::apply_effect_to_creature;
use wow_vanilla_server::movement::{is_moving, MovementInfo, Place, BACKWARD, FORWARD, STRAFE_LEFT, STRAFE_RIGHT};

const SECOND: u64 = 1_000_000_000;

fn here() -> Place {
    Place { x: 0, y: 0, z: 0, cell: (0, 0), grid: (0, 0) }
}

fn test_creature() -> Creature {
    let at = Position { map: 0, place: here(), orientation: 0 };
    Creature::new("test".to_string(), 1, at, &RespawnConfig::default(), 0)
}

fn info_with(flags: u32) -> MovementInfo {
    MovementInfo { flags, timestamp: 0, position: here(), orientation: 0, fall_time: 0 }
}

#[test]
fn is_moving_empty_flags_false() {
    assert!(!is_moving(&info_with(0)));
}

#[test]
fn is_moving_forward_flag_true() {
    assert!(is_moving(&info_with(FORWARD)));
}

#[test]
fn is_moving_backward_flag_true() {
    assert!(is_moving(&info_with(BACKWARD)));
}

#[test]
fn is_moving_strafe_flags_true() {
    assert!(is_moving(&info_with(STRAFE_LEFT)));
    assert!(is_moving(&info_with(STRAFE_RIGHT)));
}

#[test]
fn is_moving_turn_only_false() {
    // The flags of turning left and of turning right.
    assert!(!is_moving(&info_with(0x10)));
    assert!(!is_moving(&info_with(0x20)));
}

#[test]
fn cached_create_object_returns_same_arc_on_consecutive_calls() {
    let mut c = test_creature();
    let a = c.cached_create_object();
    let b = c.cached_create_object();
    assert!(Arc::ptr_eq(&a, &b), "second call should hit the cache, not rebuild");
}

#[test]
fn invalidate_object_cache_forces_rebuild() {
    let mut c = test_creature();
    let a = c.cached_create_object();
    c.invalidate_object_cache();
    let b = c.cached_create_object();
    assert!(!Arc::ptr_eq(&a, &b), "invalidation should drop the cached Arc");
}

#[test]
fn fresh_creature_has_no_cached_object() {
    let c = test_creature();
    assert!(c.cached_object.is_none(), "cache must start empty so lazy build path is exercised");
}

#[test]
fn is_rooted_returns_false_when_root_until_is_none() {
    assert!(!test_creature().is_rooted(10 * SECOND));
}

#[test]
fn is_rooted_returns_false_for_past_root_until() {
    let now = 10 * SECOND;
    let mut c = test_creature();
    c.root_until = now.checked_sub(SECOND);
    assert!(!c.is_rooted(now));
}

#[test]
fn is_rooted_returns_true_for_future_root_until() {
    let now = 10 * SECOND;
    let mut c = test_creature();
    c.root_until = Some(now + 5 * SECOND);
    assert!(c.is_rooted(now));
}

#[test]
fn unit_effect_damage_returns_died_when_health_hits_zero() {
    let mut creature = test_creature();
    creature.health = 50;
    creature.max_health = 100;
    let died = apply_effect_to_creature(&mut creature, &UnitEffect::Damage { amount: 30 });
    assert!(!died, "30 < 50 should not kill");
    assert_eq!(creature.health, 20);
    let died = apply_effect_to_creature(&mut creature, &UnitEffect::Damage { amount: 100 });
    assert!(died, "100 > 20 should kill (saturating subtraction)");
    assert_eq!(creature.health, 0);
}

#[test]
fn a_root_is_applied() {
    let mut c = test_creature();
    assert!(!apply_effect_to_creature(&mut c, &UnitEffect::Root { until: 7 }));
    assert_eq!(c.root_until, Some(7));
}

#[test]
fn a_creature_is_shown_as_it_is() {
    let mut c = test_creature();
    let f = c.to_create_object();
    assert_eq!((f.guid, f.entry, f.display_id, f.level), (1, 69, 646, 1));
    assert_eq!(f.health, default_creature_health(&RespawnConfig::default()) as i32);
    assert_eq!(health_on_the_wire(u32::MAX), i32::MAX);
    assert_eq!(health_on_the_wire(5), 5);
}

#[test]
fn the_times_of_death_are_configured() {
    let cfg = RespawnConfig { corpse_despawn_secs: 20, initial_respawn_delay_secs: 30, default_creature_health: 7 };
    assert_eq!(corpse_despawn(&cfg), 20 * SECOND);
    assert_eq!(cfg.corpse_despawn(), 20 * SECOND);
    assert_eq!(initial_respawn_delay(&cfg), 30 * SECOND);
    assert_eq!(cfg.initial_respawn_delay(), 30 * SECOND);
    assert_eq!(default_creature_health(&cfg), 7);
}

use wow_vanilla_server::config::RespawnConfig;
use wow_vanilla_server::creature::{default_creature_health, CreatureBehavior};
use wow_vanilla_server::keyed::KeyedTable;
use wow_vanilla_server::movement::Place;
use wow_vanilla_server::world_db::{
    collect_paths, creature_of, i64_to_i32, i64_to_u32, i64_to_u8, load_creatures, pick_display_id, pick_health, try_load_creatures,
    repeat_placeholders, waypoint_ids, CreatureTemplate, CreatureTemplates, Path, RawRow, WaypointRow,
};

fn config() -> RespawnConfig {
    RespawnConfig::default()
}

fn place(x: f32, y: f32) -> Place {
    Place { x: x.to_bits(), y: y.to_bits(), z: 0, cell: (0, 0), grid: (0, 0) }
}

fn row(spawn_guid: i64, movement_type: i32) -> RawRow {
    RawRow {
        spawn_guid,
        entry: 68,
        map_id: 0,
        position: place(1.0, 2.0),
        orientation: 0,
        spawndist: 5.0f32.to_bits(),
        movement_type,
        cur_health: 0,
        spawn_model: 0,
        name: "Guard".to_string(),
        template_models: [3258, 0, 0, 0],
        min_level: 55,
        faction_alliance: 11,
        min_health: 1000,
        max_health: 2000,
    }
}

#[test]
fn pick_display_id_prefers_spawn_override() {
    assert_eq!(pick_display_id(123, &[10, 20, 0, 0]), Some(123));
}

#[test]
fn pick_display_id_falls_back_to_first_nonzero_template() {
    assert_eq!(pick_display_id(0, &[0, 0, 555, 999]), Some(555));
}

#[test]
fn pick_display_id_returns_none_when_all_zero() {
    assert_eq!(pick_display_id(0, &[0, 0, 0, 0]), None);
}

#[test]
fn pick_health_prefers_max_when_set() {
    assert_eq!(pick_health(2000, 1000, &config()), 2000);
}

#[test]
fn pick_health_falls_back_to_min_when_max_zero() {
    assert_eq!(pick_health(0, 1000, &config()), 1000);
}

#[test]
fn pick_health_falls_back_to_default_when_both_zero() {
    assert_eq!(pick_health(0, 0, &config()), default_creature_health(&config()));
}

#[test]
fn repeat_placeholders_empty() {
    assert_eq!(repeat_placeholders(0), "");
}

#[test]
fn repeat_placeholders_one() {
    assert_eq!(repeat_placeholders(1), "?");
}

#[test]
fn repeat_placeholders_many() {
    assert_eq!(repeat_placeholders(4), "?,?,?,?");
}

#[test]
fn i64_to_u32_clamps_negative_to_zero() {
    assert_eq!(i64_to_u32(-1), 0);
    assert_eq!(i64_to_u32(i64::MIN), 0);
}

#[test]
fn i64_to_u32_clamps_huge_to_max() {
    assert_eq!(i64_to_u32(i64::MAX), u32::MAX);
    assert_eq!(i64_to_u32(u32::MAX as i64), u32::MAX);
}

#[test]
fn i64_to_u32_passes_through_normal() {
    assert_eq!(i64_to_u32(0), 0);
    assert_eq!(i64_to_u32(12345), 12345);
}

#[test]
fn i64_to_u8_clamps_to_range() {
    assert_eq!(i64_to_u8(-1), 0);
    assert_eq!(i64_to_u8(300), u8::MAX);
    assert_eq!(i64_to_u8(60), 60);
}

#[test]
fn i64_to_i32_clamps_extremes() {
    assert_eq!(i64_to_i32(i64::MAX), i32::MAX);
    assert_eq!(i64_to_i32(i64::MIN), i32::MIN);
    assert_eq!(i64_to_i32(0), 0);
}

#[test]
fn a_guard_is_loaded_as_its_row_says() {
    let none: KeyedTable<Path> = KeyedTable::new();
    let c = creature_of(&row(7, 0), &none, &none, &config(), 99).expect("the map exists");
    assert_eq!(c.guid, 0x1000_0000 + 7);
    assert_eq!(c.name, "Guard");
    assert_eq!(c.display_id, 3258);
    assert_eq!(c.health, 2000);
    assert_eq!(c.max_health, 2000);
    assert_eq!(c.level, 55);
    assert_eq!(c.faction_template, 11);
    assert!(matches!(c.behavior, CreatureBehavior::Idle));
}

#[test]
fn nobody_is_loaded_without_a_look() {
    let none: KeyedTable<Path> = KeyedTable::new();
    let mut r = row(7, 0);
    r.template_models = [0, 0, 0, 0];
    assert!(creature_of(&r, &none, &none, &config(), 0).is_none());
}

#[test]
fn loading_counts_what_is_loaded() {
    let none: KeyedTable<Path> = KeyedTable::new();
    let mut lost = row(3, 0);
    lost.map_id = 999_999;
    let rows = vec![row(1, 0), row(2, 1), lost];
    let (creatures, counts) = load_creatures(&rows, &none, &none, &config(), 0);
    assert_eq!(creatures.len(), 2);
    assert_eq!(counts.idle, 1);
    assert_eq!(counts.wander, 1);
    assert_eq!(counts.waypoint, 0);
    assert_eq!(counts.skipped, 1);
    assert!(matches!(creatures[1].behavior, CreatureBehavior::RandomWander { .. }));
}

#[test]
fn only_creatures_that_are_loaded_need_guids() {
    let none: KeyedTable<Path> = KeyedTable::new();
    let mut lost = row(-1, 0);
    lost.map_id = 999_999;
    let mut bare = row(-1, 0);
    bare.template_models = [0, 0, 0, 0];
    let rows = vec![row(1, 0), lost, bare];
    let (creatures, counts) = try_load_creatures(&rows, &none, &none, &config(), 0).expect("all guids fit");
    assert_eq!((creatures.len(), counts.skipped), (1, 2));
    assert!(try_load_creatures(&vec![row(-1, 0)], &none, &none, &config(), 0).is_none());
}

#[test]
fn waypoints_of_the_spawn_come_before_those_of_the_entry() {
    let spawn = collect_paths(&vec![
        WaypointRow { key: 2, position: place(1.0, 1.0), waittime: 100 },
        WaypointRow { key: 2, position: place(2.0, 2.0), waittime: 200 },
    ]);
    let entry = collect_paths(&vec![
        WaypointRow { key: 68, position: place(9.0, 9.0), waittime: 0 },
        WaypointRow { key: 68, position: place(8.0, 8.0), waittime: 0 },
    ]);
    let own = creature_of(&row(2, 2), &spawn, &entry, &config(), 0).expect("the map exists");
    match own.behavior {
        CreatureBehavior::Waypoint { waypoints, waittimes_ms, .. } => {
            assert_eq!(waypoints.len(), 2);
            assert_eq!(waypoints[0].x, 1.0f32.to_bits());
            assert_eq!(waittimes_ms, vec![100, 200]);
        }
        _ => panic!("a way was expected"),
    }
    let shared = creature_of(&row(5, 2), &spawn, &entry, &config(), 0).expect("the map exists");
    match shared.behavior {
        CreatureBehavior::Waypoint { waypoints, .. } => assert_eq!(waypoints[0].x, 9.0f32.to_bits()),
        _ => panic!("a way was expected"),
    }
}

#[test]
fn only_walkers_are_asked_for_ways() {
    let (spawns, entries) = waypoint_ids(&vec![row(1, 0), row(2, 2), row(3, 2)]);
    assert_eq!(spawns, vec![2, 3]);
    assert!(entries.contains(&68));
}

#[test]
fn creature_template_registry_round_trips_by_entry() {
    let entry = 12345_u32;
    let mut templates = CreatureTemplates::new();
    templates.register_template(
        entry,
        CreatureTemplate {
            name: "Test Murloc".to_string(),
            sub_name: "Practice Dummy".to_string(),
            type_flags: 0,
            creature_type: 7,
            creature_family: 0,
            creature_rank: 1,
            display_id: 4321,
            civilian: 0,
            racial_leader: 0,
        },
    );
    let template = templates.lookup_template(entry).expect("registered entry must resolve");
    assert_eq!(template.name, "Test Murloc");
    assert_eq!(template.sub_name, "Practice Dummy");
    assert_eq!(template.creature_type, 7);
    assert_eq!(template.creature_rank, 1);
    assert_eq!(template.display_id, 4321);
    assert!(templates.lookup_template(99999).is_none());
}

use slab::Slab;
use wow_vanilla_server::capture::{contains, find_wowm_file, write_test_case_inner};
use wow_vanilla_server::config::{CombatConfig, RespawnConfig};
use wow_vanilla_server::creature::{Creature, Position};
use wow_vanilla_server::database::WorldDatabase;
use wow_vanilla_server::item::ItemData;
use wow_vanilla_server::movement::Place;
use wow_vanilla_server::net_stats::{sample, since, NetStats};
use wow_vanilla_server::pathfinding::{build_threads, clamp_tile, closest_height, PathfindingMaps, TileStep};
use wow_vanilla_server::server::{legacy_creatures, start_database, AfterTick, Saver};
use wow_vanilla_server::snapshot::{
    default_legacy_account, unpack_items, Cells, CharacterSnapshot, InventoryEntry, WorldSnapshot,
};

fn start() -> Position {
    Position {
        map: 0,
        place: Place { x: 1.5f32.to_bits(), y: 2.5f32.to_bits(), z: 0, cell: (3, 4), grid: (1, 2) },
        orientation: 7,
    }
}

fn fresh() -> WorldDatabase {
    WorldDatabase::new(start(), &CombatConfig::default())
}

const HERE: Cells = Cells { cell: (3, 4), grid: (1, 2) };

#[test]
fn characters_come_back_as_they_were() {
    let db = fresh();
    let mut creatures: Slab<Creature> = Slab::new();
    creatures.insert(Creature::new("Boar".to_string(), 50, start(), &RespawnConfig::default(), 0));
    let snap = WorldSnapshot::capture(&db, &creatures);
    assert_eq!(snap.next_guid, db.next_guid());
    assert_eq!(snap.characters.len(), 3);
    assert_eq!(snap.creatures.len(), 1);
    assert_eq!(snap.creatures[0].name, "Boar");
    assert_eq!(snap.creatures[0].guid, 50);
    let back = snap.restore_db_only(&vec![HERE, HERE, HERE], 100);
    assert_eq!(back.next_guid(), db.next_guid());
    for (a, b) in db.all_characters().iter().zip(back.all_characters()) {
        assert_eq!((a.guid, &a.name, &a.account), (b.guid, &b.name, &b.account));
        assert_eq!((a.race, a.class, a.gender, a.level), (b.race, b.class, b.gender, b.level));
        assert_eq!(a.info.position.x, b.info.position.x);
        assert_eq!(a.info.position.cell, b.info.position.cell);
        assert_eq!(a.movement_speed, b.movement_speed);
        assert_eq!(a.inventory.slots, b.inventory.slots);
        assert_eq!(b.current_health, 100);
    }
}

#[test]
fn who_comes_back_is_at_rest() {
    let mut c = fresh().all_characters()[0].clone();
    c.attacking = true;
    c.target = 9;
    c.info.flags = 1;
    c.current_health = 3;
    c.root_until = Some(1);
    c.movement_speed = 0;
    let back = CharacterSnapshot::capture(&c).into_character(HERE, 250);
    assert!(!back.attacking && back.target == 0 && back.info.flags == 0 && back.root_until.is_none());
    assert_eq!((back.current_health, back.max_health), (250, 250));
    assert_eq!(f32::from_bits(back.movement_speed), 7.0);
}

#[test]
fn items_that_are_not_known_are_lost() {
    let e = |slot: u8, item_entry: u32| InventoryEntry { slot, item_entry, item_guid: 5, amount: 2, creator_guid: 6 };
    let d = ItemData {
        entry: 25,
        display_id: 1,
        inventory_type: 2,
        bag_family: 0,
        max_durability: 3,
        random_property: 0,
    };
    let inv = unpack_items(&vec![e(4, 25), e(5, 1)], &vec![Some(d), None]);
    assert_eq!(inv.get(4).map(|i| (i.item, i.guid, i.amount, i.creator)), Some((d, 5, 2, 6)));
    assert!(inv.get(5).is_none());
    assert_eq!(default_legacy_account(), "DEV");
}

#[test]
fn a_world_starts_with_whom_was_kept_or_afresh() {
    let db = start_database(None, &vec![], start(), &CombatConfig::default());
    assert_eq!(db.all_characters().len(), 3);
    let kept = WorldSnapshot { next_guid: 42, characters: vec![], creatures: vec![] };
    let db = start_database(Some(kept), &vec![], start(), &CombatConfig::default());
    assert_eq!((db.all_characters().len(), db.next_guid()), (0, 42));
}

#[test]
fn a_world_of_which_nothing_is_known_has_one_creature() {
    let mut db = fresh();
    let next = db.next_guid();
    let v = legacy_creatures(&mut db, start(), &RespawnConfig::default(), 0);
    assert_eq!(v.len(), 1);
    assert_eq!((v[0].name.as_str(), v[0].guid), ("Thing", next));
    assert_eq!(db.next_guid(), next + 1);
}

#[test]
fn the_world_is_saved_in_time_and_at_the_end() {
    let mut s = Saver::new(60, 100);
    assert_eq!(s.after_tick(159, false), AfterTick { save: false, exit: false });
    assert_eq!(s.after_tick(160, false), AfterTick { save: true, exit: false });
    assert_eq!(s.next_save, 220);
    assert_eq!(s.after_tick(161, true), AfterTick { save: true, exit: true });
}

fn world_to_adt(x: f32, y: f32) -> (i32, i32) {
    let tile = |v: f32| clamp_tile((32.0 - v / 533.333_3).floor() as i32);
    (tile(y), tile(x))
}

#[test]
fn world_origin_maps_to_center_tile() {
    assert_eq!(world_to_adt(0.0, 0.0), (32, 32));
}

#[test]
fn world_to_adt_clamps_extreme_positive() {
    assert_eq!(world_to_adt(50_000.0, 50_000.0), (0, 0));
}

#[test]
fn world_to_adt_clamps_extreme_negative() {
    assert_eq!(world_to_adt(-50_000.0, -50_000.0), (63, 63));
}

#[test]
fn stormwind_gate_lives_on_known_tiles() {
    let (tx, ty) = world_to_adt(-9083.0, 419.0);
    assert!((0..=63).contains(&tx), "tx out of range: {tx}");
    assert!((0..=63).contains(&ty), "ty out of range: {ty}");
}

#[test]
fn a_tile_is_loaded_once() {
    let mut m = PathfindingMaps::new();
    assert_eq!(m.ask(false, 0, (1, 2)), TileStep::NoMap);
    assert_eq!(m.attempted_adt_count(), 0);
    assert_eq!(m.ask(true, 0, (1, 2)), TileStep::Load);
    assert_eq!(m.ask(true, 0, (1, 2)), TileStep::Query);
    assert_eq!(m.ask(true, 0, (2, 1)), TileStep::Load);
    assert_eq!(m.ask(true, 1, (1, 2)), TileStep::Load);
    assert_eq!(m.attempted_adt_count(), 3);
}

#[test]
fn the_nearest_height_is_picked() {
    let off = |v: &[f32]| v.iter().map(|f| f.to_bits()).collect::<Vec<u32>>();
    assert_eq!(closest_height(&off(&[])), None);
    assert_eq!(closest_height(&off(&[3.0, 1.0, 2.0])), Some(1));
    assert_eq!(closest_height(&off(&[1.0, 1.0])), Some(0));
    assert_eq!(closest_height(&off(&[f32::NAN, 1.0])), Some(0));
    assert_eq!(build_threads(8), 6);
    assert_eq!(build_threads(2), 1);
    assert_eq!(build_threads(1), 1);
}

#[test]
fn packets_of_the_machine_are_summed() {
    let text = "Inter-|   Receive |  Transmit\n face |bytes packets\n    lo: 1 2 3 4 5 6 7 8 9 10 11\n  eth0: 100 7 0 0 0 0 0 0 200 9 0\n  eth1: 1 3 0 0 0 0 0 0 2 4 0\n";
    assert_eq!(sample(Some(text)), Some(NetStats { rx_packets: 10, tx_packets: 13 }));
    assert_eq!(sample(None), None);
    assert_eq!(sample(Some("")), None);
    assert_eq!(sample(Some("Inter-|\n face |\n")), None);
    assert_eq!(sample(Some("Inter-|\n face |\n eth0 1 2 3 4 5 6 7 8 9 10\n eth1: 1 2 3 4 5 6 7 8 9\n")), None);
    assert_eq!(
        sample(Some("Inter-|\n face |\n lo: 1 2 3 4 5 6 7 8 9 10\n")),
        Some(NetStats { rx_packets: 0, tx_packets: 0 })
    );
    let a = NetStats { rx_packets: 10, tx_packets: 13 };
    let b = NetStats { rx_packets: 15, tx_packets: 14 };
    assert_eq!(since(Some(a), Some(b)), Some((5, 1)));
}

#[test]
fn a_test_case_goes_to_its_message() {
    let files = vec!["smsg CMSG_PINGS = 1 {".to_string(), "smsg CMSG_PING = 1 {".to_string()];
    assert_eq!(find_wowm_file(&files, "CMSG_PING"), Some(1));
    assert_eq!(find_wowm_file(&files, "CMSG_PONG"), None);
    let found = write_test_case_inner("test", Some("a.wowm"));
    assert_eq!((found.path.as_str(), found.text.as_str()), ("a.wowm", "\ntest"));
    assert_eq!(write_test_case_inner("test", None).path, "./tests.wowm");
    let v = |s: &str| s.chars().collect::<Vec<char>>();
    assert!(contains(&v("abc"), &v("bc")) && contains(&v("abc"), &v("")) && !contains(&v("ab"), &v("abc")));
}

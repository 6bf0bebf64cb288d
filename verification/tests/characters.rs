use wow_vanilla_server::character::{calculate_mana, power_type, Character, Looks, Power};
use wow_vanilla_server::character_screen::{
    create_character, handle_character_screen_opcode, CharCreate, CharScreenReply, CharScreenRequest,
    CharacterScreenClient, CharacterScreenProgress,
};
use wow_vanilla_server::config::CombatConfig;
use wow_vanilla_server::creature::Position;
use wow_vanilla_server::database::{WorldDatabase, DEV_ACCOUNT};
use wow_vanilla_server::movement::Place;

fn start() -> Position {
    Position { map: 0, place: Place { x: 0, y: 0, z: 0, cell: (0, 0), grid: (0, 0) }, orientation: 0 }
}

fn fresh() -> WorldDatabase {
    WorldDatabase::new(start(), &CombatConfig::default())
}

#[test]
fn lookup_finds_seeded_characters() {
    let db = fresh();
    let first = db.all_characters().first().expect("seeded with at least one character");
    let guid = first.guid;
    let found = db.get_character_by_guid(guid).expect("guid must resolve");
    assert_eq!(found.guid, guid);
}

#[test]
fn lookup_missing_returns_none() {
    assert!(fresh().get_character_by_guid(99_999).is_none());
}

#[test]
fn delete_then_lookup_is_none() {
    let mut db = fresh();
    let guid = db.all_characters().first().unwrap().guid;
    assert!(db.delete_character_by_guid(DEV_ACCOUNT, guid));
    assert!(db.get_character_by_guid(guid).is_none());
}

#[test]
fn delete_keeps_other_indexes_consistent() {
    let mut db = fresh();
    let all_guids: Vec<u64> = db.all_characters().iter().map(|c| c.guid).collect();
    let first = all_guids[0];
    let rest = &all_guids[1..];
    assert!(db.delete_character_by_guid(DEV_ACCOUNT, first));
    for g in rest {
        assert!(db.get_character_by_guid(*g).is_some(), "remaining guid {g:?} must still resolve after delete");
    }
}

#[test]
fn char_enum_filters_by_account() {
    let mut db = fresh();
    // An orc warrior.
    let bot = Character::test_character(&mut db, "Botxyz".to_string(), 2, 1, 0, start(), &CombatConfig::default())
        .expect("orcs can be warriors");
    db.create_character_in_account("BOT0000", bot);

    let dev_chars = db.get_characters_for_account(DEV_ACCOUNT);
    assert!(dev_chars.iter().any(|c| c.name == "Dev"));
    assert!(!dev_chars.iter().any(|c| c.name == "Botxyz"));

    let bot_chars = db.get_characters_for_account("BOT0000");
    assert_eq!(bot_chars.len(), 1);
    assert_eq!(bot_chars[0].name, "Botxyz");
}

#[test]
fn get_character_for_account_refuses_foreign_guid() {
    let db = fresh();
    let dev_guid = db.all_characters().iter().find(|c| c.name == "Dev").unwrap().guid;
    assert!(db.get_character_for_account("BOT0001", dev_guid).is_none());
    assert!(db.get_character_for_account(DEV_ACCOUNT, dev_guid).is_some());
}

#[test]
fn a_fresh_server_has_three_characters() {
    let db = fresh();
    let names: Vec<&str> = db.all_characters().iter().map(|c| c.name.as_str()).collect();
    assert_eq!(names, vec!["Dev", "HumOne", "HumTwo"]);
    assert!(db.all_characters().iter().all(|c| c.level == 60 && c.account == DEV_ACCOUNT));
}

#[test]
fn a_foreign_account_deletes_nobody() {
    let mut db = fresh();
    let guid = db.all_characters()[0].guid;
    assert!(!db.delete_character_by_guid("BOT0001", guid));
    assert!(db.get_character_by_guid(guid).is_some());
}

#[test]
fn a_character_is_written_back() {
    let mut db = fresh();
    let mut c = db.all_characters()[1].clone();
    c.level = 12;
    let guid = c.guid;
    assert!(db.replace_character_data(c));
    assert_eq!(db.get_character_by_guid(guid).map(|c| c.level), Some(12));
    let mut nobody = db.all_characters()[0].clone();
    nobody.guid = 77_777;
    assert!(!db.replace_character_data(nobody));
}

#[test]
fn guids_are_handed_out_once() {
    let mut db = fresh();
    let next = db.next_guid();
    assert_eq!(db.new_guid(), next);
    assert_eq!(db.new_guid(), next + 1);
    assert_eq!(db.next_guid(), next + 2);
}

#[test]
fn a_new_character_gets_what_its_race_and_class_start_with() {
    let mut db = fresh();
    let looks = Looks { skin: 1, face: 2, hair_style: 3, hair_color: 4, facial_hair: 5 };
    let c = Character::new(&mut db, "Nova".to_string(), 1, 8, 1, looks, start(), &CombatConfig::default())
        .expect("humans can be mages");
    assert_eq!(c.level, 1);
    assert_eq!((c.skin, c.face, c.hairstyle, c.haircolor, c.facialhair), (1, 2, 3, 4, 5));
    let carried = c.inventory.slots.iter().filter(|s| s.is_some()).count();
    assert!(carried > 0);
    assert_eq!(c.current_health, 100);
    assert_eq!(c.max_health, 100);
    // Humans cannot be druids.
    assert!(Character::new(&mut db, "No".to_string(), 1, 11, 0, looks, start(), &CombatConfig::default()).is_none());
}

#[test]
fn classes_have_their_power() {
    assert_eq!(power_type(1), Power::Rage);
    assert_eq!(power_type(4), Power::Energy);
    assert_eq!(power_type(8), Power::Mana);
    assert_eq!(calculate_mana(100, 19), 119);
    assert_eq!(calculate_mana(100, 20), 120);
    assert_eq!(calculate_mana(100, 22), 150);
}

#[test]
fn stats_come_from_the_game_data() {
    let db = fresh();
    let dev = &db.all_characters()[0];
    let s = dev.default_stats();
    let expected = wow_world_base::vanilla::RaceClass::HumanWarrior.base_stats_for(60).unwrap();
    assert_eq!(s.strength, expected.strength);
    assert_eq!(s.health, expected.health);
    assert_eq!(dev.strength(), expected.strength as i32);
}

#[test]
fn damage_stops_at_death_and_is_undone_by_respawning() {
    let mut c = fresh().all_characters()[0].clone();
    assert_eq!(c.apply_damage(30), 70);
    assert!(!c.is_dead());
    assert_eq!(c.apply_damage(1000), 0);
    assert!(c.is_dead());
    c.respawn_full_health();
    assert_eq!(c.current_health, c.max_health);
    assert!(!c.is_dead());
}

fn wanted(name: &str) -> CharCreate {
    CharCreate {
        name: name.to_string(),
        race: 1,
        class: 1,
        gender: 0,
        looks: Looks { skin: 0, face: 0, hair_style: 0, hair_color: 0, facial_hair: 0 },
    }
}

#[test]
fn the_character_screen_creates_lists_deletes_and_enters() {
    let mut db = fresh();
    let combat = CombatConfig::default();
    let mut client = CharacterScreenClient::new("ALICE".to_string());
    let r = handle_character_screen_opcode(&mut client, &mut db, CharScreenRequest::Enumerate, start(), &combat);
    assert!(matches!(r, CharScreenReply::Characters(v) if v.is_empty()));
    let r = handle_character_screen_opcode(
        &mut client,
        &mut db,
        CharScreenRequest::Create(wanted("Bob")),
        start(),
        &combat,
    );
    assert!(matches!(r, CharScreenReply::Created(true)));
    let guid = match handle_character_screen_opcode(&mut client, &mut db, CharScreenRequest::Enumerate, start(), &combat)
    {
        CharScreenReply::Characters(v) => {
            assert_eq!(v.len(), 1);
            assert_eq!(v[0].name, "Bob");
            v[0].guid
        }
        _ => panic!("the characters were expected"),
    };
    let r = handle_character_screen_opcode(&mut client, &mut db, CharScreenRequest::Login { guid }, start(), &combat);
    assert!(matches!(r, CharScreenReply::Entering(c) if c.guid == guid));
    assert!(matches!(client.status, CharacterScreenProgress::WaitingToLogIn(g) if g == guid));
    let mut stranger = CharacterScreenClient::new("MALLORY".to_string());
    let r = handle_character_screen_opcode(&mut stranger, &mut db, CharScreenRequest::Login { guid }, start(), &combat);
    assert!(!matches!(r, CharScreenReply::Entering(_)));
    handle_character_screen_opcode(&mut client, &mut db, CharScreenRequest::Delete { guid }, start(), &combat);
    assert!(db.get_character_by_guid(guid).is_none());
    let r = handle_character_screen_opcode(
        &mut client,
        &mut db,
        CharScreenRequest::Ping { sequence_id: 9 },
        start(),
        &combat,
    );
    assert!(matches!(r, CharScreenReply::Pong { sequence_id: 9 }));
}

#[test]
fn a_race_and_class_that_do_not_go_together_create_nobody() {
    let mut db = fresh();
    let mut c = wanted("Nobody");
    c.class = 11;
    assert!(create_character(c, &mut db, start(), &CombatConfig::default()).is_none());
}

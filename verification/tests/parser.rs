use wow_vanilla_server::cell::PlayerRegistry;
use wow_vanilla_server::character::Character;
use wow_vanilla_server::config::{CombatConfig, TickConfig};
use wow_vanilla_server::creature::Position;
use wow_vanilla_server::database::WorldDatabase;
use wow_vanilla_server::gm_parser::{parse_float, parse_int, Direction, GmCommand, GmErrorKind};
use wow_vanilla_server::map_state::MapState;
use wow_vanilla_server::movement::Place;

fn reading(v: &str) -> Option<u32> {
    v.parse::<f32>().ok().map(|f| f.to_bits())
}

fn float(v: &str, name: &str) -> Result<f32, String> {
    parse_float(v, reading(v), name).map(f32::from_bits)
}

#[test]
fn parse_int_accepts_positive() {
    assert_eq!(parse_int("42", "x"), Ok(42));
}

#[test]
fn parse_int_accepts_negative() {
    assert_eq!(parse_int("-7", "x"), Ok(-7));
}

#[test]
fn parse_int_rejects_garbage() {
    assert_eq!(parse_int("abc", "count"), Err("invalid count: 'abc'".to_string()));
}

#[test]
fn parse_int_rejects_float() {
    assert!(parse_int("1.5", "x").is_err());
}

#[test]
fn parse_float_accepts_decimal() {
    assert_eq!(float("2.5", "y"), Ok(2.5));
}

#[test]
fn parse_float_accepts_negative() {
    assert_eq!(float("-9083.265", "x"), Ok(-9083.265));
}

#[test]
fn parse_float_rejects_garbage() {
    assert!(float("not-a-number", "x").is_err());
}

fn start() -> Position {
    Position { map: 0, place: Place { x: 0, y: 0, z: 0, cell: (0, 0), grid: (0, 0) }, orientation: 0 }
}

fn me() -> Character {
    WorldDatabase::new(start(), &CombatConfig::default()).all_characters()[0].clone()
}

fn run(message: &str) -> Result<GmCommand, GmErrorKind> {
    let map = MapState::new_empty(0, &TickConfig::default());
    let registry = PlayerRegistry::new();
    let args = match message.split_once(' ') {
        Some((_, rest)) => rest,
        None => "",
    };
    let readings: Vec<Option<u32>> = args.split_whitespace().map(reading).collect();
    GmCommand::from_player_command(message, &me(), &map, &registry, &readings, reading(args.trim())).map_err(|e| e.kind)
}

#[test]
fn commands_are_understood() {
    assert!(matches!(run("whereami"), Ok(GmCommand::WhereAmI)));
    assert!(matches!(run("north"), Ok(GmCommand::Step(Direction::North))));
    assert!(matches!(run("players"), Ok(GmCommand::Players)));
    assert!(matches!(run("nova"), Ok(GmCommand::Nova)));
    assert!(matches!(run("boom"), Ok(GmCommand::Boom)));
    assert!(matches!(run("no such command"), Err(GmErrorKind::InvalidCommand)));
}

#[test]
fn a_speed_is_read() {
    match run("speed 14.5") {
        Ok(GmCommand::SetRunSpeed(s)) => assert_eq!(f32::from_bits(s), 14.5),
        other => panic!("{other:?}"),
    }
    assert!(run("speed fast").is_err());
}

#[test]
fn an_item_is_found_by_number_and_by_name() {
    match run("additem 25") {
        Ok(GmCommand::AddItem(d)) => {
            assert_eq!(d.entry, 25);
            assert_eq!(d.display_id, wow_items::vanilla::lookup_item(25).unwrap().display_id());
        }
        other => panic!("{other:?}"),
    }
    match run("additem martin fury") {
        Ok(GmCommand::AddItem(d)) => assert_eq!(d.entry, 17),
        other => panic!("{other:?}"),
    }
    assert!(matches!(run("additem qwxyzzyq"), Err(GmErrorKind::NotAnItem)));
}

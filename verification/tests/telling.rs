use wow_vanilla_server::aoi::AoiChange;
use wow_vanilla_server::auth::{AuthRoute, Dialect};
use wow_vanilla_server::casting::tell_of_boom;
use wow_vanilla_server::cell::{PacerSnapshot, PlayerRegistry};
use wow_vanilla_server::character::Character;
use wow_vanilla_server::client::Client;
use wow_vanilla_server::config::{CombatConfig, RespawnConfig, TickConfig};
use wow_vanilla_server::creature::{Creature, Position};
use wow_vanilla_server::database::WorldDatabase;
use wow_vanilla_server::departures::MapGuids;
use wow_vanilla_server::gm_command::{ConditionCounts, HabitCounts, PlayersReport, RegionsReport};
use wow_vanilla_server::gm_reply::{
    creature_text, habits_text, mark_line, marked_text, no_player_text, no_target_text, pacer_text, player_text,
    players_lines, range_text, regions_lines, sight_text, spawned_text, where_text, LineOfSight, WrittenPlace,
    WrittenRegion,
};
use wow_vanilla_server::loadtest::bot::{live, BotRead, BotStage, Happening};
use wow_vanilla_server::loadtest::metrics::Metrics;
use wow_vanilla_server::loadtest::race::Leg;
use wow_vanilla_server::logon::{go_on, start, Action, Event, Stage};
use wow_vanilla_server::map_state::MapState;
use wow_vanilla_server::movement::{MovementInfo, Place};
use wow_vanilla_server::notice::{Audience, Notice, Outgoing};
use wow_vanilla_server::rank::Ranked;
use wow_vanilla_server::spells::{FrostNova, NovaOutcome};
use wow_vanilla_server::telling::{tell_of_departures, tell_of_moves};

fn at(map: u32) -> Position {
    Position { map, place: Place { x: 1, y: 2, z: 3, cell: (0, 0), grid: (0, 0) }, orientation: 0 }
}

fn written() -> WrittenPlace {
    WrittenPlace { x: "1.5".to_string(), y: "-2".to_string(), z: "3".to_string() }
}

fn player(name: &str) -> Character {
    let mut db = WorldDatabase::new(at(0), &CombatConfig::default());
    Character::test_character(&mut db, name.to_string(), 8, 1, 0, at(0), &CombatConfig::default()).unwrap()
}

fn is_own(o: &Outgoing) -> bool {
    matches!(o.to, Audience::Handled)
}

#[test]
fn a_login_goes_through_its_stages() {
    let (mut stage, first) = start(AuthRoute::Login(Dialect::Eight), true);
    assert_eq!(first, Action::SendChallenge);
    assert_eq!(go_on(&mut stage, Event::Sent), Action::AwaitProof);
    assert_eq!(go_on(&mut stage, Event::Proof { right: true }), Action::SendAccepted);
    assert_eq!(go_on(&mut stage, Event::Sent), Action::RememberAndListen);
    assert_eq!(go_on(&mut stage, Event::Asked), Action::SendRealms);
    assert_eq!(go_on(&mut stage, Event::Sent), Action::Listen);
    assert_eq!(go_on(&mut stage, Event::Asked), Action::SendRealms);
    assert_eq!(go_on(&mut stage, Event::Broken), Action::Close);
    assert_eq!(stage, Stage::Closed);
    assert_eq!(go_on(&mut stage, Event::Asked), Action::Close);
}

#[test]
fn a_wrong_proof_is_answered_only_to_who_comes_back() {
    let (mut stage, _) = start(AuthRoute::Login(Dialect::Two), true);
    go_on(&mut stage, Event::Sent);
    assert_eq!(go_on(&mut stage, Event::Proof { right: false }), Action::Close);
    let (mut stage, _) = start(AuthRoute::Reconnect(Dialect::Two), true);
    go_on(&mut stage, Event::Sent);
    assert_eq!(go_on(&mut stage, Event::Proof { right: false }), Action::SendRefused);
    assert_eq!(go_on(&mut stage, Event::Sent), Action::Close);
    let (mut stage, _) = start(AuthRoute::Reconnect(Dialect::Two), true);
    go_on(&mut stage, Event::Sent);
    assert_eq!(go_on(&mut stage, Event::Proof { right: true }), Action::SendAccepted);
    assert_eq!(go_on(&mut stage, Event::Sent), Action::Listen);
}

#[test]
fn strangers_and_strange_versions_are_turned_away() {
    assert_eq!(start(AuthRoute::Reconnect(Dialect::Eight), false), (Stage::Closed, Action::Close));
    assert_eq!(start(AuthRoute::Ignore, true), (Stage::Closed, Action::Close));
    let (mut stage, action) = start(AuthRoute::Login(Dialect::Two), false);
    assert_eq!(action, Action::SendUnknown);
    assert_eq!(go_on(&mut stage, Event::Sent), Action::Close);
    assert_eq!(stage, Stage::Closed);
}

#[test]
fn an_explosion_is_told_to_the_map() {
    let mut caster = player("Boomer");
    caster.guid = 7;
    let mut out: Vec<Outgoing> = Vec::new();
    tell_of_boom(&caster, &vec![(100, 0), (101, 50)], &mut out);
    assert_eq!(out.len(), 8);
    for (i, o) in out.iter().enumerate() {
        assert_eq!(is_own(o), i % 2 == 0);
        assert!(is_own(o) || matches!(o.to, Audience::OnMap { map: 0 }));
    }
    assert!(matches!(out[0].what, Notice::SpellGo { caster: 7, spell: 1449 }));
    assert!(matches!(out[3].what, Notice::SpellDamage { target: 100, attacker: 7, spell: 1449, damage: 1332 }));
    assert!(matches!(out[4].what, Notice::SpellDamage { target: 101, .. }));
    assert!(matches!(out[7].what, Notice::UnitHealth { guid: 101, health: 50 }));
}

#[test]
fn a_nova_is_told_near_the_caster() {
    let mut registry = PlayerRegistry::new();
    let mut map = MapState::new_empty(0, &TickConfig::default());
    let mut frozen = player("Frozen");
    frozen.guid = 55;
    let key = map.insert_client(Client::from_parts(frozen.clone(), "A".to_string()), &mut registry);
    let mut caster = player("Caster");
    caster.guid = 7;
    let info: MovementInfo = frozen.info;
    let nova = NovaOutcome { creature_hits: vec![100], creature_stops: vec![], client_hits: vec![(55, info)] };
    let mut out: Vec<Outgoing> = Vec::new();
    map.tell_of_nova(&caster, &nova, &mut out);
    assert_eq!(out.len(), 9);
    assert!(matches!(out[0].what, Notice::SpellGo { caster: 7, spell: 122 }));
    assert!(matches!(out[2].what, Notice::Aura { guid: 100, spell: 122, player: false }));
    assert!(matches!(out[4].what, Notice::Aura { guid: 55, spell: 122, player: true }));
    assert!(matches!(out[6].what, Notice::Stop { guid: 55, .. }));
    assert!(matches!(out[7].to, Audience::Near { map: 0, .. }));
    assert!(matches!(out[8].what, Notice::Root { guid: 55 }));
    assert!(matches!(out[8].to, Audience::One { key: k } if k == key));
    let mut out: Vec<Outgoing> = Vec::new();
    let nova = FrostNova { creature_hits: vec![], client_hits: vec![55, 56], stops: vec![(55, info)], rooted: vec![55] };
    map.tell_of_frost_nova(&caster, &nova, &mut out);
    assert_eq!(out.len(), 9);
    assert!(matches!(out[0].what, Notice::Stop { guid: 55, .. }));
    assert!(matches!(out[2].what, Notice::SpellGo { .. }));
    assert!(matches!(out[6].what, Notice::Aura { guid: 56, .. }));
    assert!(matches!(out[8].what, Notice::Root { guid: 55 }));
}

#[test]
fn game_masters_are_answered_in_words() {
    let mut me = player("Master");
    me.guid = 9;
    assert_eq!(where_text(&me, &written()), "You are on 'Eastern Kingdoms' (0), x: 1.5, y: -2, z: 3");
    assert_eq!(spawned_text("Thing", 42), "Spawned 'Thing' (display 42)");
    assert_eq!(range_text("12.5"), "Range to target: '12.5'");
    assert_eq!(
        habits_text(&HabitCounts { idle: 1, wander: 2, waypoint: 3, aggro: 4 }),
        "creatures: 10 (idle 1, wander 2, waypoint 3, aggro 4)"
    );
    assert_eq!(
        player_text(&me, "Male", "Troll Warrior", &written()),
        "Player 'Master' (9)\nLevel 60 Male Troll Warrior\nEastern Kingdoms x: 1.5, y: -2, z: 3"
    );
    let c = Creature::new("Thing".to_string(), 3, at(1), &RespawnConfig::default(), 0);
    assert_eq!(
        creature_text(&c, &written()),
        "Creature 'Thing' (3)\nKalimdor x: 1.5, y: -2, z: 3 (Client movement not supported)"
    );
    assert_eq!(no_target_text(8), "Unable to find target '8'");
    assert_eq!(no_player_text(8), "Unable to find player '8'");
    assert_eq!(sight_text(&LineOfSight::Clear, "Bob", 0), "Has line of sight to Bob");
    assert_eq!(sight_text(&LineOfSight::Blocked, "Bob", 0), "Has no line of sight to Bob");
    assert_eq!(sight_text(&LineOfSight::Failed { why: "E".to_string() }, "Bob", 0), "LOS check failed: E");
    assert_eq!(
        sight_text(&LineOfSight::NoTerrain, "Bob", 1),
        "Unable to find map 'Kalimdor' in pathfinding maps"
    );
}

#[test]
fn the_players_are_told_of_line_by_line() {
    let creatures = ConditionCounts { alive: 1, corpse: 2, respawning: 3 };
    let none = PlayersReport { total: 0, near: 0, per_map: vec![], creatures };
    assert_eq!(
        players_lines(&none, 1, "200"),
        vec![
            "Players in-world: 0 (near you: 0 within 200yd on 'Kalimdor')",
            "Creatures: 6 (alive 1, corpse 2, respawning 3)",
        ]
    );
    let creatures = ConditionCounts { alive: 0, corpse: 0, respawning: 0 };
    let per_map = vec![Ranked { key: 1, major: 5, minor: 0 }, Ranked { key: 0, major: 2, minor: 0 }];
    let some = PlayersReport { total: 7, near: 3, per_map, creatures };
    assert_eq!(players_lines(&some, 0, "200")[1], "Per-map: Kalimdor=5, Eastern Kingdoms=2");
}

#[test]
fn the_regions_are_told_of_line_by_line() {
    let written = vec![WrittenRegion { name: "R".to_string(), pacer: pacer_text(&None, "") }];
    let report = RegionsReport { populated: 6, top: vec![Ranked { key: 1, major: 5, minor: 9 }] };
    assert_eq!(
        regions_lines(&report, &written, "133"),
        vec![
            "Regions: 6 populated (133-yd each); top 4 by player count",
            "  R: players=5, creatures=9, pacer=<no pacer state>",
            "  \u{2026} 2 more populated regions truncated",
        ]
    );
    let few = RegionsReport { populated: 0, top: vec![] };
    assert_eq!(regions_lines(&few, &vec![], "133"), vec!["Regions: 0 populated (133-yd each); top 0 by player count"]);
    let p = PacerSnapshot { current_interval_ms: 33, slow_ema: 0, healthy_streak: 4, last_tick_ms: 5 };
    assert_eq!(pacer_text(&Some(p), "0.25"), "33ms last=5ms ema=0.25 streak=4");
}

#[test]
fn a_mark_is_kept_as_a_line() {
    let names = vec!["inn".to_string(), "bay".to_string()];
    let line = mark_line(&names, &at(1), &written(), "0.5", 530);
    assert_eq!(
        line,
        "RawPosition::new(1, 1.5, -2, 3, 0.5, vec![\"inn\",\"bay\",], ValidVersions::new(false, true, true)),\n"
    );
    assert!(mark_line(&vec![], &at(1), &written(), "0", 571).ends_with("(false, false, true)),\n"));
    assert!(mark_line(&vec![], &at(1), &written(), "0", 0).ends_with("(false, false, false)),\n"));
    assert_eq!(marked_text("x"), "You added x");
}

#[test]
fn a_bot_is_alive_while_it_plays() {
    let mut m = Metrics::new();
    let mut at = BotStage::LoggingIn;
    live(&mut at, Happening::Login { ok: true }, &mut m);
    live(&mut at, Happening::Entry { ok: true }, &mut m);
    assert_eq!((at, m.bots_alive, m.auth_ok, m.world_ok), (BotStage::Playing, 1, 1, 1));
    live(&mut at, Happening::Read(BotRead::Message), &mut m);
    live(&mut at, Happening::Read(BotRead::UnknownOpcode { size: 3 }), &mut m);
    live(&mut at, Happening::Pinged { ok: true }, &mut m);
    live(&mut at, Happening::Moved { ok: true }, &mut m);
    assert_eq!((at, m.messages_in, m.messages_out), (BotStage::Playing, 1, 1));
    live(&mut at, Happening::Moved { ok: false }, &mut m);
    assert_eq!((at, m.bots_alive, m.send_errors), (BotStage::Over, 0, 1));
    live(&mut at, Happening::Shutdown, &mut m);
    assert_eq!(m.bots_alive, 0);
    let mut at = BotStage::LoggingIn;
    live(&mut at, Happening::Login { ok: false }, &mut m);
    assert_eq!((at, m.auth_fail, m.bots_alive), (BotStage::Over, 1, 0));
}

#[test]
fn a_movement_is_told_to_those_near_but_the_player() {
    let mut registry = PlayerRegistry::new();
    let mut map = MapState::new_empty(0, &TickConfig::default());
    let mut walker = player("Walker");
    walker.guid = 55;
    walker.info.orientation = 17;
    map.insert_client(Client::from_parts(walker.clone(), "A".to_string()), &mut registry);
    map.queue_movement(&walker, 0xb5);
    let flush = map.flush_movement_broadcasts(1);
    let mut out: Vec<Outgoing> = Vec::new();
    tell_of_moves(&flush.broadcasts, &mut out);
    assert_eq!(out.len(), 1);
    assert!(matches!(out[0].to, Audience::NearBut { map: 0, guid: 55, .. }));
    assert!(matches!(out[0].what, Notice::Moved { guid: 55, opcode: 0xb5, info } if info.orientation == 17));
}

#[test]
fn those_who_are_left_hear_who_is_gone() {
    let gone = vec![MapGuids { map: 1, guids: vec![5, 6] }, MapGuids { map: 0, guids: vec![7] }];
    let mut out: Vec<Outgoing> = Vec::new();
    tell_of_departures(&gone, &mut out);
    assert_eq!(out.len(), 2);
    assert!(matches!(out[0].to, Audience::OnMap { map: 1 }));
    assert!(matches!(&out[0].what, Notice::OutOfRange { guids } if *guids == vec![5, 6]));
    assert!(matches!(out[1].to, Audience::OnMap { map: 0 }));
    assert!(matches!(&out[1].what, Notice::OutOfRange { guids } if *guids == vec![7]));
}

#[test]
fn what_left_the_sight_is_withdrawn_before_the_rest_is_shown() {
    let mut registry = PlayerRegistry::new();
    let beast = Creature::new("Beast".to_string(), 300, at(0), &RespawnConfig::default(), 0);
    let (mut map, _) = MapState::build_map_state_with_creatures(0, vec![beast], &TickConfig::default());
    let mut keys = Vec::new();
    for guid in [55, 56] {
        let mut c = player("Viewer");
        c.guid = guid;
        keys.push(map.insert_client(Client::from_parts(c, "A".to_string()), &mut registry));
    }
    let changes = vec![
        AoiChange { departed: vec![9], entered: vec![300, 999, 56], fast_path: false, suppressed: 0 },
        AoiChange { departed: vec![], entered: vec![], fast_path: true, suppressed: 0 },
    ];
    let mut out: Vec<Outgoing> = Vec::new();
    map.tell_of_sight(&changes, &mut out);
    assert_eq!(out.len(), 3);
    assert!(out.iter().all(|o| matches!(o.to, Audience::One { key } if key == keys[0])));
    assert!(matches!(&out[0].what, Notice::OutOfRange { guids } if *guids == vec![9]));
    assert!(matches!(&out[1].what, Notice::ShowUnit { frame } if frame.guid == 300));
    assert!(matches!(out[2].what, Notice::ShowPlayer { guid: 56 }));
}

#[test]
fn the_dead_and_the_rooted_do_not_move() {
    let mut map = MapState::new_empty(0, &TickConfig::default());
    let mut c = player("Walker");
    c.guid = 55;
    let mut client = Client::from_parts(c, "A".to_string());
    let mut there = client.character.info;
    there.orientation = 17;
    client.character.root_until = Some(100);
    assert!(!map.hear_movement(&mut client, there, 0xb5, 99));
    assert_eq!(client.character.info.orientation, 0);
    assert!(map.flush_movement_broadcasts(1).broadcasts.is_empty());
    assert!(map.hear_movement(&mut client, there, 0xb5, 100));
    assert_eq!(client.character.info.orientation, 17);
    let flush = map.flush_movement_broadcasts(1);
    assert_eq!((flush.broadcasts[0].0, flush.broadcasts[0].1.opcode), (55, 0xb5));
    client.character.current_health = 0;
    assert!(!map.hear_movement(&mut client, there, 0xb7, 200));
    assert!(map.flush_movement_broadcasts(1).broadcasts.is_empty());
}

#[test]
fn a_race_goes_there_and_back() {
    let mut leg = Leg { index: 0, forward: true };
    let mut seen = vec![leg.index];
    for _ in 0..5 {
        leg = leg.next(3);
        seen.push(leg.index);
    }
    assert_eq!(seen, vec![0, 1, 2, 1, 0, 1]);
    let alone = Leg { index: 0, forward: true };
    assert_eq!(alone.next(1), alone);
}

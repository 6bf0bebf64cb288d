use rand::rngs::StdRng;
use rand::{RngExt, SeedableRng};
use wow_vanilla_server::loadtest::bot::{next_ping, observe_movement, react, world_address, BotRead, BotReadAction, Sight};
use wow_vanilla_server::loadtest::driver::{
    draw_phase, duration_for, phase_for, Bearing, Look, MoveOpcode, MovementDriver, Phase, Roll, Step,
};
use wow_vanilla_server::loadtest::handshake::{advance, prove, EntryFailure, NextStep, ServerSays, Stage};
use wow_vanilla_server::loadtest::login::{check_challenge, first_realm, LoginError, ServerChallenge};
use wow_vanilla_server::loadtest::metrics::{BotEvent, Metrics};
use wow_vanilla_server::loadtest::orchestrator::{answer, greeting, parse_line, Registry, ReplCommand, Worker};
use wow_vanilla_server::loadtest::profile::{
    host_prefix, profile_for, profile_from, seed_for, Rolls, ALL_RACE_CLASSES,
};
use wow_vanilla_server::loadtest::protocol::{
    encode_frame, frame_len, ToOrchestrator, ToWorker, WorkerMetrics, MAX_FRAME_BYTES,
};
use wow_vanilla_server::loadtest::pvp::PvpState;
use wow_vanilla_server::loadtest::race::{
    hardcoded_bb_to_arena, jitter_for_slot, race_path, tiles_between, BOOTY_BAY, GURUBASHI_ARENA,
};
use wow_vanilla_server::loadtest::worker::{
    bot_username, control, rates_since, stagger, to_stop, with_slot, ControlAction, ControlEvent,
};
use wow_vanilla_server::movement::{Place, FORWARD, STRAFE_LEFT};

const SECOND: u64 = 1_000_000_000;

fn place(x: f32) -> Place {
    Place { x: x.to_bits(), y: 0, z: 0, cell: (0, 0), grid: (0, 0) }
}

#[test]
fn a_frame_is_read_as_it_was_written() {
    let f = encode_frame(&vec![9; 300]).unwrap();
    assert_eq!(&f[..4], &[44, 1, 0, 0]);
    assert_eq!(frame_len([f[0], f[1], f[2], f[3]]), Ok(300));
    assert_eq!(&f[4..], &[9u8; 300][..]);
}

#[test]
fn a_frame_that_is_too_long_is_refused() {
    let n = MAX_FRAME_BYTES as u32;
    assert_eq!(frame_len(n.to_le_bytes()), Ok(MAX_FRAME_BYTES));
    assert_eq!(frame_len((n + 1).to_le_bytes()), Err("frame too large: 16777217".to_string()));
}

fn worker(id: &str) -> Worker {
    Worker { worker_id: id.to_string(), addr: "1.2.3.4:5".to_string(), last_metrics: None, last_seen: 0 }
}

#[test]
fn a_worker_that_connects_again_replaces_itself() {
    let mut r = Registry::new();
    let a = r.insert(worker("a"));
    let b = r.insert(worker("b"));
    assert_ne!(a, b);
    let again = r.insert(worker("a"));
    assert_eq!(r.keys().len(), 2);
    assert_eq!(r.get(again).map(|w| w.worker_id.as_str()), Some("a"));
    r.remove(b);
    assert_eq!(r.keys(), vec![again]);
    assert!(r.get(b).is_none());
}

#[test]
fn what_workers_count_is_summed() {
    let mut r = Registry::new();
    let a = r.insert(worker("a"));
    let b = r.insert(worker("b"));
    r.insert(worker("silent"));
    let m = |alive: u32, ok: u64| WorkerMetrics { bots_alive: alive, auth_ok: ok, ..WorkerMetrics::default() };
    assert!(r.receive(a, ToOrchestrator::Metrics(m(u32::MAX, 3)), 7));
    assert!(r.receive(b, ToOrchestrator::Metrics(m(5, 4)), 8));
    assert_eq!(r.get(b).map(|w| w.last_seen), Some(8));
    let (n, sum) = r.aggregate();
    assert_eq!((n, sum.alive, sum.auth_ok), (3, u32::MAX, 7));
    assert!(r.receive(a, ToOrchestrator::Hello { worker_id: "x".to_string(), started_at_unix: 0 }, 9));
    assert!(!r.receive(a, ToOrchestrator::Drained, 9));
}

#[test]
fn a_worker_greets_first() {
    let hello = ToOrchestrator::Hello { worker_id: "w".to_string(), started_at_unix: 1 };
    assert_eq!(greeting(hello), Some("w".to_string()));
    assert_eq!(greeting(ToOrchestrator::Drained), None);
}

#[test]
fn the_console_understands_its_commands() {
    let said = |line: &str| answer(&parse_line(line));
    assert_eq!(said("  spawn   12 "), "sent spawn 12 to all workers");
    assert!(matches!(parse_line("spawn 12"), ReplCommand::Tell { what: ToWorker::Spawn { count: 12 } }));
    assert_eq!(said("spawn"), "usage: spawn <N>");
    assert_eq!(said("spawn 0"), "usage: spawn <N>");
    assert_eq!(said("stop 3"), "sent stop 3 to all workers");
    assert_eq!(said("stop three"), "usage: stop <N>");
    assert_eq!(said("quit"), "draining all workers");
    assert_eq!(said("dance now"), "unknown command: dance");
    assert!(matches!(parse_line("status"), ReplCommand::Status));
    assert!(matches!(parse_line(" \t "), ReplCommand::Nothing));
}

#[test]
fn bots_are_started_evenly() {
    assert_eq!(stagger(60, 400), 150_000_000);
    assert_eq!(stagger(0, 400), 0);
    assert_eq!(stagger(60, 0), 0);
    assert_eq!(to_stop(&vec![1, 4, 9], 2), vec![1, 4]);
    assert_eq!(to_stop(&vec![1, 4, 9], 7), vec![1, 4, 9]);
}

#[test]
fn bots_are_numbered() {
    assert_eq!(bot_username("bot", 1), "BOT0001");
    assert_eq!(bot_username("Raid", 12345), "RAID12345");
    assert_eq!(with_slot("X", 120), "X0120");
}

#[test]
fn a_worker_connects_until_it_drains() {
    assert_eq!(control(ControlEvent::ConnectFailed), ControlAction::Reconnect { after: 5 * SECOND });
    assert_eq!(control(ControlEvent::Connected), ControlAction::SayHello);
    assert_eq!(control(ControlEvent::HelloSent), ControlAction::Listen);
    assert_eq!(control(ControlEvent::ReadFailed), ControlAction::Reconnect { after: 0 });
    assert_eq!(control(ControlEvent::Command { what: ToWorker::Drain }), ControlAction::DrainAndExit);
    assert_eq!(
        control(ControlEvent::Command { what: ToWorker::Stop { count: 2 } }),
        ControlAction::Stop { count: 2 }
    );
}

#[test]
fn a_worker_counts() {
    let mut m = Metrics::new();
    m.count(BotEvent::Asked { count: 4 });
    m.count(BotEvent::Alive);
    m.count(BotEvent::Alive);
    m.count(BotEvent::Gone);
    m.count(BotEvent::MessageIn);
    m.count(BotEvent::LoginFailed);
    assert_eq!((m.target_bots, m.bots_alive), (4, 1));
    let s = m.snapshot();
    assert_eq!((s.bots_alive, s.messages_in, s.auth_fail), (1, 1, 1));
    assert_eq!(rates_since(&s, 0, 5), (1, 0));
}

#[test]
fn a_bot_fights_until_somebody_is_dead() {
    let mut s = PvpState::new();
    s.acquire_target_if_needed(1, 0);
    assert_eq!(s.target(), None);
    s.observe(1, place(0.0), 0);
    s.acquire_target_if_needed(1, 0);
    assert_eq!(s.target(), None, "a bot does not fight itself");
    s.observe(2, place(5.0), 0);
    s.acquire_target_if_needed(1, 0);
    assert_eq!(s.target(), Some(2));
    assert_eq!(s.position_of(2).map(|p| p.x), Some(5.0f32.to_bits()));
    s.record_attack_seen(2, 60, 1, 0);
    assert_eq!(s.target(), Some(2));
    s.record_attack_seen(2, 40, 1, 0);
    assert_eq!(s.target(), None);
    s.record_attack_seen(1, 99, 1, 5);
    assert!(!s.is_dead());
    s.record_attack_seen(1, 1, 1, 6);
    assert!(s.is_dead());
}

#[test]
fn who_is_not_seen_is_forgotten() {
    let mut s = PvpState::new();
    s.observe(2, place(5.0), 0);
    s.engage(Some(2), 0);
    s.release_stale_target(30 * SECOND - 1);
    assert_eq!(s.target(), Some(2));
    s.record_attack_seen(2, 40, 1, 0);
    s.release_stale_target(30 * SECOND);
    assert_eq!(s.target(), None);
    assert!(!s.is_dead());
    s.observe(2, place(5.0), 0);
    s.engage(Some(2), 0);
    s.record_attack_seen(2, 60, 1, 0);
    assert_eq!(s.target(), Some(2));
    s.drop_target();
    s.acquire_target_if_needed(1, 30 * SECOND);
    assert_eq!(s.target(), None);
    assert!(s.position_of(2).is_none());
    s.engage(Some(2), 30 * SECOND);
    s.release_stale_target(30 * SECOND);
    assert_eq!(s.target(), None);
}

#[test]
fn a_bot_heeds_others() {
    let mut s = PvpState::new();
    observe_movement(&mut s, 1, Sight::Movement { guid: 1, position: place(1.0) }, 0);
    assert!(s.position_of(1).is_none());
    observe_movement(&mut s, 1, Sight::Movement { guid: 2, position: place(1.0) }, 0);
    assert!(s.position_of(2).is_some());
    observe_movement(&mut s, 1, Sight::Attack { target: 1, damage: 100 }, 0);
    assert!(s.is_dead());
    observe_movement(&mut s, 1, Sight::Other, 0);
    assert_eq!(react(BotRead::Message), BotReadAction::Count);
    assert_eq!(react(BotRead::UnknownOpcode { size: 3 }), BotReadAction::Skip { bytes: 3 });
    assert_eq!(react(BotRead::Malformed), BotReadAction::Leave);
    assert_eq!(react(BotRead::Broken), BotReadAction::Leave);
    assert_eq!(next_ping(0), 1);
    assert_eq!(next_ping(u32::MAX), 0);
    assert_eq!(world_address(&None, "realm"), "realm");
    assert_eq!(world_address(&Some("here".to_string()), "realm"), "here");
}

fn opcodes(steps: &[Step]) -> Vec<MoveOpcode> {
    steps
        .iter()
        .filter_map(|s| match s {
            Step::Move { opcode, .. } => Some(*opcode),
            _ => None,
        })
        .collect()
}

#[test]
fn a_bot_walks_at_random() {
    let mut d = MovementDriver::new(place(0.0), 0, 0);
    let roll = Roll { phase: Phase::Forward, orientation: 5, duration: SECOND };
    assert!(d.wants_roll(0));
    let steps = d.tick_random(roll, 0);
    assert_eq!(opcodes(&steps), vec![MoveOpcode::StartForward]);
    assert_eq!((d.info.flags, d.info.orientation), (FORWARD, 5));
    assert!(d.tick_random(roll, SECOND / 5).is_empty());
    let steps = d.tick_random(roll, SECOND / 4);
    assert!(matches!(steps[..], [Step::Heartbeat { elapsed: 250_000_000 }]));
    let idle = Roll { phase: Phase::Idle, orientation: 6, duration: SECOND };
    let steps = d.tick_random(idle, SECOND);
    assert_eq!(opcodes(&steps), vec![MoveOpcode::Stop]);
    assert_eq!(d.info.flags, 0);
}

#[test]
fn phases_last_as_long_as_they_may() {
    for _ in 0..200 {
        let (p, ns) = draw_phase();
        if p == Phase::Idle {
            assert!(ns >= SECOND / 2 && ns < 2 * SECOND);
        } else {
            assert!(ns >= SECOND && ns < 4 * SECOND);
        }
    }
    assert_eq!(phase_for(true, 1), Phase::Idle);
    assert_eq!(phase_for(false, 1), Phase::StrafeLeft);
    assert_eq!(duration_for(Phase::Idle, 10), 510_000_000);
}

fn bearing(dist: f32) -> Bearing {
    Bearing { dist_sq: (dist * dist).to_bits(), orientation: 9, turn: 1.0f32.to_bits() }
}

#[test]
fn a_bot_gathers_by_strafing() {
    let mut d = MovementDriver::new(place(0.0), 0, 0);
    assert_eq!(d.gather_at(place(3.0)).x, 3.0f32.to_bits());
    assert_eq!(d.gather_at(place(4.0)).x, 3.0f32.to_bits());
    assert_eq!(opcodes(&d.tick_gather(bearing(3.0), 0)), vec![MoveOpcode::StartStrafeLeft]);
    assert_eq!(d.info.flags, STRAFE_LEFT);
    let same = Bearing { turn: 0, ..bearing(3.0) };
    assert!(d.tick_gather(same, 1).is_empty());
    assert_eq!(opcodes(&d.tick_gather(bearing(0.5), 2)), vec![MoveOpcode::Stop]);
    assert!(d.tick_gather(bearing(0.5), 3).is_empty());
}

#[test]
fn a_bot_runs_up_and_hits_in_turn() {
    let mut d = MovementDriver::new(place(0.0), 0, 0);
    let mut s = PvpState::new();
    let (look, steps) = d.look_around(&mut s, 1, 0);
    assert!(matches!(look, Look::Nobody) && steps.is_empty());
    s.observe(2, place(50.0), 0);
    let (look, _) = d.look_around(&mut s, 1, 0);
    assert!(matches!(look, Look::Target { guid: 2, .. }));
    assert_eq!(opcodes(&d.tick_pvp(&mut s, 2, bearing(50.0), 0)), vec![MoveOpcode::StartForward]);
    let steps = d.tick_pvp(&mut s, 2, bearing(4.0), SECOND);
    assert!(matches!(steps.last(), Some(Step::Swing { guid: 2 })));
    let still = Bearing { turn: 0, ..bearing(4.0) };
    assert!(d.tick_pvp(&mut s, 2, still, 2 * SECOND).is_empty());
    assert_eq!(d.tick_pvp(&mut s, 2, still, 2_800_000_000).len(), 1);
}

#[test]
fn a_bot_gives_up_whom_it_does_not_reach() {
    let mut d = MovementDriver::new(place(0.0), 0, 0);
    let mut s = PvpState::new();
    s.observe(2, place(50.0), 0);
    d.look_around(&mut s, 1, 0);
    d.tick_pvp(&mut s, 2, bearing(50.0), 0);
    assert_eq!(s.target(), Some(2));
    let steps = d.tick_pvp(&mut s, 2, bearing(50.0), 5 * SECOND);
    assert_eq!(opcodes(&steps), vec![MoveOpcode::Stop]);
    assert_eq!(s.target(), None);
}

#[test]
fn the_dead_do_nothing() {
    let mut d = MovementDriver::new(place(0.0), 0, 0);
    let mut s = PvpState::new();
    s.record_attack_seen(1, 500, 1, 0);
    let (look, steps) = d.look_around(&mut s, 1, 1);
    assert!(matches!(look, Look::Dead) && steps.is_empty());
    d.stamp(7 * SECOND);
    assert_eq!(d.info.timestamp, 7000);
    d.set_position(place(2.0));
    assert_eq!(d.info.position.x, 2.0f32.to_bits());
}

#[test]
fn the_race_has_a_way_in_any_case() {
    assert_eq!(hardcoded_bb_to_arena().len(), 3);
    assert_eq!(race_path(None)[0], BOOTY_BAY);
    assert_eq!(race_path(None)[2], GURUBASHI_ARENA);
    assert_eq!(race_path(Some(vec![(1, 2, 3)])), vec![(1, 2, 3)]);
    assert_eq!(f32::from_bits(BOOTY_BAY.0), -14237.9);
    assert_eq!(f32::from_bits(GURUBASHI_ARENA.0), -13284.747);
}

#[test]
fn the_tiles_of_a_box_are_walked_in_order() {
    assert_eq!(tiles_between((3, 5), (2, 4)), vec![(2, 4), (2, 5), (3, 4), (3, 5)]);
    assert_eq!(tiles_between((7, 7), (7, 7)), vec![(7, 7)]);
}

#[test]
fn bots_keep_off_the_way_each_by_its_own() {
    let expected = |slot: u32| {
        let mut z = slot.wrapping_mul(0x9E37_79B9).wrapping_add(1);
        let mut next = || {
            z = z.wrapping_add(0x9E37_79B9);
            let mut h = z;
            h ^= h >> 16;
            h = h.wrapping_mul(0x85eb_ca6b);
            h ^= h >> 13;
            h = h.wrapping_mul(0xc2b2_ae35);
            h ^= h >> 16;
            h
        };
        (next(), next())
    };
    for slot in 0..50 {
        assert_eq!(jitter_for_slot(slot), expected(slot));
    }
    assert_ne!(jitter_for_slot(1), jitter_for_slot(2));
}

fn challenge() -> ServerChallenge {
    let mut key = [0u8; 32];
    key[0] = 5;
    ServerChallenge { server_public_key: key, generator: vec![7], large_safe_prime: vec![3; 32] }
}

#[test]
fn a_challenge_is_checked() {
    let c = check_challenge(&challenge(), "BOT0001").ok().expect("nothing is wrong");
    assert_eq!((c.generator, c.large_safe_prime), (7, [3; 32]));
    let fault = |c: ServerChallenge, name: &str| check_challenge(&c, name).err();
    assert_eq!(fault(ServerChallenge { generator: vec![], ..challenge() }, "B"), Some(LoginError::EmptyGenerator));
    assert_eq!(
        fault(ServerChallenge { large_safe_prime: vec![3; 31], ..challenge() }, "B"),
        Some(LoginError::BadPrime { len: 31 })
    );
    assert_eq!(fault(challenge(), ""), Some(LoginError::BadName));
    assert_eq!(
        fault(ServerChallenge { server_public_key: [0; 32], ..challenge() }, "B"),
        Some(LoginError::BadPublicKey)
    );
    assert_eq!(
        LoginError::BadPrime { len: 31 }.text(),
        "auth: expected 32-byte large safe prime, got 31 bytes"
    );
}

#[test]
fn the_first_realm_is_played() {
    let o = first_realm([1; 40], &vec!["a:1".to_string(), "b:2".to_string()]).ok().expect("there is a realm");
    assert_eq!(o.realm_address, "a:1");
    assert_eq!(first_realm([1; 40], &vec![]).err(), Some(LoginError::NoRealm));
}

#[test]
fn a_bot_makes_a_character_where_it_has_none() {
    let mut at = Stage::Challenge;
    assert_eq!(advance(&mut at, ServerSays::Challenge { seed: 3 }), NextStep::Prove { seed: 3 });
    assert_eq!(advance(&mut at, ServerSays::Response { ok: true }), NextStep::AskForCharacters);
    assert_eq!(advance(&mut at, ServerSays::Characters { first: None }), NextStep::CreateCharacter);
    assert_eq!(advance(&mut at, ServerSays::Creation { success: true }), NextStep::AskForCharacters);
    assert_eq!(advance(&mut at, ServerSays::Characters { first: Some(9) }), NextStep::Play { guid: 9 });
    assert_eq!(at, Stage::Playing);
}

#[test]
fn a_bot_gives_up_when_the_server_says_something_else() {
    let why = |at: Stage, said: ServerSays| {
        let mut at = at;
        match advance(&mut at, said) {
            NextStep::GiveUp { why } => Some(why),
            _ => None,
        }
    };
    assert_eq!(why(Stage::Challenge, ServerSays::Other), Some(EntryFailure::ExpectedChallenge));
    assert_eq!(why(Stage::Response, ServerSays::Other), Some(EntryFailure::ExpectedResponse));
    assert_eq!(why(Stage::Response, ServerSays::Response { ok: false }), Some(EntryFailure::Refused));
    assert_eq!(why(Stage::Characters, ServerSays::Other), Some(EntryFailure::ExpectedCharacters));
    assert_eq!(why(Stage::Creation, ServerSays::Other), Some(EntryFailure::ExpectedCreation));
    assert_eq!(why(Stage::Creation, ServerSays::Creation { success: false }), Some(EntryFailure::CreationFailed));
    assert_eq!(
        why(Stage::CharactersAgain, ServerSays::Characters { first: None }),
        Some(EntryFailure::NoCharacterAfterCreation)
    );
    assert_eq!(why(Stage::Playing, ServerSays::Other), Some(EntryFailure::NotWaiting));
}

#[test]
fn a_bot_proves_itself_to_the_server() {
    let key = [4u8; 40];
    let server = wow_srp::vanilla_header::ProofSeed::new();
    let p = prove("BOT0001", key, server.seed()).expect("the name is fine");
    let name = wow_srp::normalized_string::NormalizedString::new("BOT0001").unwrap();
    assert!(server.into_server_header_crypto(&name, key, p.client_proof, p.client_seed).is_ok());
    assert!(prove("", key, 0).is_none());
}

#[test]
fn hosts_give_prefixes() {
    assert_eq!(host_prefix("MyHost-42"), "myho");
    assert_eq!(host_prefix("x9"), "bot");
    assert_eq!(host_prefix("r2d2"), "rd");
    assert_eq!(host_prefix(""), "bot");
}

#[test]
fn a_bot_has_one_character() {
    let a = profile_for("BOT0001", "host");
    let b = profile_for("BOT0001", "host");
    assert_eq!(a.name, b.name);
    assert_eq!((a.race, a.class, a.gender, a.skin_color), (b.race, b.class, b.gender, b.skin_color));
    assert!(a.name.starts_with("Host") && a.name.len() == 9);
    assert!(ALL_RACE_CLASSES.contains(&(a.race, a.class)));
    assert!(a.skin_color < 6 && a.face < 4 && a.hair_style < 8 && a.hair_color < 6 && a.facial_hair < 6);
    let others: Vec<String> = (0..20).map(|i| profile_for(&with_slot("BOT", i), "host").name).collect();
    assert!(others.iter().any(|n| *n != others[0]));
    assert_ne!(seed_for("a"), seed_for("b"));
}

#[test]
fn a_character_is_drawn_from_the_seed() {
    let mut g = StdRng::seed_from_u64(seed_for("BOT0042"));
    let mut letters = String::new();
    for _ in 0..5 {
        let n: u8 = g.random_range(0..26);
        letters.push((b'a' + n) as char);
    }
    let (race, class) = ALL_RACE_CLASSES[g.random_range(0..ALL_RACE_CLASSES.len())];
    let male = g.random_bool(0.5);
    let looks: [u8; 5] = [
        g.random_range(0..6),
        g.random_range(0..4),
        g.random_range(0..8),
        g.random_range(0..6),
        g.random_range(0..6),
    ];
    let p = profile_for("BOT0042", "host");
    assert_eq!(p.name, format!("Host{letters}"));
    assert_eq!((p.race, p.class), (race, class));
    assert_eq!(p.gender, u8::from(!male));
    assert_eq!([p.skin_color, p.face, p.hair_style, p.hair_color, p.facial_hair], looks);
}

#[test]
fn a_character_is_what_was_drawn() {
    let r = Rolls {
        letters: [0, 1, 2, 24, 25],
        race_class: 14,
        male: false,
        skin_color: 1,
        face: 2,
        hair_style: 3,
        hair_color: 4,
        facial_hair: 5,
    };
    let p = profile_from("host", &r);
    assert_eq!(p.name, "Hostabcyz");
    assert_eq!((p.race, p.class, p.gender), (1, 1, 1));
    assert_eq!((p.skin_color, p.face, p.hair_style, p.hair_color, p.facial_hair), (1, 2, 3, 4, 5));
}

#[test]
fn races_and_classes_go_together() {
    for (r, c) in ALL_RACE_CLASSES {
        let race = wow_world_base::vanilla::Race::try_from(r).unwrap();
        let class = wow_world_base::vanilla::Class::try_from(c).unwrap();
        assert!(wow_world_base::vanilla::RaceClass::try_from((race, class)).is_ok());
    }
}

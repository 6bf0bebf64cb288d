use wow_vanilla_server::movement::Place;
use wow_vanilla_server::notice::{recipients, Audience, Bystander};
use wow_vanilla_server::numeric::{is_at_most, is_below};
use wow_vanilla_server::pacer::{rate_text, TickPacer, TickRateChange};
use wow_vanilla_server::phases::{skip, MapTick, Phase};
use wow_vanilla_server::tick::Census;

const MS: u64 = 1_000_000;
const TARGET_INTERVAL: u64 = 100 * MS;
const MAX_INTERVAL: u64 = 1000 * MS;

fn pacer() -> TickPacer {
    TickPacer::new(TARGET_INTERVAL, MAX_INTERVAL)
}

fn observe(p: &mut TickPacer, tick: u64) -> (u64, Option<TickRateChange>) {
    let alpha = f32::from_bits(p.slow_ema_alpha);
    let slow = if p.is_slow(tick) { 1.0 } else { 0.0 };
    let ema = alpha * slow + (1.0 - alpha) * f32::from_bits(p.slow_ema);
    let headroom = std::time::Duration::from_nanos(p.current_interval).mul_f32(f32::from_bits(p.recovery_hysteresis));
    p.observe(tick, ema.to_bits(), headroom.as_nanos() as u64)
}

#[test]
fn slow_streak_triggers_backoff() {
    let mut p = pacer();
    for _ in 0..100 {
        observe(&mut p, 1200 * MS);
    }
    assert_eq!(p.current_interval, MAX_INTERVAL);
}

#[test]
fn healthy_streak_triggers_recovery() {
    let mut p = pacer();
    for _ in 0..100 {
        observe(&mut p, 1200 * MS);
    }
    assert_eq!(p.current_interval, MAX_INTERVAL);
    for _ in 0..1000 {
        observe(&mut p, 50 * MS);
    }
    assert_eq!(p.current_interval, TARGET_INTERVAL);
}

#[test]
fn cap_at_target() {
    let mut p = pacer();
    for _ in 0..10_000 {
        observe(&mut p, 1000);
    }
    assert_eq!(p.current_interval, TARGET_INTERVAL);
}

#[test]
fn cap_at_max() {
    let mut p = pacer();
    for _ in 0..10_000 {
        observe(&mut p, 10_000 * MS);
    }
    assert_eq!(p.current_interval, MAX_INTERVAL);
}

#[test]
fn mixed_pattern_holds_steady() {
    let mut p = pacer();
    for i in 0..200 {
        let d = if i % 2 == 0 { 95 * MS } else { 30 * MS };
        observe(&mut p, d);
        assert_eq!(p.current_interval, TARGET_INTERVAL);
    }
}

#[test]
fn sleep_duration_clamps_at_zero() {
    let mut p = pacer();
    let (sleep_for, _) = observe(&mut p, 250 * MS);
    assert_eq!(sleep_for, 0);
}

#[test]
fn observe_reports_backoff_transition_once() {
    let mut p = pacer();
    let mut backoffs = 0;
    for _ in 0..40 {
        if let (_, Some(TickRateChange::Backoff { .. })) = observe(&mut p, 1200 * MS) {
            backoffs += 1;
        }
    }
    assert_eq!(backoffs, 4);
    assert_eq!(p.current_interval, MAX_INTERVAL);
}

#[test]
fn observe_reports_recovery_transition() {
    let mut p = pacer();
    for _ in 0..100 {
        observe(&mut p, 1200 * MS);
    }
    assert_eq!(p.current_interval, MAX_INTERVAL);
    let mut recoveries = 0;
    for _ in 0..1000 {
        if let (_, Some(TickRateChange::Recovery { .. })) = observe(&mut p, 50 * MS) {
            recoveries += 1;
        }
    }
    assert!(recoveries >= 1, "expected at least one Recovery event");
    assert_eq!(p.current_interval, TARGET_INTERVAL);
}

#[test]
fn a_change_of_the_rate_is_put_into_words() {
    assert_eq!(
        rate_text("Kalimdor", TickRateChange::Backoff { new_interval: 66_000_000 }, "15.2"),
        "[server] cell Kalimdor tickrate backoff: 66 ms (15.2 Hz)"
    );
    assert_eq!(
        rate_text("Kalimdor", TickRateChange::Recovery { new_interval: 33_999_999 }, "29.4"),
        "[server] cell Kalimdor tickrate recovery: 33 ms (29.4 Hz)"
    );
}

#[test]
fn a_tick_goes_through_its_phases_in_order() {
    let census = Census { clients: 3, creatures: 2, idle: 2, wander: 0, waypoint: 0, aggro: 0, walking: 0 };
    let mut tick = MapTick::begin(1);
    let mut seen = vec![tick.phase];
    for took in 1..11u64 {
        tick.finish(took);
        seen.push(tick.phase);
    }
    assert_eq!(
        seen,
        vec![
            Phase::Clients,
            Phase::View,
            Phase::Movement,
            Phase::Sight,
            Phase::Commands,
            Phase::Corpses,
            Phase::Creatures,
            Phase::Logouts,
            Phase::Stale,
            Phase::Changers,
            Phase::Done,
        ]
    );
    assert_eq!(tick.result.t_cell_total(), 36);
    assert_eq!((tick.result.t_per_client, tick.result.t_aoi, tick.result.t_logouts), (1, 4, 8));
    let report = tick.report(census);
    assert_eq!((report.map, report.skipped, report.census), (1, false, census));
    assert_eq!(report.t_cell_total(), 36);
    let left_out = skip(1, census);
    assert_eq!((left_out.map, left_out.skipped, left_out.census), (1, true, census));
    assert_eq!(left_out.t_cell_total(), 0);
    let done = tick;
    tick.finish(5);
    assert_eq!(tick, done);
}

#[test]
fn bit_patterns_compare_as_the_numbers_do() {
    let numbers: Vec<f32> = vec![
        f32::NEG_INFINITY,
        -2.5,
        -1.0e-40,
        -0.0,
        0.0,
        1.0e-40,
        1.0,
        200.0,
        f32::INFINITY,
        f32::NAN,
        -f32::NAN,
    ];
    for a in &numbers {
        for b in &numbers {
            assert_eq!(is_below(a.to_bits(), b.to_bits()), a < b, "{a} < {b}");
            assert_eq!(is_at_most(a.to_bits(), b.to_bits()), a <= b, "{a} <= {b}");
        }
    }
}

#[test]
fn a_notice_goes_to_those_near_on_the_same_map() {
    let place = Place { x: 0, y: 0, z: 0, cell: (0, 0), grid: (0, 0) };
    let all = vec![
        Bystander { key: 4, guid: 40, map: 0, dist_sq: 100.0_f32.to_bits() },
        Bystander { key: 7, guid: 70, map: 1, dist_sq: 1.0_f32.to_bits() },
        Bystander { key: 9, guid: 90, map: 0, dist_sq: 101.0_f32.to_bits() },
    ];
    let radius_sq = 100.0_f32.to_bits();
    assert_eq!(recipients(Audience::Near { map: 0, place }, &all, radius_sq), vec![4]);
    assert!(recipients(Audience::NearBut { map: 0, place, guid: 40 }, &all, radius_sq).is_empty());
    assert_eq!(recipients(Audience::NearBut { map: 0, place, guid: 90 }, &all, radius_sq), vec![4]);
    assert_eq!(recipients(Audience::OnMap { map: 0 }, &all, radius_sq), vec![4, 9]);
    assert_eq!(recipients(Audience::One { key: 7 }, &all, radius_sq), vec![7]);
    assert!(recipients(Audience::Handled, &all, radius_sq).is_empty());
}

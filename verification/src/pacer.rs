//! The adaptive tick rate.
use crate::clock::MILLISECOND;
use crate::config::TickConfig;
use crate::numeric;
use crate::text;
use vstd::prelude::*;

verus! {

/// Watches how long ticks take and stretches or shortens the interval between
/// them: sustained slow ticks double it, a streak of fast ones halves it.
#[derive(Debug, Clone, Copy)]
pub struct TickPacer {
    pub target_interval: u64,
    pub max_interval: u64,
    pub current_interval: u64,
    /// The moving average of "the tick was slow", from none to all.
    pub slow_ema: u32,
    pub healthy_streak: u32,
    pub slow_ema_alpha: u32,
    pub backoff_threshold: u32,
    pub recovery_hysteresis: u32,
    pub recovery_healthy_streak: u32,
}

/// What an observed tick did to the interval.
#[derive(Debug, Clone, Copy, PartialEq, Eq, Structural)]
pub enum TickRateChange {
    Backoff { new_interval: u64 },
    Recovery { new_interval: u64 },
}

/// Twice the interval, at most `max`.
pub open spec fn stretched(interval: u64, max: u64) -> u64 {
    if interval * 2 < max {
        (interval * 2) as u64
    } else {
        max
    }
}

/// Half the interval, at least `target`.
pub open spec fn shortened(interval: u64, target: u64) -> u64 {
    if interval / 2 > target {
        interval / 2
    } else {
        target
    }
}

impl TickPacer {
    /// The interval never leaves the range that the configuration gives it.
    pub open spec fn wf(&self) -> bool {
        &&& self.target_interval <= self.current_interval
        &&& self.current_interval <= self.max_interval || self.current_interval == self.target_interval
    }

    pub fn new(target_interval: u64, max_interval: u64) -> (r: Self)
        ensures
            r.wf(),
            r == (TickPacer {
                target_interval,
                max_interval,
                current_interval: target_interval,
                slow_ema: 0,
                healthy_streak: 0,
                slow_ema_alpha: 0x3e4c_cccd,
                backoff_threshold: 0x3f00_0000,
                recovery_hysteresis: 0x3f19_999a,
                recovery_healthy_streak: 30,
            }),
    {
        let cfg = TickConfig::default();
        TickPacer {
            target_interval,
            max_interval,
            current_interval: target_interval,
            slow_ema: 0,
            healthy_streak: 0,
            slow_ema_alpha: cfg.slow_ema_alpha,
            backoff_threshold: cfg.backoff_threshold,
            recovery_hysteresis: cfg.recovery_hysteresis,
            recovery_healthy_streak: cfg.recovery_healthy_streak,
        }
    }

    pub fn new_from_config(cfg: &TickConfig) -> (r: Self)
        ensures
            r.wf(),
            r == (TickPacer {
                target_interval: crate::config::span_spec(cfg.target_interval_ms, crate::clock::MILLISECOND),
                max_interval: crate::config::span_spec(cfg.max_interval_ms, crate::clock::MILLISECOND),
                current_interval: crate::config::span_spec(cfg.target_interval_ms, crate::clock::MILLISECOND),
                slow_ema: 0,
                healthy_streak: 0,
                slow_ema_alpha: cfg.slow_ema_alpha,
                backoff_threshold: cfg.backoff_threshold,
                recovery_hysteresis: cfg.recovery_hysteresis,
                recovery_healthy_streak: cfg.recovery_healthy_streak,
            }),
    {
        TickPacer {
            target_interval: cfg.target_interval(),
            max_interval: cfg.max_interval(),
            current_interval: cfg.target_interval(),
            slow_ema: 0,
            healthy_streak: 0,
            slow_ema_alpha: cfg.slow_ema_alpha,
            backoff_threshold: cfg.backoff_threshold,
            recovery_hysteresis: cfg.recovery_hysteresis,
            recovery_healthy_streak: cfg.recovery_healthy_streak,
        }
    }

    /// Whether a tick of that length is slow.
    pub fn is_slow(&self, tick_duration: u64) -> (r: bool)
        ensures
            r == (tick_duration > self.current_interval),
    {
        tick_duration > self.current_interval
    }

    /// Whether the interval is to be stretched, given the new average.
    pub open spec fn backs_off(&self, slow_ema: u32) -> bool {
        numeric::below(self.backoff_threshold, slow_ema) && self.current_interval < self.max_interval
    }

    /// The streak of fast ticks after one more tick.
    pub open spec fn streak_after(&self, tick_duration: u64, headroom: u64) -> u32 {
        if tick_duration <= headroom {
            if self.healthy_streak == u32::MAX {
                u32::MAX
            } else {
                (self.healthy_streak + 1) as u32
            }
        } else if tick_duration > self.current_interval {
            0
        } else {
            self.healthy_streak
        }
    }

    /// The pacer after a tick that took `tick_duration`.
    pub open spec fn observed(&self, tick_duration: u64, slow_ema: u32, headroom: u64) -> (
        TickPacer,
        Option<TickRateChange>,
    ) {
        if self.backs_off(slow_ema) {
            let new_interval = stretched(self.current_interval, self.max_interval);
            (
                TickPacer { current_interval: new_interval, slow_ema: 0, healthy_streak: 0, ..*self },
                Some(TickRateChange::Backoff { new_interval }),
            )
        } else {
            let streak = self.streak_after(tick_duration, headroom);
            if streak >= self.recovery_healthy_streak && self.current_interval > self.target_interval {
                let new_interval = shortened(self.current_interval, self.target_interval);
                (
                    TickPacer { current_interval: new_interval, slow_ema, healthy_streak: 0, ..*self },
                    Some(TickRateChange::Recovery { new_interval }),
                )
            } else {
                (TickPacer { slow_ema, healthy_streak: streak, ..*self }, None)
            }
        }
    }

    /// Take note of a tick that took `tick_duration`. The caller keeps the
    /// average: `slow_ema` is its new value. `headroom` is the part of the
    /// interval within which a tick counts as fast. Returns how long to sleep,
    /// and the change of the interval, if there is one.
    pub fn observe(&mut self, tick_duration: u64, slow_ema: u32, headroom: u64) -> (r: (u64, Option<TickRateChange>))
        ensures
            *final(self) == old(self).observed(tick_duration, slow_ema, headroom).0,
            r.1 == old(self).observed(tick_duration, slow_ema, headroom).1,
            r.0 as int == (if final(self).current_interval >= tick_duration {
                final(self).current_interval - tick_duration
            } else {
                0
            }),
            old(self).wf() ==> final(self).wf(),
    {
        let slow: bool = tick_duration > self.current_interval;
        self.slow_ema = slow_ema;
        let mut change: Option<TickRateChange> = None;
        if numeric::is_below(self.backoff_threshold, self.slow_ema) && self.current_interval < self.max_interval {
            let new_interval: u64 = if self.current_interval < self.max_interval - self.current_interval {
                self.current_interval * 2
            } else {
                self.max_interval
            };
            self.current_interval = new_interval;
            self.slow_ema = 0;
            self.healthy_streak = 0;
            change = Some(TickRateChange::Backoff { new_interval });
        } else {
            if tick_duration <= headroom {
                self.healthy_streak = self.healthy_streak.saturating_add(1);
            } else if slow {
                self.healthy_streak = 0;
            }
            if self.healthy_streak >= self.recovery_healthy_streak && self.current_interval > self.target_interval {
                let half: u64 = self.current_interval / 2;
                let new_interval: u64 = if half > self.target_interval {
                    half
                } else {
                    self.target_interval
                };
                self.current_interval = new_interval;
                self.healthy_streak = 0;
                change = Some(TickRateChange::Recovery { new_interval });
            }
        }
        (self.current_interval.saturating_sub(tick_duration), change)
    }
}

/// How a change of the rate is called.
pub open spec fn change_name(change: TickRateChange) -> Seq<char> {
    match change {
        TickRateChange::Backoff { .. } => "backoff"@,
        TickRateChange::Recovery { .. } => "recovery"@,
    }
}

/// The interval after a change.
pub open spec fn changed_to(change: TickRateChange) -> u64 {
    match change {
        TickRateChange::Backoff { new_interval } => new_interval,
        TickRateChange::Recovery { new_interval } => new_interval,
    }
}

/// What the players of a map are told when its rate changes. `hz` is the new rate,
/// written out.
pub fn rate_text(map: &str, change: TickRateChange, hz: &str) -> (r: String)
    ensures
        r@ == "[server] cell "@ + map@ + " tickrate "@ + change_name(change) + ": "@ + text::decimal(
            (changed_to(change) / MILLISECOND) as nat,
        ) + " ms ("@ + hz@ + " Hz)"@,
{
    let (name, interval): (&str, u64) = match change {
        TickRateChange::Backoff { new_interval } => ("backoff", new_interval),
        TickRateChange::Recovery { new_interval } => ("recovery", new_interval),
    };
    let ms: String = text::to_decimal(interval / MILLISECOND);
    let mut r: String = text::join5("[server] cell ", map, " tickrate ", name, ": ");
    r.append(ms.as_str());
    r.append(" ms (");
    r.append(hz);
    r.append(" Hz)");
    r
}

/// A pacer that starts at its target stays between its target and its maximum,
/// whatever it observes.
pub proof fn the_interval_stays_in_range(p: TickPacer, tick_duration: u64, slow_ema: u32, headroom: u64)
    requires
        p.wf(),
    ensures
        p.observed(tick_duration, slow_ema, headroom).0.wf(),
        p.observed(tick_duration, slow_ema, headroom).0.target_interval == p.target_interval,
        p.observed(tick_duration, slow_ema, headroom).0.max_interval == p.max_interval,
{
}

/// A change is reported if and only if the interval changed, and it says to
/// what.
pub proof fn a_change_is_reported_once(p: TickPacer, tick_duration: u64, slow_ema: u32, headroom: u64)
    requires
        p.wf(),
        p.current_interval > 0,
    ensures
        match p.observed(tick_duration, slow_ema, headroom).1 {
            Some(TickRateChange::Backoff { new_interval }) => new_interval > p.current_interval && new_interval
                == p.observed(tick_duration, slow_ema, headroom).0.current_interval,
            Some(TickRateChange::Recovery { new_interval }) => new_interval < p.current_interval && new_interval
                == p.observed(tick_duration, slow_ema, headroom).0.current_interval,
            None => p.current_interval == p.observed(tick_duration, slow_ema, headroom).0.current_interval,
        },
{
}

/// The interval is doubled, up to the longest, when ticks are slow too often; it is halved,
/// down to the target, after a streak of fast ones; else it stays. Then what is left of it is
/// slept.
pub proof fn the_interval_follows_the_ticks(
    p: &mut TickPacer,
    took: u64,
    slow_ema: u32,
    headroom: u64,
    r: (u64, Option<TickRateChange>),
)
    requires
        old(p).wf(),
        call_ensures(TickPacer::observe, (p, took, slow_ema, headroom), r),
        slow_ema <= 0x7f80_0000,
        old(p).backoff_threshold <= 0x7f80_0000,
    ensures
        ({
            let cur = old(p).current_interval;
            let backs = slow_ema > old(p).backoff_threshold && cur < old(p).max_interval;
            let streak: int = if took <= headroom {
                if old(p).healthy_streak < u32::MAX {
                    old(p).healthy_streak + 1
                } else {
                    u32::MAX as int
                }
            } else if took > cur {
                0
            } else {
                old(p).healthy_streak as int
            };
            let recovers = !backs && streak >= old(p).recovery_healthy_streak && cur > old(p).target_interval;
            &&& backs && 2 * cur <= old(p).max_interval ==> final(p).current_interval == 2 * cur
            &&& backs && 2 * cur > old(p).max_interval ==> final(p).current_interval == old(p).max_interval
            &&& backs ==> r.1 == Some(TickRateChange::Backoff { new_interval: final(p).current_interval }) && final(p).slow_ema == 0 && final(p).healthy_streak == 0
            &&& recovers && cur / 2 >= old(p).target_interval ==> final(p).current_interval == cur / 2
            &&& recovers && cur / 2 < old(p).target_interval ==> final(p).current_interval == old(p).target_interval
            &&& recovers ==> r.1 == Some(TickRateChange::Recovery { new_interval: final(p).current_interval }) && final(p).healthy_streak == 0 && final(p).slow_ema == slow_ema
            &&& !backs && !recovers ==> r.1 is None && final(p).current_interval == cur && final(p).healthy_streak
                == streak && final(p).slow_ema == slow_ema
        }),
        took <= final(p).current_interval ==> r.0 == final(p).current_interval - took,
        took > final(p).current_interval ==> r.0 == 0,
        final(p).target_interval == old(p).target_interval && final(p).max_interval == old(p).max_interval && final(p).backoff_threshold == old(p).backoff_threshold && final(p).recovery_healthy_streak == old(p).recovery_healthy_streak,
{
}

/// A pacer starts at its target, and a tick is slow if it takes longer than the interval.
pub proof fn a_pacer_starts_at_its_target(target: u64, max: u64, r: TickPacer, p: &TickPacer, took: u64, slow: bool)
    requires
        call_ensures(TickPacer::new, (target, max), r),
        call_ensures(TickPacer::is_slow, (p, took), slow),
    ensures
        r.current_interval == target && r.target_interval == target && r.max_interval == max,
        r.slow_ema == 0 && r.healthy_streak == 0 && r.recovery_healthy_streak == 30,
        r.backoff_threshold == 0x3f00_0000 && r.slow_ema_alpha == 0x3e4c_cccd && r.recovery_hysteresis == 0x3f19_999a,
        slow <==> took > p.current_interval,
{
}

/// A pacer that is configured goes by what is configured, in milliseconds.
pub proof fn a_pacer_goes_by_its_configuration(cfg: &TickConfig, r: TickPacer)
    requires
        call_ensures(TickPacer::new_from_config, (cfg,), r),
        cfg.target_interval_ms * 1_000_000 <= u64::MAX,
        cfg.max_interval_ms * 1_000_000 <= u64::MAX,
    ensures
        r.target_interval == cfg.target_interval_ms * 1_000_000,
        r.max_interval == cfg.max_interval_ms * 1_000_000,
        r.current_interval == r.target_interval,
        r.slow_ema_alpha == cfg.slow_ema_alpha && r.backoff_threshold == cfg.backoff_threshold && r.recovery_hysteresis
            == cfg.recovery_hysteresis && r.recovery_healthy_streak == cfg.recovery_healthy_streak,
{
}

} // verus!

//! A worker: how it starts and stops bots.
use crate::clock;
use crate::loadtest::protocol::{ToWorker, WorkerMetrics};
use crate::text;
use vstd::prelude::*;
use vstd::string::StringExecFns;

verus! {

#[derive(Debug)]
pub struct WorkerConfig {
    pub worker_id: String,
    pub auth_addr: String,
    pub world_addr_override: Option<String>,
    pub username_prefix: String,
    /// How many bots there are from the start.
    pub initial_clients: u32,
    /// Over how many seconds bots are started; 0 is as fast as it goes.
    pub ramp_up_secs: u32,
    /// Where the orchestrator is; without one the worker runs by itself.
    pub orchestrator: Option<String>,
}

/// The pause between two bots that are started: they come evenly over the time of
/// the ramp, to the millisecond.
pub open spec fn stagger_of(ramp_up_secs: u32, count: u32) -> int {
    if ramp_up_secs > 0 && count > 0 {
        (ramp_up_secs * 1000) / (count as int) * clock::MILLISECOND
    } else {
        0
    }
}

pub fn stagger(ramp_up_secs: u32, count: u32) -> (r: u64)
    ensures
        r == stagger_of(ramp_up_secs, count),
{
    if ramp_up_secs > 0 && count > 0 {
        let ms: u64 = (ramp_up_secs as u64 * 1000) / count as u64;
        assert(ms <= ramp_up_secs * 1000) by (nonlinear_arith)
            requires
                ms == (ramp_up_secs * 1000) / (count as int),
                count > 0,
        ;
        ms * clock::MILLISECOND
    } else {
        0
    }
}

/// Bots do not come slower than the ramp says.
pub proof fn the_ramp_is_kept(ramp_up_secs: u32, count: u32)
    ensures
        stagger_of(ramp_up_secs, count) * count <= ramp_up_secs * clock::SECOND,
{
    if ramp_up_secs > 0 && count > 0 {
        let n = ramp_up_secs * 1000;
        let c = count as int;
        assert((n / c) * c <= n) by (nonlinear_arith)
            requires
                c > 0,
                n >= 0,
        ;
        let q = n / c;
        let ms = clock::MILLISECOND as int;
        assert((q * ms) * c == (q * c) * ms) by (nonlinear_arith);
        assert((q * c) * ms <= n * ms) by (nonlinear_arith)
            requires
                q * c <= n,
                ms >= 0,
        ;
    } else {
        assert(0 * count == 0);
    }
}

/// A number with at least four digits.
pub open spec fn four_digits(n: nat) -> Seq<char> {
    let d = text::decimal(n);
    if n < 10 {
        "000"@ + d
    } else if n < 100 {
        "00"@ + d
    } else if n < 1000 {
        "0"@ + d
    } else {
        d
    }
}

/// The name that the bot in a slot goes by: the prefix in upper case and the slot.
pub fn bot_username(prefix: &str, slot: u32) -> (r: String)
    ensures
        r@ == text::uppercased(prefix@) + four_digits(slot as nat),
{
    let upper = text::to_uppercase(prefix);
    with_slot(upper.as_str(), slot)
}

/// A name with a slot behind it.
pub fn with_slot(upper: &str, slot: u32) -> (r: String)
    ensures
        r@ == upper@ + four_digits(slot as nat),
{
    let mut r = upper.to_string();
    let digits = text::to_decimal(slot as u64);
    proof {
        reveal_strlit("000");
        reveal_strlit("00");
        reveal_strlit("0");
    }
    if slot < 10 {
        r.append("000");
    } else if slot < 100 {
        r.append("00");
    } else if slot < 1000 {
        r.append("0");
    }
    r.append(digits.as_str());
    assert(r@ =~= upper@ + four_digits(slot as nat));
    r
}

/// The bots that are stopped, of those that run, by their keys: the first ones.
pub fn to_stop(keys: &Vec<usize>, count: u32) -> (r: Vec<usize>)
    ensures
        r@ == (if count < keys@.len() {
            keys@.take(count as int)
        } else {
            keys@
        }),
{
    let mut r: Vec<usize> = Vec::new();
    let mut i: usize = 0;
    assert(r@ =~= keys@.take(0));
    while i < keys.len() && (i as u64) < count as u64
        invariant
            i <= keys@.len(),
            i <= count,
            r@ == keys@.take(i as int),
        decreases keys.len() - i,
    {
        r.push(keys[i]);
        i += 1;
        assert(r@ =~= keys@.take(i as int));
    }
    assert(keys@.take(keys@.len() as int) =~= keys@);
    r
}

/// How many messages went in and out since the last time.
pub open spec fn rates(now: WorkerMetrics, before_in: u64, before_out: u64) -> (u64, u64) {
    (
        if now.messages_in > before_in {
            (now.messages_in - before_in) as u64
        } else {
            0
        },
        if now.messages_out > before_out {
            (now.messages_out - before_out) as u64
        } else {
            0
        },
    )
}

pub fn rates_since(now: &WorkerMetrics, before_in: u64, before_out: u64) -> (r: (u64, u64))
    ensures
        r == rates(*now, before_in, before_out),
{
    (now.messages_in.saturating_sub(before_in), now.messages_out.saturating_sub(before_out))
}

/// What happened between a worker and its orchestrator.
#[derive(Debug, Clone, Copy, PartialEq, Eq, Structural)]
pub enum ControlEvent {
    ConnectFailed,
    Connected,
    HelloFailed,
    HelloSent,
    ReadFailed,
    Command { what: ToWorker },
}

/// What a worker does about it.
#[derive(Debug, Clone, Copy, PartialEq, Eq, Structural)]
pub enum ControlAction {
    /// Connect again after that time.
    Reconnect { after: u64 },
    SayHello,
    Listen,
    Spawn { count: u32 },
    Stop { count: u32 },
    /// Stop every bot, and end.
    DrainAndExit,
}

pub open spec fn controlled(e: ControlEvent) -> ControlAction {
    match e {
        ControlEvent::ConnectFailed => ControlAction::Reconnect { after: (5 * clock::SECOND) as u64 },
        ControlEvent::Connected => ControlAction::SayHello,
        ControlEvent::HelloFailed => ControlAction::Reconnect { after: (5 * clock::SECOND) as u64 },
        ControlEvent::HelloSent => ControlAction::Listen,
        ControlEvent::ReadFailed => ControlAction::Reconnect { after: 0 },
        ControlEvent::Command { what } => match what {
            ToWorker::Spawn { count } => ControlAction::Spawn { count },
            ToWorker::Stop { count } => ControlAction::Stop { count },
            ToWorker::Drain => ControlAction::DrainAndExit,
        },
    }
}

/// A worker connects until it is told to drain.
pub fn control(e: ControlEvent) -> (r: ControlAction)
    ensures
        r == controlled(e),
{
    match e {
        ControlEvent::ConnectFailed => ControlAction::Reconnect { after: 5 * clock::SECOND },
        ControlEvent::Connected => ControlAction::SayHello,
        ControlEvent::HelloFailed => ControlAction::Reconnect { after: 5 * clock::SECOND },
        ControlEvent::HelloSent => ControlAction::Listen,
        ControlEvent::ReadFailed => ControlAction::Reconnect { after: 0 },
        ControlEvent::Command { what } => match what {
            ToWorker::Spawn { count } => ControlAction::Spawn { count },
            ToWorker::Stop { count } => ControlAction::Stop { count },
            ToWorker::Drain => ControlAction::DrainAndExit,
        },
    }
}

/// Bots start evenly over the ramp, to the millisecond; without a ramp, all at once. The
/// first of those that run are stopped, as many as are asked for.
pub proof fn bots_start_and_stop_evenly(
    ramp_up_secs: u32,
    count: u32,
    r: u64,
    keys: &Vec<usize>,
    n: u32,
    stopped: Vec<usize>,
    i: int,
)
    requires
        call_ensures(stagger, (ramp_up_secs, count), r),
        call_ensures(to_stop, (keys, n), stopped),
    ensures
        ramp_up_secs == 0 || count == 0 ==> r == 0,
        ramp_up_secs > 0 && count > 0 ==> r == ramp_up_secs * 1000 / (count as int) * 1_000_000,
        n <= keys@.len() ==> stopped@.len() == n,
        n > keys@.len() ==> stopped@.len() == keys@.len(),
        0 <= i < stopped@.len() ==> stopped@[i] == keys@[i],
{
}

/// A worker connects again, after five seconds where that or the greeting failed and at once
/// where reading did, and does what it is told; it ends when it is told to drain.
pub proof fn a_worker_does_as_told(e: ControlEvent, r: ControlAction, n: u32)
    requires
        call_ensures(control, (e,), r),
    ensures
        e is ConnectFailed || e is HelloFailed ==> r == (ControlAction::Reconnect { after: 5_000_000_000 }),
        e is ReadFailed ==> r == (ControlAction::Reconnect { after: 0 }),
        e is Connected ==> r is SayHello,
        e is HelloSent ==> r is Listen,
        e == (ControlEvent::Command { what: ToWorker::Spawn { count: n } }) ==> r == (ControlAction::Spawn { count: n }),
        e == (ControlEvent::Command { what: ToWorker::Stop { count: n } }) ==> r == (ControlAction::Stop { count: n }),
        e == (ControlEvent::Command { what: ToWorker::Drain }) <==> r is DrainAndExit,
{
}

/// Rates are what the counters rose by, and nothing where they fell.
pub proof fn rates_are_differences(now: &WorkerMetrics, before_in: u64, before_out: u64, r: (u64, u64))
    requires
        call_ensures(rates_since, (now, before_in, before_out), r),
    ensures
        now.messages_in >= before_in ==> r.0 == now.messages_in - before_in,
        now.messages_in < before_in ==> r.0 == 0,
        now.messages_out >= before_out ==> r.1 == now.messages_out - before_out,
        now.messages_out < before_out ==> r.1 == 0,
{
}

/// The name of a bot is the prefix and its slot, in four digits or as many as it takes.
pub proof fn a_bot_is_named_after_its_slot(upper: &str, slot: u32, r: String)
    requires
        call_ensures(with_slot, (upper, slot), r),
    ensures
        r@.take(upper@.len() as int) == upper@,
        slot < 10000 ==> r@.len() == upper@.len() + 4,
        slot < 10000 ==> r@.last() as int == '0' as int + slot % 10,
        slot < 10000 ==> r@[upper@.len() as int + 2] as int == '0' as int + slot / 10 % 10,
        slot < 10000 ==> r@[upper@.len() as int + 1] as int == '0' as int + slot / 100 % 10,
        slot < 10000 ==> r@[upper@.len() as int] as int == '0' as int + slot / 1000,
{
    reveal_strlit("000");
    reveal_strlit("00");
    reveal_strlit("0");
    assert(r@.take(upper@.len() as int) =~= upper@);
    let n = slot as nat;
    let a = text::decimal(n / 10);
    let b = text::decimal(n / 10 / 10);
    let c = text::decimal(n / 10 / 10 / 10);
    if n < 10000 {
        assert(n / 10 / 10 == n / 100);
        assert(n / 10 / 10 / 10 == n / 1000);
        if n >= 10 {
            assert(text::decimal(n).len() == a.len() + 1);
        }
        if n >= 100 {
            assert(a.len() == b.len() + 1);
        }
        if n >= 1000 {
            assert(b.len() == c.len() + 1);
        }
    }
}

} // verus!

//! What a worker counts.
use crate::loadtest::protocol::WorkerMetrics;
use vstd::prelude::*;

verus! {

/// The counters of a worker. They begin anew past their largest number.
#[derive(Debug, Clone, Copy, PartialEq, Eq, Structural)]
pub struct Metrics {
    pub bots_alive: u32,
    /// How many bots the worker was asked for.
    pub target_bots: u32,
    pub auth_ok: u64,
    pub auth_fail: u64,
    pub world_ok: u64,
    pub world_fail: u64,
    pub bytes_in: u64,
    pub bytes_out: u64,
    pub send_errors: u64,
    pub messages_in: u64,
    pub messages_out: u64,
}

/// What is counted.
#[derive(Debug, Clone, Copy, PartialEq, Eq, Structural)]
pub enum BotEvent {
    Asked { count: u32 },
    LoggedIn,
    LoginFailed,
    Entered,
    EntryFailed,
    Alive,
    Gone,
    MessageIn,
    MessageOut,
    SendError,
}

impl Metrics {
    pub open spec fn counted(self, e: BotEvent) -> Metrics {
        match e {
            BotEvent::Asked { count } => Metrics { target_bots: self.target_bots.wrapping_add(count), ..self },
            BotEvent::LoggedIn => Metrics { auth_ok: self.auth_ok.wrapping_add(1), ..self },
            BotEvent::LoginFailed => Metrics { auth_fail: self.auth_fail.wrapping_add(1), ..self },
            BotEvent::Entered => Metrics { world_ok: self.world_ok.wrapping_add(1), ..self },
            BotEvent::EntryFailed => Metrics { world_fail: self.world_fail.wrapping_add(1), ..self },
            BotEvent::Alive => Metrics { bots_alive: self.bots_alive.wrapping_add(1), ..self },
            BotEvent::Gone => Metrics { bots_alive: self.bots_alive.wrapping_sub(1), ..self },
            BotEvent::MessageIn => Metrics { messages_in: self.messages_in.wrapping_add(1), ..self },
            BotEvent::MessageOut => Metrics { messages_out: self.messages_out.wrapping_add(1), ..self },
            BotEvent::SendError => Metrics { send_errors: self.send_errors.wrapping_add(1), ..self },
        }
    }

    pub fn new() -> (r: Self)
        ensures
            r == (Metrics {
                bots_alive: 0,
                target_bots: 0,
                auth_ok: 0,
                auth_fail: 0,
                world_ok: 0,
                world_fail: 0,
                bytes_in: 0,
                bytes_out: 0,
                send_errors: 0,
                messages_in: 0,
                messages_out: 0,
            }),
    {
        Metrics {
            bots_alive: 0,
            target_bots: 0,
            auth_ok: 0,
            auth_fail: 0,
            world_ok: 0,
            world_fail: 0,
            bytes_in: 0,
            bytes_out: 0,
            send_errors: 0,
            messages_in: 0,
            messages_out: 0,
        }
    }

    pub fn count(&mut self, e: BotEvent)
        ensures
            *final(self) == old(self).counted(e),
    {
        match e {
            BotEvent::Asked { count } => {
                self.target_bots = self.target_bots.wrapping_add(count);
            },
            BotEvent::LoggedIn => {
                self.auth_ok = self.auth_ok.wrapping_add(1);
            },
            BotEvent::LoginFailed => {
                self.auth_fail = self.auth_fail.wrapping_add(1);
            },
            BotEvent::Entered => {
                self.world_ok = self.world_ok.wrapping_add(1);
            },
            BotEvent::EntryFailed => {
                self.world_fail = self.world_fail.wrapping_add(1);
            },
            BotEvent::Alive => {
                self.bots_alive = self.bots_alive.wrapping_add(1);
            },
            BotEvent::Gone => {
                self.bots_alive = self.bots_alive.wrapping_sub(1);
            },
            BotEvent::MessageIn => {
                self.messages_in = self.messages_in.wrapping_add(1);
            },
            BotEvent::MessageOut => {
                self.messages_out = self.messages_out.wrapping_add(1);
            },
            BotEvent::SendError => {
                self.send_errors = self.send_errors.wrapping_add(1);
            },
        }
    }

    /// What the orchestrator is told.
    pub fn snapshot(&self) -> (r: WorkerMetrics)
        ensures
            r == (WorkerMetrics {
                bots_alive: self.bots_alive,
                auth_ok: self.auth_ok,
                auth_fail: self.auth_fail,
                world_ok: self.world_ok,
                world_fail: self.world_fail,
                bytes_in_total: self.bytes_in,
                bytes_out_total: self.bytes_out,
                send_errors: self.send_errors,
                messages_in: self.messages_in,
                messages_out: self.messages_out,
            }),
    {
        WorkerMetrics {
            bots_alive: self.bots_alive,
            auth_ok: self.auth_ok,
            auth_fail: self.auth_fail,
            world_ok: self.world_ok,
            world_fail: self.world_fail,
            bytes_in_total: self.bytes_in,
            bytes_out_total: self.bytes_out,
            send_errors: self.send_errors,
            messages_in: self.messages_in,
            messages_out: self.messages_out,
        }
    }
}

/// A bot that came and went leaves the number of bots as it was.
pub proof fn who_comes_and_goes_is_not_counted(m: Metrics)
    ensures
        m.counted(BotEvent::Alive).counted(BotEvent::Gone) == m,
{
}

/// Every event raises the counter that is its own by one, and no other; somebody who is gone
/// is counted off.
pub proof fn events_are_counted(m: &mut Metrics, e: BotEvent, u: (), s: WorkerMetrics, after: &Metrics)
    requires
        call_ensures(Metrics::count, (m, e), u),
        *after == *final(m),
        call_ensures(Metrics::snapshot, (after,), s),
        old(m).bots_alive < u32::MAX,
        old(m).auth_ok < u64::MAX,
        old(m).auth_fail < u64::MAX,
        old(m).world_ok < u64::MAX,
        old(m).world_fail < u64::MAX,
        old(m).messages_in < u64::MAX,
        old(m).messages_out < u64::MAX,
        old(m).send_errors < u64::MAX,
    ensures
        s.auth_ok == old(m).auth_ok + (if e is LoggedIn {
            1int
        } else {
            0
        }),
        s.auth_fail == old(m).auth_fail + (if e is LoginFailed {
            1int
        } else {
            0
        }),
        s.world_ok == old(m).world_ok + (if e is Entered {
            1int
        } else {
            0
        }),
        s.world_fail == old(m).world_fail + (if e is EntryFailed {
            1int
        } else {
            0
        }),
        s.messages_in == old(m).messages_in + (if e is MessageIn {
            1int
        } else {
            0
        }),
        s.messages_out == old(m).messages_out + (if e is MessageOut {
            1int
        } else {
            0
        }),
        s.send_errors == old(m).send_errors + (if e is SendError {
            1int
        } else {
            0
        }),
        !(e is Gone) ==> s.bots_alive == old(m).bots_alive + (if e is Alive {
            1int
        } else {
            0
        }),
        e is Gone && old(m).bots_alive > 0 ==> s.bots_alive == old(m).bots_alive - 1,
        e is Asked && old(m).target_bots + e->count <= u32::MAX ==> final(m).target_bots == old(m).target_bots
            + e->count,
        !(e is Asked) ==> final(m).target_bots == old(m).target_bots,
        s.bytes_in_total == old(m).bytes_in && s.bytes_out_total == old(m).bytes_out,
{
}

} // verus!

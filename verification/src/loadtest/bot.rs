//! A bot: what it reads, and what it makes of it.
use crate::loadtest::metrics::{BotEvent, Metrics};
use crate::loadtest::pvp::PvpState;
use crate::movement::Place;
use vstd::prelude::*;

verus! {

/// What bots do.
#[derive(Debug, Clone, Copy, PartialEq, Eq, Structural)]
pub enum BotMode {
    Random,
    Pvp,
    Race,
}

#[derive(Debug)]
pub struct BotConfig {
    pub auth_addr: String,
    /// Where the world is, whatever the login server says.
    pub world_addr_override: Option<String>,
    pub username_prefix: String,
    pub mode: BotMode,
}

/// Where a bot looks for the world.
pub fn world_address(configured: &Option<String>, realm: &str) -> (r: String)
    ensures
        r@ == (match *configured {
            Some(a) => a@,
            None => realm@,
        }),
{
    match configured {
        Some(a) => a.clone(),
        None => realm.to_string(),
    }
}

/// What a bot read.
#[derive(Debug, Clone, Copy, PartialEq, Eq, Structural)]
pub enum BotRead {
    Message,
    /// An opcode that is not known, with the length of its body.
    UnknownOpcode { size: u32 },
    /// A message that could not be understood.
    Malformed,
    Broken,
}

/// What a bot does about it.
#[derive(Debug, Clone, Copy, PartialEq, Eq, Structural)]
pub enum BotReadAction {
    Count,
    Skip { bytes: u32 },
    Leave,
}

pub open spec fn bot_reaction(r: BotRead) -> BotReadAction {
    match r {
        BotRead::Message => BotReadAction::Count,
        BotRead::UnknownOpcode { size } => BotReadAction::Skip { bytes: size },
        BotRead::Malformed => BotReadAction::Leave,
        BotRead::Broken => BotReadAction::Leave,
    }
}

/// A bot passes over what it does not know, and leaves when it no longer
/// understands.
pub fn react(r: BotRead) -> (a: BotReadAction)
    ensures
        a == bot_reaction(r),
{
    match r {
        BotRead::Message => BotReadAction::Count,
        BotRead::UnknownOpcode { size } => BotReadAction::Skip { bytes: size },
        BotRead::Malformed => BotReadAction::Leave,
        BotRead::Broken => BotReadAction::Leave,
    }
}

/// How far a bot has come.
#[derive(Debug, Clone, Copy, PartialEq, Eq, Structural)]
pub enum BotStage {
    LoggingIn,
    Entering,
    Playing,
    Over,
}

/// What happens to a bot.
#[derive(Debug, Clone, Copy, PartialEq, Eq, Structural)]
pub enum Happening {
    /// The login went well, or it did not.
    Login { ok: bool },
    /// So did entering the world.
    Entry { ok: bool },
    Read(BotRead),
    /// What was to be passed over could not be read.
    SkipFailed,
    /// The bot moved, or could not say so.
    Moved { ok: bool },
    Pinged { ok: bool },
    /// The bot is told to stop.
    Shutdown,
}

/// What becomes of a bot, and what is counted.
pub open spec fn lived(at: BotStage, h: Happening, m: Metrics) -> (BotStage, Metrics) {
    match at {
        BotStage::LoggingIn => match h {
            Happening::Login { ok } => if ok {
                (BotStage::Entering, m.counted(BotEvent::LoggedIn))
            } else {
                (BotStage::Over, m.counted(BotEvent::LoginFailed))
            },
            _ => (at, m),
        },
        BotStage::Entering => match h {
            Happening::Entry { ok } => if ok {
                (BotStage::Playing, m.counted(BotEvent::Entered).counted(BotEvent::Alive))
            } else {
                (BotStage::Over, m.counted(BotEvent::EntryFailed))
            },
            _ => (at, m),
        },
        BotStage::Playing => match h {
            Happening::Login { .. } => (at, m),
            Happening::Entry { .. } => (at, m),
            Happening::Read(r) => match bot_reaction(r) {
                BotReadAction::Count => (at, m.counted(BotEvent::MessageIn)),
                BotReadAction::Skip { .. } => (at, m),
                BotReadAction::Leave => (BotStage::Over, m.counted(BotEvent::Gone)),
            },
            Happening::SkipFailed => (BotStage::Over, m.counted(BotEvent::Gone)),
            Happening::Moved { ok } => if ok {
                (at, m)
            } else {
                (BotStage::Over, m.counted(BotEvent::SendError).counted(BotEvent::Gone))
            },
            Happening::Pinged { ok } => if ok {
                (at, m.counted(BotEvent::MessageOut))
            } else {
                (BotStage::Over, m.counted(BotEvent::SendError).counted(BotEvent::Gone))
            },
            Happening::Shutdown => (BotStage::Over, m.counted(BotEvent::Gone)),
        },
        BotStage::Over => (at, m),
    }
}

fn leave(at: &mut BotStage, m: &mut Metrics)
    ensures
        *final(at) == BotStage::Over,
        *final(m) == old(m).counted(BotEvent::Gone),
{
    m.count(BotEvent::Gone);
    *at = BotStage::Over;
}

/// Let something happen to a bot: what comes of it is counted, and the bot goes on,
/// or it is over.
pub fn live(at: &mut BotStage, h: Happening, m: &mut Metrics)
    ensures
        (*final(at), *final(m)) == lived(*old(at), h, *old(m)),
{
    match (*at, h) {
        (BotStage::LoggingIn, Happening::Login { ok }) => {
            if ok {
                m.count(BotEvent::LoggedIn);
                *at = BotStage::Entering;
            } else {
                m.count(BotEvent::LoginFailed);
                *at = BotStage::Over;
            }
        },
        (BotStage::Entering, Happening::Entry { ok }) => {
            if ok {
                m.count(BotEvent::Entered);
                m.count(BotEvent::Alive);
                *at = BotStage::Playing;
            } else {
                m.count(BotEvent::EntryFailed);
                *at = BotStage::Over;
            }
        },
        (BotStage::Playing, Happening::Read(r)) => match react(r) {
            BotReadAction::Count => {
                m.count(BotEvent::MessageIn);
            },
            BotReadAction::Skip { .. } => {},
            BotReadAction::Leave => {
                leave(at, m);
            },
        },
        (BotStage::Playing, Happening::SkipFailed) => {
            leave(at, m);
        },
        (BotStage::Playing, Happening::Moved { ok }) => {
            if !ok {
                m.count(BotEvent::SendError);
                leave(at, m);
            }
        },
        (BotStage::Playing, Happening::Pinged { ok }) => {
            if ok {
                m.count(BotEvent::MessageOut);
            } else {
                m.count(BotEvent::SendError);
                leave(at, m);
            }
        },
        (BotStage::Playing, Happening::Shutdown) => {
            leave(at, m);
        },
        _ => {},
    }
}

/// What became of a bot after everything in `hs`.
pub open spec fn life(hs: Seq<Happening>, m: Metrics) -> (BotStage, Metrics)
    decreases hs.len(),
{
    if hs.len() == 0 {
        (BotStage::LoggingIn, m)
    } else {
        let (at, n) = life(hs.drop_last(), m);
        lived(at, hs.last(), n)
    }
}

/// A bot is counted among the living as long as it plays, and no longer: whatever
/// happens to it, the count is what it was before once it is over.
pub proof fn the_living_are_those_who_play(hs: Seq<Happening>, m: Metrics)
    ensures
        life(hs, m).1.bots_alive == (if life(hs, m).0 == BotStage::Playing {
            m.bots_alive.wrapping_add(1)
        } else {
            m.bots_alive
        }),
    decreases hs.len(),
{
    if hs.len() > 0 {
        the_living_are_those_who_play(hs.drop_last(), m);
    }
}

/// A bot whose time is over counts nothing any more.
pub proof fn nothing_is_counted_afterwards(h: Happening, m: Metrics)
    ensures
        lived(BotStage::Over, h, m) == (BotStage::Over, m),
{
}

/// What a fighting bot heeds.
#[derive(Debug, Clone, Copy)]
pub enum Sight {
    Attack { target: u64, damage: u32 },
    Movement { guid: u64, position: Place },
    Other,
}

/// Heed a message: hits are recorded, and where others move to.
pub fn observe_movement(state: &mut PvpState, own_guid: u64, sight: Sight, now: u64)
    requires
        old(state).wf(),
    ensures
        final(state).wf(),
        final(state)@ == (match sight {
            Sight::Attack { target, damage } => old(state)@.witnessed(target, damage, own_guid, now),
            Sight::Movement { guid, position } => if guid == own_guid {
                old(state)@
            } else {
                old(state)@.observed(guid, position, now)
            },
            Sight::Other => old(state)@,
        }),
{
    match sight {
        Sight::Attack { target, damage } => {
            state.record_attack_seen(target, damage, own_guid, now);
        },
        Sight::Movement { guid, position } => {
            if guid != own_guid {
                state.observe(guid, position, now);
            }
        },
        Sight::Other => {},
    }
}

/// The number of the next ping.
pub fn next_ping(seq: u32) -> (r: u32)
    ensures
        r == (if seq == u32::MAX {
            0
        } else {
            (seq + 1) as u32
        }),
{
    seq.wrapping_add(1)
}

/// A bot logs in, enters and plays; where one of these fails it is over. While it plays, it
/// counts what it reads and sends, and it leaves when it no longer understands, cannot send or
/// is told to stop. What it does not know it passes over.
pub proof fn a_bot_lives_its_life(at: &mut BotStage, h: Happening, m: &mut Metrics, u: ())
    requires
        call_ensures(live, (at, h, m), u),
        old(m).bots_alive < u32::MAX,
        old(m).messages_in < u64::MAX,
        old(m).messages_out < u64::MAX,
        old(m).send_errors < u64::MAX,
        old(m).auth_ok < u64::MAX,
        old(m).auth_fail < u64::MAX,
        old(m).world_ok < u64::MAX,
        old(m).world_fail < u64::MAX,
    ensures
        *old(at) is LoggingIn && h == (Happening::Login { ok: true }) ==> *final(at) is Entering && final(m).auth_ok
            == old(m).auth_ok + 1,
        *old(at) is LoggingIn && h == (Happening::Login { ok: false }) ==> *final(at) is Over && final(m).auth_fail
            == old(m).auth_fail + 1,
        *old(at) is Entering && h == (Happening::Entry { ok: true }) ==> *final(at) is Playing && final(m).world_ok
            == old(m).world_ok + 1 && final(m).bots_alive == old(m).bots_alive + 1,
        *old(at) is Entering && h == (Happening::Entry { ok: false }) ==> *final(at) is Over && final(m).world_fail
            == old(m).world_fail + 1 && final(m).bots_alive == old(m).bots_alive,
        *old(at) is Playing && h == Happening::Read(BotRead::Message) ==> *final(at) is Playing && final(m).messages_in
            == old(m).messages_in + 1 && final(m).bots_alive == old(m).bots_alive,
        *old(at) is Playing && h is Read && h->Read_0 is UnknownOpcode ==> *final(at) is Playing && *final(m) == *old(m),
        *old(at) is Playing && (h == Happening::Read(BotRead::Malformed) || h == Happening::Read(BotRead::Broken)
            || h is SkipFailed || h is Shutdown) ==> *final(at) is Over && (old(m).bots_alive > 0 ==> final(m).bots_alive == old(m).bots_alive - 1),
        *old(at) is Playing && (h == (Happening::Moved { ok: false }) || h == (Happening::Pinged { ok: false }))
            ==> *final(at) is Over && final(m).send_errors == old(m).send_errors + 1 && (old(m).bots_alive > 0
            ==> final(m).bots_alive == old(m).bots_alive - 1),
        *old(at) is Playing && h == (Happening::Pinged { ok: true }) ==> *final(at) is Playing && final(m).messages_out
            == old(m).messages_out + 1,
        *old(at) is Playing && h == (Happening::Moved { ok: true }) ==> *final(at) is Playing && *final(m) == *old(m),
        *old(at) is Over ==> *final(at) is Over && *final(m) == *old(m),
        final(m).target_bots == old(m).target_bots && final(m).bytes_in == old(m).bytes_in && final(m).bytes_out
            == old(m).bytes_out,
{
}

/// A bot heeds where others move to, but not where it moves itself.
pub proof fn a_bot_heeds_others(s: &mut PvpState, own_guid: u64, guid: u64, position: Place, now: u64, u: ())
    requires
        old(s).wf(),
        call_ensures(observe_movement, (s, own_guid, Sight::Movement { guid, position }, now), u),
    ensures
        guid != own_guid ==> final(s)@.seen.contains_key(guid) && final(s)@.seen[guid] == (position, now),
        guid == own_guid ==> final(s)@ == old(s)@,
        final(s)@.damage_taken == old(s)@.damage_taken && final(s)@.current_target == old(s)@.current_target,
{
}

/// A bot looks for the world where it is configured to, else where the realm is; pings are
/// numbered one after the other.
pub proof fn a_bot_finds_the_world(configured: &Option<String>, realm: &str, r: String, seq: u32, n: u32)
    requires
        call_ensures(world_address, (configured, realm), r),
        call_ensures(next_ping, (seq,), n),
    ensures
        *configured is Some ==> r@ == configured->0@,
        *configured is None ==> r@ == realm@,
        seq < u32::MAX ==> n == seq + 1,
        seq == u32::MAX ==> n == 0,
{
}

} // verus!

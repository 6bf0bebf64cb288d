//! How a bot moves about: at random, to where the fight is to begin, and at whom it
//! fights.
use crate::clock;
use crate::loadtest::pvp::{PvpState, PvpView};
use crate::movement;
use crate::movement::{MovementInfo, Place};
use rand::RngExt;
use vstd::prelude::*;

verus! {

/// Where bots start: in the arena.
pub const ANCHOR: (u32, u32, u32) = (0xc64e_5800, 0x4388_0000, 0x41ae_db23);

/// A bot that moves says where it is four times a second.
pub const HEARTBEAT_INTERVAL: u64 = 250_000_000;

/// Below this distance, squared, a bot hits: five yards.
pub const ATTACK_RANGE_SQ: u32 = 0x41c8_0000;

/// The pause between two hits.
pub const SWING_INTERVAL: u64 = 1_800_000_000;

/// Below this distance, squared, a bot has arrived: a yard.
pub const ARRIVED_DIST_SQ: u32 = 0x3f80_0000;

/// How long a bot runs after somebody whom it does not reach.
pub const CHASE_TIMEOUT: u64 = 5_000_000_000;

/// By more than this a bot turns to the new direction.
pub const TURN_TOLERANCE: u32 = 0x3e19_999a;

#[derive(Debug, Clone, Copy, PartialEq, Eq, Structural)]
pub enum Phase {
    Idle,
    Forward,
    StrafeLeft,
    StrafeRight,
}

/// What a bot tells the server of its movement.
#[derive(Debug, Clone, Copy, PartialEq, Eq, Structural)]
pub enum MoveOpcode {
    Stop,
    StartForward,
    StartStrafeLeft,
    StartStrafeRight,
}

/// What a bot does, in this order.
#[derive(Debug, Clone, Copy)]
pub enum Step {
    Move { opcode: MoveOpcode, info: MovementInfo },
    /// Move on for the time that passed, and say where that is.
    Heartbeat { elapsed: u64 },
    Swing { guid: u64 },
}

/// Where somebody is as a bot sees it: the distance, squared, the direction to face,
/// and by how much that is off the one it faces.
#[derive(Debug, Clone, Copy, PartialEq, Eq, Structural)]
pub struct Bearing {
    pub dist_sq: u32,
    pub orientation: u32,
    pub turn: u32,
}

/// How a bot goes on at random.
#[derive(Debug, Clone, Copy, PartialEq, Eq, Structural)]
pub struct Roll {
    pub phase: Phase,
    pub orientation: u32,
    pub duration: u64,
}

#[derive(Debug, Clone, Copy)]
pub struct MovementDriver {
    pub info: MovementInfo,
    pub phase: Phase,
    pub phase_ends_at: u64,
    pub last_heartbeat_at: u64,
    pub started_at: u64,
    pub next_swing_at: u64,
    /// Where the bot waits for the fight.
    pub gather_destination: Option<Place>,
    /// Since when it runs after somebody.
    pub chase_started_at: Option<u64>,
}

/// The flags of a phase.
pub open spec fn flags_of(p: Phase) -> u32 {
    match p {
        Phase::Idle => 0,
        Phase::Forward => movement::FORWARD,
        Phase::StrafeLeft => movement::STRAFE_LEFT,
        Phase::StrafeRight => movement::STRAFE_RIGHT,
    }
}

/// What the server is told at the beginning of a phase.
pub open spec fn opcode_of(p: Phase) -> MoveOpcode {
    match p {
        Phase::Idle => MoveOpcode::Stop,
        Phase::Forward => MoveOpcode::StartForward,
        Phase::StrafeLeft => MoveOpcode::StartStrafeLeft,
        Phase::StrafeRight => MoveOpcode::StartStrafeRight,
    }
}

fn flags(p: Phase) -> (r: u32)
    ensures
        r == flags_of(p),
{
    match p {
        Phase::Idle => 0,
        Phase::Forward => movement::FORWARD,
        Phase::StrafeLeft => movement::STRAFE_LEFT,
        Phase::StrafeRight => movement::STRAFE_RIGHT,
    }
}

fn opcode(p: Phase) -> (r: MoveOpcode)
    ensures
        r == opcode_of(p),
{
    match p {
        Phase::Idle => MoveOpcode::Stop,
        Phase::Forward => MoveOpcode::StartForward,
        Phase::StrafeLeft => MoveOpcode::StartStrafeLeft,
        Phase::StrafeRight => MoveOpcode::StartStrafeRight,
    }
}

/// Whether the bot faces elsewhere. What is no number is no turn.
pub open spec fn turned(b: Bearing) -> bool {
    TURN_TOLERANCE < b.turn <= 0x7f80_0000
}

fn has_turned(b: Bearing) -> (r: bool)
    ensures
        r == turned(b),
{
    TURN_TOLERANCE < b.turn && b.turn <= 0x7f80_0000
}

/// `RngExt::random_range` of `rand`: a number below `n`, by chance.
#[verifier::external_body]
fn below(n: u64) -> (r: u64)
    requires
        n > 0,
    ensures
        r < n,
{
    rand::rng().random_range(0..n)
}

/// `RngExt::random_ratio` of `rand`: true in `n` of `of` cases, by chance, which is
/// never for none of them and always for all.
#[verifier::external_body]
fn chance(n: u32, of: u32) -> (r: bool)
    requires
        n <= of,
        0 < of,
    ensures
        n == 0 ==> !r,
        n == of ==> r,
{
    rand::rng().random_ratio(n, of)
}

/// The phase that follows: standing, or one that a number stands for.
pub open spec fn phase_of(stands: bool, way: u64) -> Phase {
    if stands {
        Phase::Idle
    } else if way == 0 {
        Phase::Forward
    } else if way == 1 {
        Phase::StrafeLeft
    } else {
        Phase::StrafeRight
    }
}

pub fn phase_for(stands: bool, way: u64) -> (r: Phase)
    ensures
        r == phase_of(stands, way),
{
    if stands {
        Phase::Idle
    } else if way == 0 {
        Phase::Forward
    } else if way == 1 {
        Phase::StrafeLeft
    } else {
        Phase::StrafeRight
    }
}

/// How much longer than the shortest a phase of its kind may last, in milliseconds.
pub open spec fn leeway(p: Phase) -> u64 {
    if p == Phase::Idle {
        1500
    } else {
        3000
    }
}

/// How long a phase lasts that lasts `more` milliseconds longer than the shortest of
/// its kind.
pub open spec fn duration_of(p: Phase, more: int) -> int {
    if p == Phase::Idle {
        (500 + more) * clock::MILLISECOND
    } else {
        (1000 + more) * clock::MILLISECOND
    }
}

pub fn duration_for(p: Phase, more: u64) -> (r: u64)
    requires
        more < leeway(p),
    ensures
        r == duration_of(p, more as int),
{
    let shortest: u64 = match p {
        Phase::Idle => 500,
        _ => 1000,
    };
    (shortest + more) * clock::MILLISECOND
}

/// How a bot goes on: it stands one time in five, and else moves forward or to a
/// side. The direction is drawn elsewhere.
pub fn draw_phase() -> (r: (Phase, u64))
    ensures
        exists|more: u64| more < leeway(r.0) && r.1 == #[trigger] duration_of(r.0, more as int),
{
    let stands: bool = chance(1, 5);
    let way: u64 = below(3);
    let phase: Phase = phase_for(stands, way);
    let room: u64 = match phase {
        Phase::Idle => 1500,
        _ => 3000,
    };
    let more: u64 = below(room);
    let r: (Phase, u64) = (phase, duration_for(phase, more));
    assert(more < leeway(r.0) && r.1 == duration_of(r.0, more as int));
    r
}

impl MovementDriver {
    /// The bot in a phase, facing a direction.
    pub open spec fn moving_as(self, p: Phase, orientation: u32) -> MovementDriver {
        MovementDriver {
            phase: p,
            info: MovementInfo { flags: flags_of(p), orientation, ..self.info },
            ..self
        }
    }

    /// What the bot says of the phase it is in.
    pub open spec fn says(self) -> Step {
        Step::Move { opcode: opcode_of(self.phase), info: self.info }
    }

    /// The bot that stops, if it moves.
    pub open spec fn stopped(self) -> (MovementDriver, Seq<Step>) {
        if self.phase == Phase::Idle {
            (self, Seq::empty())
        } else {
            let d = self.moving_as(Phase::Idle, self.info.orientation);
            (d, seq![d.says()])
        }
    }

    /// The bot that takes up a phase in a direction, unless it is in it already and the
    /// direction is about the same.
    pub open spec fn steered(self, p: Phase, b: Bearing) -> (MovementDriver, Seq<Step>) {
        if self.phase != p || turned(b) {
            let d = self.moving_as(p, b.orientation);
            (d, seq![d.says()])
        } else {
            (self, Seq::empty())
        }
    }

    /// The bot that says where it is, if it is time.
    pub open spec fn beaten(self, now: u64) -> (MovementDriver, Seq<Step>) {
        let elapsed = clock::since_spec(now, self.last_heartbeat_at);
        if elapsed >= HEARTBEAT_INTERVAL {
            (MovementDriver { last_heartbeat_at: now, ..self }, seq![Step::Heartbeat { elapsed }])
        } else {
            (self, Seq::empty())
        }
    }

    /// The bot that goes on as was rolled. A bot that moves stops first.
    pub open spec fn gone_on(self, roll: Roll, now: u64) -> (MovementDriver, Seq<Step>) {
        let halt = MovementDriver { info: MovementInfo { flags: 0, ..self.info }, ..self };
        let d = MovementDriver {
            phase_ends_at: clock::later_spec(now, roll.duration),
            last_heartbeat_at: now,
            ..self.moving_as(roll.phase, roll.orientation)
        };
        let first = if self.phase == Phase::Idle {
            Seq::empty()
        } else {
            seq![Step::Move { opcode: MoveOpcode::Stop, info: halt.info }]
        };
        let second = if roll.phase == Phase::Idle {
            Seq::empty()
        } else {
            seq![d.says()]
        };
        (d, first + second)
    }

    /// The bot that walks at random.
    pub open spec fn walked(self, roll: Roll, now: u64) -> (MovementDriver, Seq<Step>) {
        let (d, steps) = if now >= self.phase_ends_at {
            self.gone_on(roll, now)
        } else {
            (self, Seq::empty())
        };
        if d.phase == Phase::Idle {
            (d, steps)
        } else {
            let (e, beat) = d.beaten(now);
            (e, steps + beat)
        }
    }

    /// The bot that goes to where it waits for the fight.
    pub open spec fn gathered(self, b: Bearing, now: u64) -> (MovementDriver, Seq<Step>) {
        if b.dist_sq <= ARRIVED_DIST_SQ {
            self.stopped()
        } else {
            let (d, start) = self.steered(Phase::StrafeLeft, b);
            let (e, beat) = d.beaten(now);
            (e, start + beat)
        }
    }

    /// Since when the bot runs after somebody whom it has not reached.
    pub open spec fn chase_start(self, now: u64) -> u64 {
        match self.chase_started_at {
            Some(t) => t,
            None => now,
        }
    }

    /// Whether the bot gives up somebody whom it does not reach.
    pub open spec fn gives_up(self, b: Bearing, now: u64) -> bool {
        b.dist_sq > ATTACK_RANGE_SQ && clock::since_spec(now, self.chase_start(now)) >= CHASE_TIMEOUT
    }

    /// The bot that fights.
    pub open spec fn fought(self, guid: u64, b: Bearing, now: u64) -> (MovementDriver, Seq<Step>) {
        if self.gives_up(b, now) {
            (MovementDriver { chase_started_at: None, ..self }).stopped()
        } else if b.dist_sq <= ATTACK_RANGE_SQ {
            let (d, stop) = (MovementDriver { chase_started_at: None, ..self }).steered(Phase::Idle, b);
            if now >= d.next_swing_at {
                (
                    MovementDriver { next_swing_at: clock::later_spec(now, SWING_INTERVAL), ..d },
                    stop.push(Step::Swing { guid }),
                )
            } else {
                (d, stop)
            }
        } else {
            let (d, start) = (MovementDriver {
                chase_started_at: Some(self.chase_start(now)),
                ..self
            }).steered(Phase::Forward, b);
            let (e, beat) = d.beaten(now);
            (e, start + beat)
        }
    }

    pub fn new(start: Place, orientation: u32, now: u64) -> (r: Self)
        ensures
            r == (MovementDriver {
                info: MovementInfo { flags: 0, timestamp: 0, position: start, orientation, fall_time: 0 },
                phase: Phase::Idle,
                phase_ends_at: now,
                last_heartbeat_at: now,
                started_at: now,
                next_swing_at: now,
                gather_destination: None,
                chase_started_at: None,
            }),
    {
        MovementDriver {
            info: MovementInfo { flags: 0, timestamp: 0, position: start, orientation, fall_time: 0 },
            phase: Phase::Idle,
            phase_ends_at: now,
            last_heartbeat_at: now,
            started_at: now,
            next_swing_at: now,
            gather_destination: None,
            chase_started_at: None,
        }
    }

    /// The time that movements carry: the milliseconds since the bot began, as far as
    /// they fit.
    pub fn stamp(&mut self, now: u64)
        ensures
            *final(self) == (MovementDriver {
                info: MovementInfo {
                    timestamp: (clock::since_spec(now, old(self).started_at) / clock::MILLISECOND
                        % 0x1_0000_0000) as u32,
                    ..old(self).info
                },
                ..*old(self)
            }),
    {
        let ms: u64 = clock::since(now, self.started_at) / clock::MILLISECOND;
        self.info.timestamp = (ms % 0x1_0000_0000) as u32;
    }

    /// Be somewhere else.
    pub fn set_position(&mut self, position: Place)
        ensures
            *final(self) == (MovementDriver {
                info: MovementInfo { position, ..old(self).info },
                ..*old(self)
            }),
    {
        self.info.position = position;
    }

    /// Wait for the fight at `place`, unless there is a place already. Which it is.
    pub fn gather_at(&mut self, place: Place) -> (r: Place)
        ensures
            r == (match old(self).gather_destination {
                Some(p) => p,
                None => place,
            }),
            *final(self) == (MovementDriver { gather_destination: Some(r), ..*old(self) }),
    {
        match self.gather_destination {
            Some(p) => p,
            None => {
                self.gather_destination = Some(place);
                place
            },
        }
    }

    fn take_up(&mut self, p: Phase, orientation: u32, out: &mut Vec<Step>)
        ensures
            *final(self) == old(self).moving_as(p, orientation),
            final(out)@ == old(out)@.push(final(self).says()),
    {
        self.info.orientation = orientation;
        self.info.flags = flags(p);
        self.phase = p;
        out.push(Step::Move { opcode: opcode(p), info: self.info });
    }

    fn stop(&mut self, out: &mut Vec<Step>)
        ensures
            *final(self) == old(self).stopped().0,
            final(out)@ == old(out)@ + old(self).stopped().1,
    {
        let moving: bool = match self.phase {
            Phase::Idle => false,
            _ => true,
        };
        if moving {
            let orientation: u32 = self.info.orientation;
            self.take_up(Phase::Idle, orientation, out);
        }
        assert(out@ =~= old(out)@ + old(self).stopped().1);
    }

    fn steer(&mut self, p: Phase, b: Bearing, out: &mut Vec<Step>)
        ensures
            *final(self) == old(self).steered(p, b).0,
            final(out)@ == old(out)@ + old(self).steered(p, b).1,
    {
        if self.phase != p || has_turned(b) {
            self.take_up(p, b.orientation, out);
        }
        assert(out@ =~= old(out)@ + old(self).steered(p, b).1);
    }

    fn beat(&mut self, now: u64, out: &mut Vec<Step>)
        ensures
            *final(self) == old(self).beaten(now).0,
            final(out)@ == old(out)@ + old(self).beaten(now).1,
    {
        let elapsed: u64 = clock::since(now, self.last_heartbeat_at);
        if elapsed >= HEARTBEAT_INTERVAL {
            self.last_heartbeat_at = now;
            out.push(Step::Heartbeat { elapsed });
        }
        assert(out@ =~= old(out)@ + old(self).beaten(now).1);
    }

    /// Whether the bot goes on otherwise at `now`.
    pub fn wants_roll(&self, now: u64) -> (r: bool)
        ensures
            r == (now >= self.phase_ends_at),
    {
        now >= self.phase_ends_at
    }

    fn transition_phase(&mut self, roll: Roll, now: u64, out: &mut Vec<Step>)
        ensures
            *final(self) == old(self).gone_on(roll, now).0,
            final(out)@ == old(out)@ + old(self).gone_on(roll, now).1,
    {
        let moving: bool = match self.phase {
            Phase::Idle => false,
            _ => true,
        };
        if moving {
            self.info.flags = 0;
            out.push(Step::Move { opcode: MoveOpcode::Stop, info: self.info });
        }
        self.phase = roll.phase;
        self.info.orientation = roll.orientation;
        self.phase_ends_at = clock::later(now, roll.duration);
        self.info.flags = flags(roll.phase);
        let starts: bool = match roll.phase {
            Phase::Idle => false,
            _ => true,
        };
        if starts {
            out.push(Step::Move { opcode: opcode(roll.phase), info: self.info });
        }
        self.last_heartbeat_at = now;
        assert(out@ =~= old(out)@ + old(self).gone_on(roll, now).1);
    }

    /// Walk at random. The roll counts only when the phase is over.
    pub fn tick_random(&mut self, roll: Roll, now: u64) -> (r: Vec<Step>)
        ensures
            (*final(self), r@) == old(self).walked(roll, now),
    {
        let mut out: Vec<Step> = Vec::new();
        if now >= self.phase_ends_at {
            self.transition_phase(roll, now, &mut out);
        }
        let ghost d = *self;
        let ghost steps = out@;
        let moving: bool = match self.phase {
            Phase::Idle => false,
            _ => true,
        };
        if moving {
            self.beat(now, &mut out);
        }
        assert(out@ =~= old(self).walked(roll, now).1);
        out
    }

    /// Go to where the bot waits for the fight.
    pub fn tick_gather(&mut self, b: Bearing, now: u64) -> (r: Vec<Step>)
        ensures
            (*final(self), r@) == old(self).gathered(b, now),
    {
        let mut out: Vec<Step> = Vec::new();
        if b.dist_sq <= ARRIVED_DIST_SQ {
            self.stop(&mut out);
        } else {
            self.steer(Phase::StrafeLeft, b, &mut out);
            self.beat(now, &mut out);
        }
        assert(out@ =~= old(self).gathered(b, now).1);
        out
    }

    /// Find whom to fight. A dead bot does nothing any more, and one that sees nobody
    /// stands still.
    pub fn look_around(&mut self, state: &mut PvpState, own_guid: u64, now: u64) -> (r: (Look, Vec<Step>))
        requires
            old(state).wf(),
        ensures
            final(state).wf(),
            old(state)@.last_death_at is Some ==> r.0 is Dead && final(state)@ == old(state)@ && r.1@
                == Seq::<Step>::empty() && *final(self) == (MovementDriver { chase_started_at: None, ..*old(self) }),
            old(state)@.last_death_at is None ==> r.0 !is Dead && looked(
                old(state)@.released(now),
                final(state)@,
                own_guid,
                now,
            ) && r.0 == sight_of(final(state)@) && (*final(self), r.1@) == (if r.0 is Nobody {
                old(self).stopped()
            } else {
                (*old(self), Seq::<Step>::empty())
            }),
    {
        let mut out: Vec<Step> = Vec::new();
        if state.is_dead() {
            self.chase_started_at = None;
            return (Look::Dead, out);
        }
        state.release_stale_target(now);
        state.acquire_target_if_needed(own_guid, now);
        if let Some(guid) = state.target() {
            if let Some(position) = state.position_of(guid) {
                return (Look::Target { guid, position }, out);
            }
        }
        self.stop(&mut out);
        assert(out@ =~= old(self).stopped().1);
        (Look::Nobody, out)
    }

    /// Fight somebody.
    pub fn tick_pvp(&mut self, state: &mut PvpState, guid: u64, b: Bearing, now: u64) -> (r: Vec<Step>)
        requires
            old(state).wf(),
        ensures
            final(state).wf(),
            (*final(self), r@) == old(self).fought(guid, b, now),
            final(state)@ == (if old(self).gives_up(b, now) {
                old(state)@.dropped()
            } else {
                old(state)@
            }),
    {
        let mut out: Vec<Step> = Vec::new();
        let in_melee: bool = b.dist_sq <= ATTACK_RANGE_SQ;
        if in_melee {
            self.chase_started_at = None;
            self.steer(Phase::Idle, b, &mut out);
            if now >= self.next_swing_at {
                out.push(Step::Swing { guid });
                self.next_swing_at = clock::later(now, SWING_INTERVAL);
            }
        } else {
            let started: u64 = match self.chase_started_at {
                Some(t) => t,
                None => now,
            };
            if clock::since(now, started) >= CHASE_TIMEOUT {
                self.chase_started_at = None;
                state.drop_target();
                self.stop(&mut out);
            } else {
                self.chase_started_at = Some(started);
                self.steer(Phase::Forward, b, &mut out);
                self.beat(now, &mut out);
            }
        }
        assert(out@ =~= old(self).fought(guid, b, now).1);
        out
    }
}

/// What a bot found when it looked around.
#[derive(Debug, Clone, Copy)]
pub enum Look {
    Dead,
    Nobody,
    Target { guid: u64, position: Place },
}

/// Whom a bot has in sight.
pub open spec fn sight_of(s: PvpView) -> Look {
    if s.current_target is Some && s.seen.contains_key(s.current_target->0) {
        Look::Target { guid: s.current_target->0, position: s.seen[s.current_target->0].0 }
    } else {
        Look::Nobody
    }
}

/// Whether `after` is what became of `before` when a living bot looked for somebody to
/// fight.
pub open spec fn looked(before: PvpView, after: PvpView, own_guid: u64, now: u64) -> bool {
    if before.current_target is Some {
        after == before
    } else {
        before.may_choose(own_guid, after.current_target, now) && after == before.acquired(
            after.current_target,
            now,
        )
    }
}

/// Whether any of `steps` is a hit.
pub open spec fn hits(steps: Seq<Step>) -> bool {
    exists|i: int| 0 <= i < steps.len() && (#[trigger] steps[i]) is Swing
}

/// A bot does not hit before it is time, and after a hit it waits.
pub proof fn hits_are_paced(d: MovementDriver, guid: u64, b: Bearing, now: u64)
    ensures
        hits(d.fought(guid, b, now).1) ==> now >= d.next_swing_at && b.dist_sq <= ATTACK_RANGE_SQ && d.fought(
            guid,
            b,
            now,
        ).0.next_swing_at == clock::later_spec(now, SWING_INTERVAL),
        !hits(d.fought(guid, b, now).1) ==> d.fought(guid, b, now).0.next_swing_at == d.next_swing_at,
{
    let (e, steps) = d.fought(guid, b, now);
    if !d.gives_up(b, now) && b.dist_sq <= ATTACK_RANGE_SQ {
        let (m, stop) = (MovementDriver { chase_started_at: None, ..d }).steered(Phase::Idle, b);
        if now >= m.next_swing_at {
            assert(steps[stop.len() as int] is Swing);
            assert(hits(steps));
        }
    }
}

/// A bot in a phase carries the flags of the phase.
pub open spec fn consistent(d: MovementDriver) -> bool {
    d.info.flags == flags_of(d.phase)
}

/// Whatever a bot does, it carries the flags of the phase it is in.
pub proof fn flags_follow_the_phase(d: MovementDriver, guid: u64, b: Bearing, roll: Roll, now: u64)
    requires
        consistent(d),
    ensures
        consistent(d.walked(roll, now).0),
        consistent(d.gathered(b, now).0),
        consistent(d.fought(guid, b, now).0),
        consistent(d.stopped().0),
{
}

/// A bot in reach of its target stands and hits as soon as it may, and then waits for nearly
/// two seconds; out of reach it runs at the target, facing it.
pub proof fn a_bot_hits_whom_it_reaches(
    d: &mut MovementDriver,
    state: &mut PvpState,
    guid: u64,
    b: Bearing,
    now: u64,
    r: Vec<Step>,
)
    requires
        old(state).wf(),
        call_ensures(MovementDriver::tick_pvp, (d, state, guid, b, now), r),
        now + 1_800_000_000 <= u64::MAX,
    ensures
        b.dist_sq <= 0x41c8_0000 && now >= old(d).next_swing_at ==> r@.len() > 0 && r@.last() == (Step::Swing { guid })
            && final(d).next_swing_at == now + 1_800_000_000,
        b.dist_sq <= 0x41c8_0000 && now < old(d).next_swing_at ==> final(d).next_swing_at == old(d).next_swing_at,
        b.dist_sq <= 0x41c8_0000 ==> final(d).phase is Idle && final(d).chase_started_at is None
            && final(state)@.current_target == old(state)@.current_target,
        b.dist_sq > 0x41c8_0000 && (old(d).chase_started_at is None || now < old(d).chase_started_at->0
            + 5_000_000_000) ==> final(d).phase is Forward && final(d).chase_started_at is Some
            && final(state)@.current_target == old(state)@.current_target && final(d).next_swing_at
            == old(d).next_swing_at,
        b.dist_sq > 0x41c8_0000 && old(d).chase_started_at is Some && now >= old(d).chase_started_at->0 + 5_000_000_000
            ==> final(d).phase is Idle && final(d).chase_started_at is None && final(state)@.current_target is None,
        b.dist_sq > 0x41c8_0000 && old(d).chase_started_at is None ==> final(d).chase_started_at == Some(now),
        b.dist_sq > 0x41c8_0000 && !(old(d).phase is Forward) && old(d).chase_started_at is None ==> final(d).info.orientation == b.orientation,
        final(d).info.position == old(d).info.position,
{
}

/// A bot that goes to where it waits has arrived within a yard, and stands there; farther off
/// it goes on, facing the place.
pub proof fn a_bot_gathers_where_it_is_told(d: &mut MovementDriver, b: Bearing, now: u64, r: Vec<Step>)
    requires
        call_ensures(MovementDriver::tick_gather, (d, b, now), r),
    ensures
        b.dist_sq <= 0x3f80_0000 ==> final(d).phase is Idle,
        b.dist_sq <= 0x3f80_0000 && old(d).phase is Idle ==> r@.len() == 0 && *final(d) == *old(d),
        b.dist_sq <= 0x3f80_0000 && !(old(d).phase is Idle) ==> r@.len() == 1 && r@[0] is Move && r@[0]->opcode is Stop
            && final(d).info.flags == 0,
        b.dist_sq > 0x3f80_0000 ==> final(d).phase is StrafeLeft,
        b.dist_sq > 0x3f80_0000 && !(old(d).phase is StrafeLeft) ==> final(d).info.orientation == b.orientation
            && r@.len() > 0 && r@[0] is Move && r@[0]->opcode is StartStrafeLeft,
        b.dist_sq > 0x3f80_0000 && now >= old(d).last_heartbeat_at + 250_000_000 ==> r@.len() > 0 && r@.last()
            is Heartbeat && r@.last()->elapsed == now - old(d).last_heartbeat_at && final(d).last_heartbeat_at == now,
{
}

/// A bot that walks at random goes on as was rolled once its phase is over, and not before;
/// as long as it moves it says four times a second where it is.
pub proof fn a_bot_walks_as_rolled(d: &mut MovementDriver, roll: Roll, now: u64, r: Vec<Step>)
    requires
        call_ensures(MovementDriver::tick_random, (d, roll, now), r),
        now + roll.duration <= u64::MAX,
    ensures
        now >= old(d).phase_ends_at ==> final(d).phase == roll.phase && final(d).info.orientation == roll.orientation
            && final(d).phase_ends_at == now + roll.duration && final(d).last_heartbeat_at == now,
        now < old(d).phase_ends_at ==> final(d).phase == old(d).phase && final(d).phase_ends_at == old(d).phase_ends_at
            && final(d).info == old(d).info,
        now < old(d).phase_ends_at && old(d).phase is Idle ==> r@.len() == 0,
        now < old(d).phase_ends_at && !(old(d).phase is Idle) && now >= old(d).last_heartbeat_at + 250_000_000
            ==> r@.len() == 1 && r@[0] is Heartbeat && r@[0]->elapsed == now - old(d).last_heartbeat_at && final(d).last_heartbeat_at == now,
        now < old(d).phase_ends_at && old(d).last_heartbeat_at <= now < old(d).last_heartbeat_at + 250_000_000
            ==> r@.len() == 0,
        now >= old(d).phase_ends_at && !(old(d).phase is Idle) ==> r@.len() > 0 && r@[0] is Move
            && r@[0]->opcode is Stop && r@[0]->Move_info.flags == 0,
        now >= old(d).phase_ends_at && old(d).phase is Idle && !(roll.phase is Idle) ==> r@.len() > 0 && r@[0] is Move
            && r@[0]->Move_info.orientation == roll.orientation,
        now >= old(d).phase_ends_at && old(d).phase is Idle && roll.phase is Forward ==> r@[0]->opcode is StartForward,
        now >= old(d).phase_ends_at && old(d).phase is Idle && roll.phase is StrafeLeft ==> r@[0]->opcode
            is StartStrafeLeft,
        now >= old(d).phase_ends_at && old(d).phase is Idle && roll.phase is StrafeRight ==> r@[0]->opcode
            is StartStrafeRight,
        final(d).info.position == old(d).info.position,
{
}

/// A bot stands one to two seconds at most, and moves one to four seconds.
pub proof fn phases_last_as_long_as_they_may(p: Phase, more: u64, r: u64, stands: bool, way: u64, q: Phase)
    requires
        more < leeway(p),
        call_ensures(duration_for, (p, more), r),
        call_ensures(phase_for, (stands, way), q),
    ensures
        p is Idle ==> r == (500 + more) * 1_000_000 && more < 1500,
        !(p is Idle) ==> r == (1000 + more) * 1_000_000 && more < 3000,
        stands <==> q is Idle,
        !stands && way == 0 ==> q is Forward,
        !stands && way == 1 ==> q is StrafeLeft,
        !stands && way >= 2 ==> q is StrafeRight,
{
}

/// A bot waits where it was first told to, and is where it was put; what it says carries the
/// milliseconds since it began.
pub proof fn a_bot_keeps_its_place(
    a: &mut MovementDriver,
    place: Place,
    r: Place,
    b: &mut MovementDriver,
    position: Place,
    u: (),
    c: &mut MovementDriver,
    now: u64,
    v: (),
)
    requires
        call_ensures(MovementDriver::gather_at, (a, place), r),
        call_ensures(MovementDriver::set_position, (b, position), u),
        call_ensures(MovementDriver::stamp, (c, now), v),
    ensures
        old(a).gather_destination is None ==> r == place,
        old(a).gather_destination is Some ==> r == old(a).gather_destination->0,
        final(a).gather_destination == Some(r),
        final(b).info.position == position && final(b).phase == old(b).phase && final(b).info.orientation
            == old(b).info.orientation,
        old(c).started_at <= now && (now - old(c).started_at) / 1_000_000 < 0x1_0000_0000 ==> final(c).info.timestamp
            == (now - old(c).started_at) / 1_000_000,
        final(c).info.position == old(c).info.position,
{
}

/// A dead bot looks for nobody; a living one keeps its target as long as that was seen
/// lately, or finds somebody else who was, but never itself.
pub proof fn a_bot_looks_for_others(
    d: &mut MovementDriver,
    state: &mut PvpState,
    own_guid: u64,
    now: u64,
    r: (Look, Vec<Step>),
    g: u64,
)
    requires
        old(state).wf(),
        call_ensures(MovementDriver::look_around, (d, state, own_guid, now), r),
    ensures
        old(state)@.last_death_at is Some <==> r.0 is Dead,
        old(state)@.last_death_at is Some ==> final(state)@ == old(state)@ && r.1@.len() == 0,
        old(state)@.last_death_at is None && old(state)@.current_target == Some(g) && old(state)@.seen.contains_key(g)
            && now < old(state)@.seen[g].1 + 30_000_000_000 ==> r.0 is Target && r.0->guid == g && r.0->position
            == old(state)@.seen[g].0,
        old(state)@.last_death_at is None && old(state)@.current_target is None && r.0 is Target ==> r.0->guid
            != own_guid && old(state)@.seen.contains_key(r.0->guid) && now < old(state)@.seen[r.0->guid].1
            + 30_000_000_000,
        old(state)@.last_death_at is None && old(state)@.current_target is None && g != own_guid
            && old(state)@.seen.contains_key(g) && now < old(state)@.seen[g].1 + 30_000_000_000 ==> r.0 is Target,
        r.0 is Nobody ==> final(d).phase is Idle,
{
    let before = old(state)@.released(now);
    let after = final(state)@;
    if old(state)@.last_death_at is None && old(state)@.current_target is None {
        if g != own_guid && old(state)@.seen.contains_key(g) && now < old(state)@.seen[g].1 + 30_000_000_000 {
            assert(crate::loadtest::pvp::recent(before.seen, now).contains_key(g));
        }
    }
}

} // verus!

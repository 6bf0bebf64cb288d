//! Creatures that walk around on their own.
//!
//! A tick of walking has three steps. First it is decided who walks, who waits
//! and who goes to sleep; then, with the distances and places that the caller
//! works out for those who walk, how far each one gets; and last, with the
//! height of the ground there, what is told of it.
use crate::clock;
use crate::clock::MILLISECOND;
use crate::config::CreatureConfig;
use crate::creature;
use crate::creature::{Creature, CreatureBehavior, CreatureLifeState};
use crate::map_state;
use crate::map_state::{MapState, MapView};
use crate::movement::{MovementInfo, Place, FORWARD, WALK_MODE};
use crate::notice::{Audience, Notice, Outgoing};
use crate::numeric;
use crate::schedule;
use crate::schedule::Sleepers;
use crate::slabs;
use crate::spatial;
use crate::tables;
use vstd::prelude::*;

verus! {

/// How long a creature far from every player sleeps before it looks again.
pub const IDLE_GRID_RECHECK: u64 = 1_000_000_000;

/// The shortest pause at a waypoint, in milliseconds.
pub const MIN_PAUSE_MS: u32 = 500;

/// What a creature does in this tick.
#[derive(Debug, Clone, Copy)]
pub enum WalkPlan {
    /// It sleeps until then.
    Park { when: u64 },
    /// It stays as it is.
    Still,
    /// It walks: to `target`, or to a new random one around its anchor if there
    /// is none. `elapsed` is the time since it was last moved.
    Go { elapsed: u64, just_started: bool, target: Option<Place> },
}

/// How far a creature gets, worked out from its plan.
#[derive(Debug, Clone, Copy)]
pub struct WalkStep {
    /// Where it is going.
    pub target: Place,
    /// The direction from where it stands to the target.
    pub orientation: u32,
    /// The distance to the target.
    pub dist: u32,
    /// The distance it covers.
    pub step: u32,
    /// Where it stands then, if it does not arrive.
    pub advanced: Place,
    /// A random number.
    pub roll: u64,
}

/// What others are told of a walking creature.
#[derive(Debug, Clone, Copy, PartialEq, Eq, Structural)]
pub enum CreatureMoveEvent {
    StartForward,
    Heartbeat,
    Stop,
}

/// A behavior at rest: it starts afresh when somebody comes near.
pub open spec fn rested(b: CreatureBehavior, now: u64) -> CreatureBehavior {
    match b {
        CreatureBehavior::RandomWander { anchor, radius, target, next_decision_at } => CreatureBehavior::RandomWander {
            anchor,
            radius,
            target: None,
            next_decision_at: now,
        },
        CreatureBehavior::Waypoint { waypoints, waittimes_ms, current, idle_until } => CreatureBehavior::Waypoint {
            waypoints,
            waittimes_ms,
            current,
            idle_until: Some(now),
        },
        other => other,
    }
}

/// What the creature does in this tick, and the creature with that decided. One that
/// is not alive does nothing, and nothing happens to it.
/// `active` says whether a player is near enough for it to be awake.
pub open spec fn planned(c: Creature, now: u64, active: bool) -> (Creature, WalkPlan) {
    if !(c.life_state is Alive) {
        (c, WalkPlan::Still)
    } else if !active {
        (
            Creature {
                info: MovementInfo { flags: 0, ..c.info },
                cached_object: if c.info.flags != 0 {
                    None
                } else {
                    c.cached_object
                },
                behavior: rested(c.behavior, now),
                last_advanced_at: now,
                ..c
            },
            WalkPlan::Park { when: clock::later_spec(now, IDLE_GRID_RECHECK) },
        )
    } else if creature::rooted_at(c.root_until, now) {
        (Creature { last_advanced_at: now, ..c }, WalkPlan::Still)
    } else {
        let awake = Creature { last_advanced_at: now, ..c };
        let elapsed = clock::since_spec(now, c.last_advanced_at);
        match c.behavior {
            CreatureBehavior::RandomWander { anchor, radius, target, next_decision_at } => match target {
                Some(t) => (awake, WalkPlan::Go { elapsed, just_started: false, target: Some(t) }),
                None => if now < next_decision_at {
                    (awake, WalkPlan::Park { when: next_decision_at })
                } else {
                    (awake, WalkPlan::Go { elapsed, just_started: true, target: None })
                },
            },
            CreatureBehavior::Waypoint { waypoints, waittimes_ms, current, idle_until } => if waypoints@.len() == 0 {
                (awake, WalkPlan::Still)
            } else if idle_until is Some && now < idle_until->0 {
                (awake, WalkPlan::Park { when: idle_until->0 })
            } else {
                let at: usize = if current >= waypoints@.len() {
                    0
                } else {
                    current
                };
                (
                    Creature {
                        behavior: CreatureBehavior::Waypoint {
                            waypoints,
                            waittimes_ms,
                            current: at,
                            idle_until: None,
                        },
                        ..awake
                    },
                    WalkPlan::Go {
                        elapsed,
                        just_started: idle_until is Some,
                        target: Some(waypoints@[at as int]),
                    },
                )
            },
            _ => (awake, WalkPlan::Still),
        }
    }
}

/// How long a creature pauses at the waypoint `at`, in milliseconds.
pub open spec fn pause_ms(waittimes_ms: Seq<u32>, at: int) -> u32 {
    let w = if at < waittimes_ms.len() {
        waittimes_ms[at]
    } else {
        0
    };
    if w < MIN_PAUSE_MS {
        MIN_PAUSE_MS
    } else {
        w
    }
}

/// Whether the creature reaches its target with this step.
pub open spec fn arrives(s: WalkStep, arrival_threshold: u32) -> bool {
    numeric::at_most(s.dist, s.step) || numeric::at_most(s.dist, arrival_threshold)
}

/// The behavior of a creature that has arrived, and until when it sleeps.
pub open spec fn arrived(b: CreatureBehavior, now: u64, roll: u64, cfg: CreatureConfig) -> (
    CreatureBehavior,
    Option<u64>,
) {
    match b {
        CreatureBehavior::RandomWander { anchor, radius, target, next_decision_at } => {
            let idle_ms = cfg.wander_idle_min_ms + roll as int % (cfg.wander_idle_max_ms - cfg.wander_idle_min_ms);
            let when = clock::later_spec(now, crate::config::span_spec(idle_ms as u64, MILLISECOND));
            (CreatureBehavior::RandomWander { anchor, radius, target: None, next_decision_at: when }, Some(when))
        },
        CreatureBehavior::Waypoint { waypoints, waittimes_ms, current, idle_until } => {
            let when = clock::later_spec(
                now,
                crate::config::span_spec(pause_ms(waittimes_ms@, current as int) as u64, MILLISECOND),
            );
            (
                CreatureBehavior::Waypoint {
                    waypoints,
                    waittimes_ms,
                    current: if current + 1 >= waypoints@.len() {
                        0
                    } else {
                        (current + 1) as usize
                    },
                    idle_until: Some(when),
                },
                Some(when),
            )
        },
        other => (other, None),
    }
}

/// The creature with a target to wander to.
pub open spec fn aimed(c: Creature, target: Place) -> Creature {
    match c.behavior {
        CreatureBehavior::RandomWander { anchor, radius, target: old_target, next_decision_at } => Creature {
            behavior: CreatureBehavior::RandomWander { anchor, radius, target: Some(target), next_decision_at },
            ..c
        },
        _ => c,
    }
}

/// Whether it is time to tell of a walking creature again.
pub open spec fn heartbeat_is_due(c: Creature, now: u64, heartbeat_ms: u128) -> bool {
    clock::since_spec(now, c.last_heartbeat_at) / MILLISECOND >= heartbeat_ms
}

/// The creature after its step, what is told of it, and until when it sleeps.
pub open spec fn walked(
    c: Creature,
    now: u64,
    just_started: bool,
    target: Place,
    s: WalkStep,
    cfg: CreatureConfig,
) -> (Creature, Seq<CreatureMoveEvent>, Option<u64>) {
    let a = aimed(c, target);
    let started = if just_started {
        Creature {
            info: MovementInfo { orientation: s.orientation, flags: FORWARD | WALK_MODE, ..a.info },
            cached_object: None,
            ..a
        }
    } else {
        a
    };
    let events: Seq<CreatureMoveEvent> = if just_started {
        seq![CreatureMoveEvent::StartForward]
    } else {
        Seq::empty()
    };
    if arrives(s, cfg.arrival_threshold) {
        let (b, park) = arrived(started.behavior, now, s.roll, cfg);
        (
            Creature {
                info: MovementInfo { position: target, flags: 0, ..started.info },
                cached_object: None,
                behavior: b,
                ..started
            },
            events.push(CreatureMoveEvent::Stop),
            park,
        )
    } else {
        let moved = Creature {
            info: MovementInfo { position: s.advanced, ..started.info },
            cached_object: None,
            ..started
        };
        if !just_started && heartbeat_is_due(c, now, cfg.walking_heartbeat_ms) {
            (Creature { last_heartbeat_at: now, ..moved }, events.push(CreatureMoveEvent::Heartbeat), None)
        } else {
            (moved, events, None)
        }
    }
}

impl MapView {
    /// Whether a player is near the place.
    pub open spec fn is_awake(self, place: Place) -> bool {
        self.active_grids.contains(spatial::cell_id(place.grid))
    }

    /// After the sleepers `keys` were woken: those with a player near walk, the
    /// others sleep on for a while, and those that are gone or dead are forgotten.
    pub open spec fn woken(self, keys: Seq<usize>, now: u64) -> MapView
        decreases keys.len(),
    {
        if keys.len() == 0 {
            self
        } else {
            let v = self.woken(keys.drop_last(), now);
            let key = keys.last();
            if !v.creatures.contains_key(key) || !(v.creatures[key].life_state is Alive) {
                v
            } else if v.is_awake(v.creatures[key].info.position) {
                MapView { walking: v.walking.push(key), ..v }
            } else {
                MapView { asleep: schedule::parked(v.asleep, clock::later_spec(now, IDLE_GRID_RECHECK), key), ..v }
            }
        }
    }

    /// After the sleepers whose time has come were woken.
    pub open spec fn awake(self, now: u64) -> MapView {
        (MapView { asleep: schedule::not_due(self.asleep, now), ..self }).woken(schedule::due(self.asleep, now), now)
    }

    /// After it was decided what the creatures `keys` do, one after the other.
    pub open spec fn all_planned(self, keys: Seq<usize>, now: u64) -> (MapView, Seq<WalkPlan>)
        decreases keys.len(),
    {
        if keys.len() == 0 {
            (self, Seq::empty())
        } else {
            let (v, plans) = self.all_planned(keys.drop_last(), now);
            let key = keys.last();
            let (c, plan) = planned(v.creatures[key], now, v.is_awake(v.creatures[key].info.position));
            (MapView { creatures: v.creatures.insert(key, c), ..v }, plans.push(plan))
        }
    }
}

impl MapState {
    fn wake(&mut self, now: u64)
        requires
            old(self).wf(),
        ensures
            final(self).wf(),
            old(self)@.index_is_live() ==> final(self)@.index_is_live(),
            final(self)@ == old(self)@.awake(now),
            final(self).creatures == old(self).creatures,
    {
        let ghost was = self@;
        let keys = self.creature_wake_at.take_due(now);
        let ghost start = self@;
        assert(start =~= MapView { asleep: schedule::not_due(was.asleep, now), ..was });
        let mut i: usize = 0;
        assert(keys@.take(0) =~= Seq::<usize>::empty());
        while i < keys.len()
            invariant
                i <= keys.len(),
                self.wf(),
                old(self)@.index_is_live() ==> self@.index_is_live(),
                self.creatures == old(self).creatures,
                self@ == start.woken(keys@.take(i as int), now),
                self@ == (MapView { walking: self@.walking, asleep: self@.asleep, ..start }),
            decreases keys.len() - i,
        {
            let key: usize = keys[i];
            assert(keys@.take(i + 1).drop_last() =~= keys@.take(i as int));
            match slabs::creatures_get(&self.creatures, key) {
                Some(c) => {
                    let grid: (i32, i32) = c.info.position.grid;
                    let alive: bool = matches!(c.life_state, CreatureLifeState::Alive);
                    if alive {
                        if tables::members_contains(&self.active_grids, spatial::pack(grid)) {
                            self.walking_creature_keys.push(key);
                        } else {
                            self.creature_wake_at.park(clock::later(now, IDLE_GRID_RECHECK), key);
                        }
                    }
                },
                None => {},
            }
            i += 1;
        }
        assert(keys@.take(i as int) =~= keys@);
    }

    /// Decide what every walking creature does in this tick. Sleepers whose
    /// time has come are woken first; creatures with no player near come to
    /// rest. The plans are those of the walking creatures, in order.
    pub fn plan_walking(&mut self, now: u64) -> (r: Vec<WalkPlan>)
        requires
            old(self).wf(),
            forall|i: int| 0 <= i < old(self)@.walking.len() ==> old(self)@.creatures.contains_key(
                #[trigger] old(self)@.walking[i],
            ),
        ensures
            final(self).wf(),
            old(self)@.index_is_live() ==> final(self)@.index_is_live(),
            final(self)@ == old(self)@.awake(now).all_planned(old(self)@.awake(now).walking, now).0,
            r@ == old(self)@.awake(now).all_planned(old(self)@.awake(now).walking, now).1,
            forall|k: usize| #[trigger]
                final(self)@.walking.contains(k) && !old(self)@.walking.contains(k)
                    ==> final(self)@.creatures[k].life_state is Alive,
    {
        self.wake(now);
        let ghost start = self@;
        proof {
            lemma_woken_exist(
                MapView { asleep: schedule::not_due(old(self)@.asleep, now), ..old(self)@ },
                schedule::due(old(self)@.asleep, now),
                now,
            );
        }
        let mut r: Vec<WalkPlan> = Vec::new();
        let mut i: usize = 0;
        assert(start.walking.take(0) =~= Seq::<usize>::empty());
        while i < self.walking_creature_keys.len()
            invariant
                i <= self@.walking.len(),
                self.wf(),
                old(self)@.index_is_live() ==> self@.index_is_live(),
                self@.walking == start.walking,
                self@ == (MapView { creatures: self@.creatures, ..start }),
                self@.creatures.dom() == start.creatures.dom(),
                forall|j: int| 0 <= j < start.walking.len() ==> start.creatures.contains_key(
                    #[trigger] start.walking[j],
                ),
                (self@, r@) == start.all_planned(start.walking.take(i as int), now),
            decreases self.walking_creature_keys.len() - i,
        {
            let key: usize = self.walking_creature_keys[i];
            let ghost before = self@;
            assert(start.walking.take(i + 1).drop_last() =~= start.walking.take(i as int));
            assert(start.creatures.contains_key(start.walking[i as int]));
            let mut active: bool = false;
            if let Some(c) = slabs::creatures_get(&self.creatures, key) {
                active = tables::members_contains(&self.active_grids, spatial::pack(c.info.position.grid));
            }
            assert(active == before.is_awake(before.creatures[key].info.position));
            let ghost goal = planned(before.creatures[key], now, active);
            match slabs::creatures_get_mut(&mut self.creatures, key) {
                Some(c) => {
                    let plan = plan_creature(c, now, active);
                    r.push(plan);
                },
                None => {
                    assert(false);
                },
            }
            proof {
                assert(self@.creatures =~= before.creatures.insert(key, goal.0));
                assert(self@.creatures.dom() =~= start.creatures.dom());
                assert(self@ =~= MapView { creatures: before.creatures.insert(key, goal.0), ..before });
            }
            i += 1;
        }
        assert(start.walking.take(i as int) =~= start.walking);
        proof {
            assert forall|k: usize| #[trigger] start.walking.contains(k) implies start.creatures.contains_key(k) by {}
            lemma_planned_alive(start, start.walking, now);
            assert forall|k: usize| #[trigger]
                self@.walking.contains(k) && !old(self)@.walking.contains(k) implies self@.creatures[k].life_state is Alive by {
                nobody_dead_is_put_back(old(self)@, now, k);
            }
        }
        r
    }
}

proof fn lemma_woken_exist(v: MapView, keys: Seq<usize>, now: u64)
    requires
        forall|i: int| 0 <= i < v.walking.len() ==> v.creatures.contains_key(#[trigger] v.walking[i]),
    ensures
        v.woken(keys, now).creatures == v.creatures,
        forall|i: int| 0 <= i < v.woken(keys, now).walking.len() ==> v.creatures.contains_key(
            #[trigger] v.woken(keys, now).walking[i],
        ),
    decreases keys.len(),
{
    if keys.len() > 0 {
        lemma_woken_exist(v, keys.drop_last(), now);
    }
}

/// Decide what one creature does in this tick.
pub fn plan_creature(c: &mut Creature, now: u64, active: bool) -> (r: WalkPlan)
    ensures
        (*final(c), r) == planned(*old(c), now, active),
{
    if !matches!(c.life_state, CreatureLifeState::Alive) {
        return WalkPlan::Still;
    }
    if !active {
        if c.info.flags != 0 {
            c.info.flags = 0;
            c.invalidate_object_cache();
        }
        match &mut c.behavior {
            CreatureBehavior::RandomWander { target, next_decision_at, .. } => {
                *target = None;
                *next_decision_at = now;
            },
            CreatureBehavior::Waypoint { idle_until, .. } => {
                *idle_until = Some(now);
            },
            _ => {},
        }
        c.last_advanced_at = now;
        return WalkPlan::Park { when: clock::later(now, IDLE_GRID_RECHECK) };
    }
    if c.is_rooted(now) {
        c.last_advanced_at = now;
        return WalkPlan::Still;
    }
    let elapsed: u64 = clock::since(now, c.last_advanced_at);
    c.last_advanced_at = now;
    match &mut c.behavior {
        CreatureBehavior::RandomWander { target, next_decision_at, .. } => match *target {
            Some(t) => WalkPlan::Go { elapsed, just_started: false, target: Some(t) },
            None => if now < *next_decision_at {
                WalkPlan::Park { when: *next_decision_at }
            } else {
                WalkPlan::Go { elapsed, just_started: true, target: None }
            },
        },
        CreatureBehavior::Waypoint { waypoints, current, idle_until, .. } => {
            if waypoints.len() == 0 {
                return WalkPlan::Still;
            }
            let mut just_started: bool = false;
            if let Some(until) = *idle_until {
                if now < until {
                    return WalkPlan::Park { when: until };
                }
                *idle_until = None;
                just_started = true;
            }
            if *current >= waypoints.len() {
                *current = 0;
            }
            let target = waypoints[*current];
            WalkPlan::Go { elapsed, just_started, target: Some(target) }
        },
        _ => WalkPlan::Still,
    }
}

/// Let one creature take its step. What is told of it is added to `events`.
pub fn walk_creature(
    c: &mut Creature,
    key: usize,
    now: u64,
    just_started: bool,
    target: Place,
    s: &WalkStep,
    cfg: &CreatureConfig,
    events: &mut Vec<(usize, CreatureMoveEvent)>,
) -> (r: Option<u64>)
    requires
        old(c).behavior is RandomWander ==> cfg.wander_idle_min_ms < cfg.wander_idle_max_ms,
    ensures
        *final(c) == walked(*old(c), now, just_started, target, *s, *cfg).0,
        final(events)@ == old(events)@ + walked(*old(c), now, just_started, target, *s, *cfg).1.map_values(
            |e: CreatureMoveEvent| (key, e),
        ),
        r == walked(*old(c), now, just_started, target, *s, *cfg).2,
{
    let ghost before = events@;
    let ghost told = walked(*c, now, just_started, target, *s, *cfg).1;
    let ghost tag = |e: CreatureMoveEvent| (key, e);
    match &mut c.behavior {
        CreatureBehavior::RandomWander { target: t, .. } => {
            *t = Some(target);
        },
        _ => {},
    }
    if just_started {
        c.info.orientation = s.orientation;
        c.info.flags = FORWARD | WALK_MODE;
        c.invalidate_object_cache();
        events.push((key, CreatureMoveEvent::StartForward));
    }
    if numeric::is_at_most(s.dist, s.step) || numeric::is_at_most(s.dist, cfg.arrival_threshold) {
        c.info.position = target;
        c.info.flags = 0;
        c.invalidate_object_cache();
        events.push((key, CreatureMoveEvent::Stop));
        assert(events@ =~= before + told.map_values(tag));
        match &mut c.behavior {
            CreatureBehavior::RandomWander { target: t, next_decision_at, .. } => {
                *t = None;
                let idle: u64 = cfg.wander_idle_min_ms + s.roll % (cfg.wander_idle_max_ms - cfg.wander_idle_min_ms);
                let when: u64 = clock::later(now, crate::config::span(idle, MILLISECOND));
                *next_decision_at = when;
                Some(when)
            },
            CreatureBehavior::Waypoint { waypoints, waittimes_ms, current, idle_until } => {
                let mut wait: u32 = 0;
                if *current < waittimes_ms.len() {
                    wait = waittimes_ms[*current];
                }
                if wait < MIN_PAUSE_MS {
                    wait = MIN_PAUSE_MS;
                }
                let when: u64 = clock::later(now, crate::config::span(wait as u64, MILLISECOND));
                *idle_until = Some(when);
                if waypoints.len() == 0 || *current >= waypoints.len() - 1 {
                    *current = 0;
                } else {
                    *current = *current + 1;
                }
                Some(when)
            },
            _ => None,
        }
    } else {
        c.info.position = s.advanced;
        c.invalidate_object_cache();
        if !just_started && (clock::since(now, c.last_heartbeat_at) / MILLISECOND) as u128 >= cfg.walking_heartbeat_ms {
            events.push((key, CreatureMoveEvent::Heartbeat));
            c.last_heartbeat_at = now;
        }
        assert(events@ =~= before + told.map_values(tag));
        None
    }
}

/// What a tick of walking leads to.
#[verifier::ext_equal]
pub struct WalkOutcome {
    pub state: MapView,
    pub events: Seq<(usize, CreatureMoveEvent)>,
    pub parks: Seq<(u64, usize)>,
}

/// The schedule after everybody of `parks` was put to sleep, one after the
/// other.
pub open spec fn all_parked(s: Sleepers, parks: Seq<(u64, usize)>) -> Sleepers
    decreases parks.len(),
{
    if parks.len() == 0 {
        s
    } else {
        schedule::parked(all_parked(s, parks.drop_last()), parks.last().0, parks.last().1)
    }
}

/// Whether `key` is put to sleep.
pub open spec fn is_parked(parks: Seq<(u64, usize)>, key: usize) -> bool {
    exists|i: int| 0 <= i < parks.len() && (#[trigger] parks[i]).1 == key
}

impl MapView {
    /// After the creatures `keys` did what was planned, one after the other.
    pub open spec fn all_walked(
        self,
        keys: Seq<usize>,
        plans: Seq<WalkPlan>,
        steps: Seq<Option<WalkStep>>,
        now: u64,
        cfg: CreatureConfig,
    ) -> WalkOutcome
        decreases keys.len(),
    {
        if keys.len() == 0 {
            WalkOutcome { state: self, events: Seq::empty(), parks: Seq::empty() }
        } else {
            let o = self.all_walked(keys.drop_last(), plans, steps, now, cfg);
            let i = keys.len() - 1;
            let key = keys.last();
            match plans[i] {
                WalkPlan::Park { when } => WalkOutcome { parks: o.parks.push((when, key)), ..o },
                WalkPlan::Still => o,
                WalkPlan::Go { elapsed, just_started, target } => {
                    let s = steps[i]->0;
                    let t = match target {
                        Some(t) => t,
                        None => s.target,
                    };
                    let (c, told, park) = walked(o.state.creatures[key], now, just_started, t, s, cfg);
                    WalkOutcome {
                        state: MapView { creatures: o.state.creatures.insert(key, c), ..o.state },
                        events: o.events + told.map_values(|e: CreatureMoveEvent| (key, e)),
                        parks: match park {
                            Some(when) => o.parks.push((when, key)),
                            None => o.parks,
                        },
                    }
                },
            }
        }
    }

    /// After the creatures `keys` were seated where they stand, one after the
    /// other.
    pub open spec fn all_reseated(self, keys: Seq<usize>) -> MapView
        decreases keys.len(),
    {
        if keys.len() == 0 {
            self
        } else {
            self.all_reseated(keys.drop_last()).reseated(keys.last())
        }
    }

    /// After a tick of walking.
    pub open spec fn walked_on(
        self,
        plans: Seq<WalkPlan>,
        steps: Seq<Option<WalkStep>>,
        now: u64,
        cfg: CreatureConfig,
    ) -> MapView {
        let o = self.all_walked(self.walking, plans, steps, now, cfg);
        let seated = o.state.all_reseated(self.walking);
        MapView {
            walking: self.walking.filter(|k: usize| !is_parked(o.parks, k)),
            asleep: all_parked(self.asleep, o.parks),
            ..seated
        }
    }
}

impl MapState {
    /// Let the walking creatures do what was planned. `steps` holds, for each
    /// plan to go, how far it gets. Creatures that arrive pause; those that
    /// sleep now leave the list of walking ones. Returned is what others are to
    /// be told.
    pub fn finish_walking(
        &mut self,
        plans: &Vec<WalkPlan>,
        steps: &Vec<Option<WalkStep>>,
        now: u64,
        cfg: &CreatureConfig,
    ) -> (r: Vec<(usize, CreatureMoveEvent)>)
        requires
            old(self).wf(),
            forall|i: int|
                0 <= i < old(self)@.walking.len() && old(self)@.creatures[#[trigger] old(
                    self,
                )@.walking[i]].behavior is RandomWander ==> cfg.wander_idle_min_ms < cfg.wander_idle_max_ms,
            plans@.len() == old(self)@.walking.len(),
            steps@.len() == old(self)@.walking.len(),
            forall|i: int| 0 <= i < old(self)@.walking.len() ==> old(self)@.creatures.contains_key(
                #[trigger] old(self)@.walking[i],
            ),
            forall|i: int| 0 <= i < plans@.len() && (#[trigger] plans@[i]) is Go ==> steps@[i] is Some,
        ensures
            final(self).wf(),
            old(self)@.index_is_live() ==> final(self)@.index_is_live(),
            final(self)@ == old(self)@.walked_on(plans@, steps@, now, *cfg),
            r@ == old(self)@.all_walked(old(self)@.walking, plans@, steps@, now, *cfg).events,
    {
        let ghost start = self@;
        let ghost all = start.walking;
        let mut events: Vec<(usize, CreatureMoveEvent)> = Vec::new();
        let mut parks: Vec<(u64, usize)> = Vec::new();
        let mut i: usize = 0;
        assert(all.take(0) =~= Seq::<usize>::empty());
        while i < self.walking_creature_keys.len()
            invariant
                i <= all.len(),
                all == start.walking,
                self@.walking == all,
                self.wf(),
                old(self)@.index_is_live() ==> self@.index_is_live(),
                forall|j: int|
                    0 <= j < all.len() && start.creatures[#[trigger] all[j]].behavior is RandomWander
                        ==> cfg.wander_idle_min_ms < cfg.wander_idle_max_ms,
                forall|k: usize| #[trigger]
                    start.creatures.contains_key(k) ==> (self@.creatures[k].behavior is RandomWander
                        <==> start.creatures[k].behavior is RandomWander),
                plans@.len() == all.len(),
                steps@.len() == all.len(),
                forall|j: int| 0 <= j < all.len() ==> start.creatures.contains_key(#[trigger] all[j]),
                forall|j: int| 0 <= j < plans@.len() && (#[trigger] plans@[j]) is Go ==> steps@[j] is Some,
                self@ == (MapView { creatures: self@.creatures, ..start }),
                self@.creatures.dom() == start.creatures.dom(),
                (WalkOutcome { state: self@, events: events@, parks: parks@ }) == start.all_walked(
                    all.take(i as int),
                    plans@,
                    steps@,
                    now,
                    *cfg,
                ),
            decreases self.walking_creature_keys.len() - i,
        {
            let key: usize = self.walking_creature_keys[i];
            let ghost before = self@;
            let ghost goal = start.all_walked(all.take(i + 1), plans@, steps@, now, *cfg);
            assert(all.take(i + 1).drop_last() =~= all.take(i as int));
            assert(start.creatures.contains_key(all[i as int]));
            match plans[i] {
                WalkPlan::Park { when } => {
                    parks.push((when, key));
                },
                WalkPlan::Still => {},
                WalkPlan::Go { elapsed, just_started, target } => {
                    let s = steps[i].unwrap();
                    let t: Place = match target {
                        Some(t) => t,
                        None => s.target,
                    };
                    let mut park: Option<u64> = None;
                    match slabs::creatures_get_mut(&mut self.creatures, key) {
                        Some(c) => {
                            park = walk_creature(c, key, now, just_started, t, &s, cfg, &mut events);
                        },
                        None => {
                            assert(false);
                        },
                    }
                    proof {
                        let c = walked(before.creatures[key], now, just_started, t, s, *cfg).0;
                        assert(self@.creatures =~= before.creatures.insert(key, c));
                        assert(self@.creatures.dom() =~= start.creatures.dom());
                        assert(self@ =~= MapView { creatures: before.creatures.insert(key, c), ..before });
                    }
                    if let Some(when) = park {
                        parks.push((when, key));
                    }
                },
            }
            assert(goal == (WalkOutcome { state: self@, events: events@, parks: parks@ }));
            i += 1;
        }
        assert(all.take(i as int) =~= all);
        let ghost o = start.all_walked(all, plans@, steps@, now, *cfg);
        self.reseat_walkers();
        proof {
            lemma_reseated_keeps(o.state, all);
        }
        self.put_to_sleep(&parks);
        assert(self@ =~= start.walked_on(plans@, steps@, now, *cfg));
        events
    }

    fn reseat_walkers(&mut self)
        requires
            old(self).wf(),
        ensures
            final(self).wf(),
            old(self)@.index_is_live() ==> final(self)@.index_is_live(),
            final(self)@ == old(self)@.all_reseated(old(self)@.walking),
    {
        let ghost start = self@;
        let ghost all = start.walking;
        let mut i: usize = 0;
        assert(all.take(0) =~= Seq::<usize>::empty());
        while i < self.walking_creature_keys.len()
            invariant
                i <= all.len(),
                self@.walking == all,
                self.wf(),
                old(self)@.index_is_live() ==> self@.index_is_live(),
                self@ == start.all_reseated(all.take(i as int)),
            decreases self.walking_creature_keys.len() - i,
        {
            let key: usize = self.walking_creature_keys[i];
            assert(all.take(i + 1).drop_last() =~= all.take(i as int));
            self.grid_move(key);
            i += 1;
        }
        assert(all.take(i as int) =~= all);
    }

    /// Put the creatures of `parks` to sleep and take them off the list of
    /// walking ones.
    fn put_to_sleep(&mut self, parks: &Vec<(u64, usize)>)
        requires
            old(self).wf(),
        ensures
            final(self).wf(),
            old(self)@.index_is_live() ==> final(self)@.index_is_live(),
            final(self)@ == (MapView {
                walking: old(self)@.walking.filter(|k: usize| !is_parked(parks@, k)),
                asleep: all_parked(old(self)@.asleep, parks@),
                ..old(self)@
            }),
    {
        let ghost start = self@;
        let ghost f = |k: usize| !is_parked(parks@, k);
        let mut parked = tables::members_new();
        let mut i: usize = 0;
        assert(parks@.take(0) =~= Seq::<(u64, usize)>::empty());
        while i < parks.len()
            invariant
                i <= parks.len(),
                self.wf(),
                self@ == (MapView { asleep: all_parked(start.asleep, parks@.take(i as int)), ..start }),
                forall|k: usize| #[trigger]
                    tables::members(parked).contains(k as u64) <==> is_parked(parks@.take(i as int), k),
            decreases parks.len() - i,
        {
            let (when, key): (u64, usize) = parks[i];
            let ghost a = parks@.take(i as int);
            let ghost b = parks@.take(i + 1);
            assert(b.drop_last() =~= a);
            let ghost before = self@;
            tables::members_insert(&mut parked, key as u64);
            self.creature_wake_at.park(when, key);
            proof {
                map_state::who_is_indexed_stays_indexed(before, self@);
                assert forall|k: usize| #[trigger] tables::members(parked).contains(k as u64) <==> is_parked(b, k) by {
                    if is_parked(a, k) {
                        let j = choose|j: int| 0 <= j < a.len() && (#[trigger] a[j]).1 == k;
                        assert(b[j].1 == k);
                    }
                    if k == key {
                        assert(b[i as int].1 == k);
                    }
                    if is_parked(b, k) && k != key {
                        let j = choose|j: int| 0 <= j < b.len() && (#[trigger] b[j]).1 == k;
                        assert(a[j].1 == k);
                    }
                }
            }
            i += 1;
        }
        assert(parks@.take(i as int) =~= parks@);
        let mut walking: Vec<usize> = Vec::new();
        let mut n: usize = 0;
        assert(start.walking.take(0).filter(f) =~= Seq::<usize>::empty()) by {
            reveal(Seq::filter);
        }
        while n < self.walking_creature_keys.len()
            invariant
                n <= start.walking.len(),
                self@.walking == start.walking,
                f == (|k: usize| !is_parked(parks@, k)),
                forall|k: usize| #[trigger] tables::members(parked).contains(k as u64) <==> is_parked(parks@, k),
                walking@ == start.walking.take(n as int).filter(f),
            decreases self.walking_creature_keys.len() - n,
        {
            let key: usize = self.walking_creature_keys[n];
            proof {
                reveal(Seq::filter);
                assert(start.walking.take(n + 1).drop_last() =~= start.walking.take(n as int));
            }
            if !tables::members_contains(&parked, key as u64) {
                walking.push(key);
            }
            n += 1;
        }
        assert(start.walking.take(n as int) =~= start.walking);
        self.walking_creature_keys = walking;
    }
}

proof fn lemma_reseated_keeps(v: MapView, keys: Seq<usize>)
    ensures
        v.all_reseated(keys) == (MapView { creature_cells: v.all_reseated(keys).creature_cells, ..v }),
    decreases keys.len(),
{
    if keys.len() > 0 {
        lemma_reseated_keeps(v, keys.drop_last());
    }
}

/// What others are told of the event.
pub open spec fn walk_notice(c: Creature, e: CreatureMoveEvent) -> Outgoing {
    Outgoing {
        to: Audience::Near { map: c.map, place: c.info.position },
        what: match e {
            CreatureMoveEvent::StartForward => Notice::StartForward { guid: c.guid, info: c.info },
            CreatureMoveEvent::Heartbeat => Notice::Heartbeat { guid: c.guid, info: c.info },
            CreatureMoveEvent::Stop => Notice::Stop { guid: c.guid, info: c.info },
        },
    }
}

/// The creature on the ground.
pub open spec fn grounded(c: Creature, z: u32) -> Creature {
    Creature { info: MovementInfo { position: Place { z, ..c.info.position }, ..c.info }, ..c }
}

impl MapView {
    /// After the creatures of `events` were put on the ground, where its height
    /// is known.
    pub open spec fn all_grounded(
        self,
        events: Seq<(usize, CreatureMoveEvent)>,
        heights: Seq<Option<u32>>,
    ) -> MapView
        decreases events.len(),
    {
        if events.len() == 0 {
            self
        } else {
            let v = self.all_grounded(events.drop_last(), heights);
            let key = events.last().0;
            match heights[events.len() - 1] {
                Some(z) => if v.creatures.contains_key(key) {
                    MapView { creatures: v.creatures.insert(key, grounded(v.creatures[key], z)), ..v }
                } else {
                    v
                },
                None => v,
            }
        }
    }

    /// What others are told of `events`.
    pub open spec fn told_of_walks(self, events: Seq<(usize, CreatureMoveEvent)>) -> Seq<Outgoing>
        decreases events.len(),
    {
        if events.len() == 0 {
            Seq::empty()
        } else {
            let said = self.told_of_walks(events.drop_last());
            let (key, e) = events.last();
            if self.creatures.contains_key(key) {
                said.push(walk_notice(self.creatures[key], e))
            } else {
                said
            }
        }
    }
}

impl MapState {
    /// Put the creatures that moved on the ground and tell others of them.
    /// `heights` holds the height of the ground for each event, where it is
    /// known.
    pub fn tell_of_walks(
        &mut self,
        events: &Vec<(usize, CreatureMoveEvent)>,
        heights: &Vec<Option<u32>>,
        out: &mut Vec<Outgoing>,
    )
        requires
            old(self).wf(),
            heights@.len() == events@.len(),
        ensures
            final(self).wf(),
            old(self)@.index_is_live() ==> final(self)@.index_is_live(),
            final(self)@ == old(self)@.all_grounded(events@, heights@),
            final(out)@ == old(out)@ + final(self)@.told_of_walks(events@),
    {
        let ghost start = self@;
        let ghost said = out@;
        let mut i: usize = 0;
        assert(events@.take(0) =~= Seq::<(usize, CreatureMoveEvent)>::empty());
        while i < events.len()
            invariant
                i <= events.len(),
                heights@.len() == events@.len(),
                self.wf(),
                old(self)@.index_is_live() ==> self@.index_is_live(),
                self@ == start.all_grounded(events@.take(i as int), heights@),
            decreases events.len() - i,
        {
            let ghost before = self@;
            assert(events@.take(i + 1).drop_last() =~= events@.take(i as int));
            let key: usize = events[i].0;
            if let Some(z) = heights[i] {
                match slabs::creatures_get_mut(&mut self.creatures, key) {
                    Some(c) => {
                        c.info.position.z = z;
                        assert(*c == grounded(before.creatures[key], z));
                    },
                    None => {},
                }
            }
            assert(self@ =~= start.all_grounded(events@.take(i + 1), heights@));
            i += 1;
        }
        assert(events@.take(i as int) =~= events@);
        let ghost end = self@;
        let mut n: usize = 0;
        assert(out@ =~= said + end.told_of_walks(events@.take(0)));
        while n < events.len()
            invariant
                n <= events.len(),
                self@ == end,
                out@ == said + end.told_of_walks(events@.take(n as int)),
            decreases events.len() - n,
        {
            assert(events@.take(n + 1).drop_last() =~= events@.take(n as int));
            let (key, e): (usize, CreatureMoveEvent) = events[n];
            if let Some(c) = slabs::creatures_get(&self.creatures, key) {
                let what = match e {
                    CreatureMoveEvent::StartForward => Notice::StartForward { guid: c.guid, info: c.info },
                    CreatureMoveEvent::Heartbeat => Notice::Heartbeat { guid: c.guid, info: c.info },
                    CreatureMoveEvent::Stop => Notice::Stop { guid: c.guid, info: c.info },
                };
                out.push(Outgoing { to: Audience::Near { map: c.map, place: c.info.position }, what });
            }
            assert(out@ =~= said + end.told_of_walks(events@.take(n + 1)));
            n += 1;
        }
        assert(events@.take(n as int) =~= events@);
    }
}

proof fn lemma_place_in(s: Seq<usize>, key: usize, from: int)
    requires
        0 <= from <= s.len(),
    ensures
        match map_state::place_in(s, key, from) {
            Some(i) => from <= i < s.len() && s[i] == key,
            None => forall|i: int| from <= i < s.len() ==> s[i] != key,
        },
    decreases s.len() - from,
{
    if from < s.len() && s[from] != key {
        lemma_place_in(s, key, from + 1);
    }
}

proof fn lemma_without(s: Seq<usize>, key: usize)
    requires
        s.no_duplicates(),
    ensures
        map_state::without(s, key).no_duplicates(),
        !map_state::without(s, key).contains(key),
        forall|k: usize| #[trigger] map_state::without(s, key).contains(k) <==> s.contains(k) && k != key,
{
    lemma_place_in(s, key, 0);
    let w = map_state::without(s, key);
    if let Some(i) = map_state::place_in(s, key, 0) {
        assert forall|k: usize| #[trigger] w.contains(k) <==> s.contains(k) && k != key by {
            if s.contains(k) && k != key {
                let j = choose|j: int| 0 <= j < s.len() && s[j] == k;
                if j == s.len() - 1 {
                    assert(w[i] == k);
                } else {
                    assert(w[j] == k);
                }
            }
            if w.contains(k) {
                let j = choose|j: int| 0 <= j < w.len() && w[j] == k;
                assert(s[if j == i {
                    s.len() - 1
                } else {
                    j
                }] == k);
            }
        }
    }
}

impl MapView {
    /// Whether the creature `key` is alive and walks about.
    pub open spec fn roams(self, key: usize) -> bool {
        &&& self.creatures.contains_key(key)
        &&& self.creatures[key].life_state is Alive
        &&& self.creatures[key].behavior.walks()
    }

    /// Whether nobody walks or sleeps who is not alive, nobody is listed twice, and
    /// nobody walks who sleeps.
    pub open spec fn paced(self) -> bool {
        &&& self.walking.no_duplicates()
        &&& schedule::each_once(self.asleep)
        &&& forall|k: usize| #[trigger]
            self.walking.contains(k) ==> self.roams(k) && !schedule::sleeps(self.asleep, k)
        &&& forall|k: usize| #[trigger] schedule::sleeps(self.asleep, k) ==> self.roams(k)
    }
}

/// The dead do not walk: a creature that was killed is neither among those that walk
/// nor among those that sleep, and everybody else goes on as before.
pub proof fn the_dead_do_not_walk(v: MapView, key: usize, now: u64)
    requires
        v.paced(),
        v.creatures.contains_key(key),
    ensures
        v.killed(key, now).paced(),
        !v.killed(key, now).walking.contains(key),
        !schedule::sleeps(v.killed(key, now).asleep, key),
{
    let w = v.killed(key, now);
    if v.roams(key) {
        lemma_without(v.walking, key);
        schedule::forgetting_keeps_each_once(v.asleep, key);
        assert forall|k: usize| #[trigger] schedule::sleeps(w.asleep, k) implies w.roams(k) by {
            schedule::the_forgotten_do_not_sleep(v.asleep, key, k);
            assert(schedule::sleeps(v.asleep, k));
        }
        schedule::the_forgotten_do_not_sleep(v.asleep, key, key);
        assert forall|k: usize| #[trigger] w.walking.contains(k) implies w.roams(k) && !schedule::sleeps(
            w.asleep,
            k,
        ) by {
            assert(v.walking.contains(k));
            schedule::the_forgotten_do_not_sleep(v.asleep, key, k);
        }
    } else {
        assert(!v.walking.contains(key));
        assert(!schedule::sleeps(v.asleep, key));
        assert(w.walking == v.walking && w.asleep == v.asleep);
        lemma_still_paced(v, w);
    }
}

proof fn lemma_still_paced(v: MapView, w: MapView)
    requires
        v.paced(),
        w.walking == v.walking,
        w.asleep == v.asleep,
        forall|k: usize| #[trigger] v.roams(k) ==> w.roams(k),
    ensures
        w.paced(),
{
    assert forall|k: usize| #[trigger] w.walking.contains(k) implies w.roams(k) && !schedule::sleeps(w.asleep, k) by {
        assert(v.walking.contains(k));
        assert(v.roams(k));
    }
    assert forall|k: usize| #[trigger] schedule::sleeps(w.asleep, k) implies w.roams(k) by {
        assert(v.roams(k));
    }
}

/// The map with `key` on the list of those that walk, who did neither walk nor sleep.
proof fn lemma_one_more_walks(v: MapView, w: MapView, key: usize)
    requires
        v.paced(),
        w.walking == v.walking.push(key),
        w.asleep == v.asleep,
        w.roams(key),
        !v.walking.contains(key),
        !schedule::sleeps(v.asleep, key),
        forall|k: usize| #[trigger] v.roams(k) ==> w.roams(k),
    ensures
        w.paced(),
        forall|k: usize| #[trigger] w.walking.contains(k) <==> v.walking.contains(k) || k == key,
{
    crate::aoi::lemma_push_unique(v.walking, key);
    assert forall|k: usize| #[trigger] w.walking.contains(k) <==> v.walking.contains(k) || k == key by {
        crate::aoi::lemma_push_contains(v.walking, key, k);
    }
    assert forall|k: usize| #[trigger] w.walking.contains(k) implies w.roams(k) && !schedule::sleeps(w.asleep, k) by {
        if k != key {
            assert(v.walking.contains(k) && v.roams(k));
        }
    }
    assert forall|k: usize| #[trigger] schedule::sleeps(w.asleep, k) implies w.roams(k) by {
        assert(v.roams(k));
    }
}

/// A living creature that is new on the map, and one that comes back, is listed once.
pub proof fn who_comes_is_listed_once(v: MapView, key: usize, c: Creature, now: u64, near: Seq<usize>)
    requires
        v.paced(),
    ensures
        !v.creatures.contains_key(key) && c.life_state is Alive ==> v.spawned(key, c, near).paced(),
        v.creatures.contains_key(key) && !(v.creatures[key].life_state is Alive) ==> v.decayed(key, now).paced()
            && v.revived(key, now, near).paced(),
{
    if !v.creatures.contains_key(key) && c.life_state is Alive {
        let w = v.spawned(key, c, near);
        assert(!v.walking.contains(key) && !schedule::sleeps(v.asleep, key)) by {
            assert(!v.roams(key));
        }
        assert forall|k: usize| #[trigger] v.roams(k) implies w.roams(k) by {}
        if c.behavior.walks() {
            lemma_one_more_walks(v, w, key);
        } else {
            lemma_still_paced(v, w);
        }
    }
    if v.creatures.contains_key(key) && !(v.creatures[key].life_state is Alive) {
        assert(!v.walking.contains(key) && !schedule::sleeps(v.asleep, key)) by {
            assert(!v.roams(key));
        }
        let d = v.decayed(key, now);
        assert forall|k: usize| #[trigger] v.roams(k) implies d.roams(k) by {}
        lemma_still_paced(v, d);
        let w = v.revived(key, now, near);
        assert forall|k: usize| #[trigger] v.roams(k) implies w.roams(k) by {}
        if v.creatures[key].behavior.walks() {
            lemma_one_more_walks(v, w, key);
        } else {
            lemma_still_paced(v, w);
        }
    }
}

proof fn lemma_woken_paced(v: MapView, keys: Seq<usize>, now: u64)
    requires
        v.paced(),
        keys.no_duplicates(),
        forall|k: usize| #[trigger]
            keys.contains(k) ==> v.roams(k) && !v.walking.contains(k) && !schedule::sleeps(v.asleep, k),
    ensures
        v.woken(keys, now).paced(),
        v.woken(keys, now).creatures == v.creatures,
        forall|k: usize| #[trigger]
            v.woken(keys, now).walking.contains(k) ==> v.walking.contains(k) || keys.contains(k),
        forall|k: usize| #[trigger]
            schedule::sleeps(v.woken(keys, now).asleep, k) ==> schedule::sleeps(v.asleep, k) || keys.contains(k),
    decreases keys.len(),
{
    if keys.len() > 0 {
        let front = keys.drop_last();
        let key = keys.last();
        assert forall|k: usize| #[trigger] front.contains(k) implies keys.contains(k) by {
            let i = choose|i: int| 0 <= i < front.len() && front[i] == k;
            assert(keys[i] == k);
        }
        lemma_woken_paced(v, front, now);
        let w = v.woken(front, now);
        let x = v.woken(keys, now);
        assert(keys.contains(key)) by {
            assert(keys[keys.len() - 1] == key);
        }
        assert(!front.contains(key)) by {
            if front.contains(key) {
                let i = choose|i: int| 0 <= i < front.len() && front[i] == key;
                assert(keys[i] == keys[keys.len() - 1]);
            }
        }
        assert(w.roams(key) && !w.walking.contains(key) && !schedule::sleeps(w.asleep, key));
        if w.is_awake(w.creatures[key].info.position) {
            lemma_one_more_walks(w, x, key);
        } else {
            schedule::parking_keeps_each_once(w.asleep, clock::later_spec(now, IDLE_GRID_RECHECK), key);
            assert forall|k: usize| #[trigger] x.walking.contains(k) implies x.roams(k) && !schedule::sleeps(
                x.asleep,
                k,
            ) by {
                assert(w.walking.contains(k) && w.roams(k));
            }
            assert forall|k: usize| #[trigger] schedule::sleeps(x.asleep, k) implies x.roams(k) by {
                if k != key {
                    assert(w.roams(k));
                }
            }
        }
    }
}

/// Only the living are woken, and whoever is woken is listed once.
pub proof fn only_the_living_are_woken(v: MapView, now: u64, k: usize)
    requires
        v.paced(),
    ensures
        v.awake(now).paced(),
        v.awake(now).walking.contains(k) ==> v.creatures.contains_key(k) && v.creatures[k].life_state is Alive,
{
    schedule::waking_takes_each_once(v.asleep, now);
    let rest = MapView { asleep: schedule::not_due(v.asleep, now), ..v };
    let keys = schedule::due(v.asleep, now);
    assert forall|j: usize| #[trigger] rest.walking.contains(j) implies rest.roams(j) && !schedule::sleeps(
        rest.asleep,
        j,
    ) by {
        assert(v.walking.contains(j) && v.roams(j));
    }
    assert forall|j: usize| #[trigger] schedule::sleeps(rest.asleep, j) implies rest.roams(j) by {
        assert(v.roams(j));
    }
    assert forall|j: usize| #[trigger] keys.contains(j) implies rest.roams(j) && !rest.walking.contains(j)
        && !schedule::sleeps(rest.asleep, j) by {
        assert(schedule::sleeps(v.asleep, j) && v.roams(j));
        if v.walking.contains(j) {
            assert(!schedule::sleeps(v.asleep, j));
        }
    }
    lemma_woken_paced(rest, keys, now);
    if v.awake(now).walking.contains(k) {
        assert(v.awake(now).roams(k));
    }
}

/// Whoever is put back on the list of those that walk is alive.
pub proof fn nobody_dead_is_put_back(v: MapView, now: u64, k: usize)
    ensures
        v.awake(now).walking.contains(k) && !v.walking.contains(k) ==> v.awake(now).creatures.contains_key(k)
            && v.awake(now).creatures[k].life_state is Alive,
        v.awake(now).creatures == v.creatures,
{
    let rest = MapView { asleep: schedule::not_due(v.asleep, now), ..v };
    lemma_put_back(rest, schedule::due(v.asleep, now), now, k);
}

proof fn lemma_put_back(v: MapView, keys: Seq<usize>, now: u64, k: usize)
    ensures
        v.woken(keys, now).creatures == v.creatures,
        v.woken(keys, now).walking.contains(k) && !v.walking.contains(k) ==> v.creatures.contains_key(k)
            && v.creatures[k].life_state is Alive,
    decreases keys.len(),
{
    if keys.len() > 0 {
        lemma_put_back(v, keys.drop_last(), now, k);
        crate::aoi::lemma_push_contains(v.woken(keys.drop_last(), now).walking, keys.last(), k);
    }
}

/// Whether the creatures of `w` are those of `v`, as alive as they were and with the
/// same habits.
pub open spec fn as_alive(v: MapView, w: MapView) -> bool {
    &&& w.creatures.dom() == v.creatures.dom()
    &&& forall|k: usize| #[trigger]
        v.creatures.contains_key(k) ==> w.creatures[k].life_state == v.creatures[k].life_state
            && w.creatures[k].behavior.walks() == v.creatures[k].behavior.walks()
}

proof fn lemma_planned_alive(v: MapView, keys: Seq<usize>, now: u64)
    requires
        forall|k: usize| #[trigger] keys.contains(k) ==> v.creatures.contains_key(k),
    ensures
        as_alive(v, v.all_planned(keys, now).0),
        v.all_planned(keys, now).0.walking == v.walking,
        v.all_planned(keys, now).0.asleep == v.asleep,
    decreases keys.len(),
{
    if keys.len() > 0 {
        let front = keys.drop_last();
        assert forall|k: usize| #[trigger] front.contains(k) implies v.creatures.contains_key(k) by {
            let i = choose|i: int| 0 <= i < front.len() && front[i] == k;
            assert(keys[i] == k);
            assert(keys.contains(k));
        }
        lemma_planned_alive(v, front, now);
        assert(keys[keys.len() - 1] == keys.last());
        assert(keys.contains(keys.last()));
        let w = v.all_planned(keys, now).0;
        assert(w.creatures.dom() =~= v.creatures.dom());
    }
}

proof fn lemma_walked_alive(
    v: MapView,
    keys: Seq<usize>,
    plans: Seq<WalkPlan>,
    steps: Seq<Option<WalkStep>>,
    now: u64,
    cfg: CreatureConfig,
)
    requires
        keys.no_duplicates(),
        forall|k: usize| #[trigger] keys.contains(k) ==> v.creatures.contains_key(k),
    ensures
        ({
            let o = v.all_walked(keys, plans, steps, now, cfg);
            &&& as_alive(v, o.state)
            &&& o.state.walking == v.walking
            &&& o.state.asleep == v.asleep
            &&& forall|k: usize| #[trigger] is_parked(o.parks, k) ==> keys.contains(k)
            &&& parked_once(o.parks)
        }),
    decreases keys.len(),
{
    if keys.len() > 0 {
        let front = keys.drop_last();
        let key = keys.last();
        assert forall|k: usize| #[trigger] front.contains(k) implies keys.contains(k) by {
            let i = choose|i: int| 0 <= i < front.len() && front[i] == k;
            assert(keys[i] == k);
        }
        assert forall|k: usize| #[trigger] front.contains(k) implies v.creatures.contains_key(k) by {
            assert(keys.contains(k));
        }
        lemma_walked_alive(v, front, plans, steps, now, cfg);
        assert(keys[keys.len() - 1] == key);
        assert(keys.contains(key));
        assert(!front.contains(key)) by {
            if front.contains(key) {
                let i = choose|i: int| 0 <= i < front.len() && front[i] == key;
                assert(keys[i] == keys[keys.len() - 1]);
            }
        }
        let a = v.all_walked(front, plans, steps, now, cfg);
        let o = v.all_walked(keys, plans, steps, now, cfg);
        assert(o.state.creatures.dom() =~= v.creatures.dom());
        assert(!is_parked(a.parks, key));
        assert(o.parks == a.parks || exists|when: u64| o.parks == #[trigger] a.parks.push((when, key)));
        if o.parks != a.parks {
            let when = choose|when: u64| o.parks == #[trigger] a.parks.push((when, key));
            lemma_parks_push(a.parks, when, key);
        }
    }
}

/// Whether nobody is put to sleep twice.
pub open spec fn parked_once(parks: Seq<(u64, usize)>) -> bool {
    forall|i: int, j: int| 0 <= i < j < parks.len() ==> (#[trigger] parks[i]).1 != (#[trigger] parks[j]).1
}

proof fn lemma_parks_push(parks: Seq<(u64, usize)>, when: u64, key: usize)
    requires
        parked_once(parks),
        !is_parked(parks, key),
    ensures
        parked_once(parks.push((when, key))),
        forall|k: usize| #[trigger] is_parked(parks.push((when, key)), k) <==> is_parked(parks, k) || k == key,
{
    let more = parks.push((when, key));
    assert forall|k: usize| #[trigger] is_parked(more, k) <==> is_parked(parks, k) || k == key by {
        if is_parked(parks, k) {
            let i = choose|i: int| 0 <= i < parks.len() && (#[trigger] parks[i]).1 == k;
            assert(more[i].1 == k);
        }
        if k == key {
            assert(more[parks.len() as int].1 == k);
        }
        if is_parked(more, k) && k != key {
            let i = choose|i: int| 0 <= i < more.len() && (#[trigger] more[i]).1 == k;
            assert(parks[i].1 == k);
        }
    }
    assert forall|i: int, j: int| 0 <= i < j < more.len() implies (#[trigger] more[i]).1 != (#[trigger] more[j]).1 by {
        if j == parks.len() {
            assert(parks[i].1 == more[i].1);
        } else {
            assert(parks[i].1 != parks[j].1);
        }
    }
}

proof fn lemma_all_parked(s: Sleepers, parks: Seq<(u64, usize)>)
    requires
        schedule::each_once(s),
        parked_once(parks),
        forall|k: usize| #[trigger] is_parked(parks, k) ==> !schedule::sleeps(s, k),
    ensures
        schedule::each_once(all_parked(s, parks)),
        forall|k: usize| #[trigger]
            schedule::sleeps(all_parked(s, parks), k) <==> schedule::sleeps(s, k) || is_parked(parks, k),
    decreases parks.len(),
{
    if parks.len() > 0 {
        let front = parks.drop_last();
        let (when, key) = parks.last();
        assert(!is_parked(front, key)) by {
            if is_parked(front, key) {
                let i = choose|i: int| 0 <= i < front.len() && (#[trigger] front[i]).1 == key;
                assert(parks[i].1 != parks[parks.len() - 1].1);
            }
        }
        assert(parked_once(front)) by {
            assert forall|i: int, j: int| 0 <= i < j < front.len() implies (#[trigger] front[i]).1 != (
            #[trigger] front[j]).1 by {
                assert(parks[i].1 != parks[j].1);
            }
        }
        assert(parks =~= front.push((when, key)));
        lemma_parks_push(front, when, key);
        assert forall|k: usize| #[trigger] is_parked(front, k) implies !schedule::sleeps(s, k) by {
            assert(is_parked(parks, k));
        }
        assert(is_parked(parks, key));
        lemma_all_parked(s, front);
        schedule::parking_keeps_each_once(all_parked(s, front), when, key);
    }
}

/// A tick of walking leaves everybody listed once, and only the living.
pub proof fn walking_keeps_the_pace(
    v: MapView,
    now: u64,
    plans: Seq<WalkPlan>,
    steps: Seq<Option<WalkStep>>,
    cfg: CreatureConfig,
)
    requires
        v.paced(),
    ensures
        v.awake(now).all_planned(v.awake(now).walking, now).0.paced(),
        v.walked_on(plans, steps, now, cfg).paced(),
{
    only_the_living_are_woken(v, now, 0);
    let a = v.awake(now);
    assert forall|k: usize| #[trigger] a.walking.contains(k) implies a.creatures.contains_key(k) by {
        assert(a.roams(k));
    }
    lemma_planned_alive(a, a.walking, now);
    let p = a.all_planned(a.walking, now).0;
    assert forall|k: usize| #[trigger] a.roams(k) implies p.roams(k) by {}
    lemma_still_paced(a, p);
    assert forall|k: usize| #[trigger] v.walking.contains(k) implies v.creatures.contains_key(k) by {
        assert(v.roams(k));
    }
    lemma_walked_alive(v, v.walking, plans, steps, now, cfg);
    let o = v.all_walked(v.walking, plans, steps, now, cfg);
    lemma_reseated_keeps(o.state, v.walking);
    assert forall|k: usize| #[trigger] is_parked(o.parks, k) implies !schedule::sleeps(v.asleep, k) by {
        assert(v.walking.contains(k));
    }
    lemma_all_parked(v.asleep, o.parks);
    let w = v.walked_on(plans, steps, now, cfg);
    let stays = |k: usize| !is_parked(o.parks, k);
    lemma_filter_once(v.walking, stays);
    assert forall|k: usize| #[trigger] v.roams(k) implies w.roams(k) by {}
    assert forall|k: usize| #[trigger] w.walking.contains(k) implies w.roams(k) && !schedule::sleeps(w.asleep, k) by {
        assert(v.walking.contains(k) && stays(k) && v.roams(k));
    }
    assert forall|k: usize| #[trigger] schedule::sleeps(w.asleep, k) implies w.roams(k) by {
        if is_parked(o.parks, k) {
            assert(v.walking.contains(k));
        }
        assert(v.roams(k));
    }
}

proof fn lemma_filter_once(s: Seq<usize>, f: spec_fn(usize) -> bool)
    requires
        s.no_duplicates(),
    ensures
        s.filter(f).no_duplicates(),
        forall|k: usize| #[trigger] s.filter(f).contains(k) <==> s.contains(k) && f(k),
    decreases s.len(),
{
    reveal(Seq::filter);
    if s.len() > 0 {
        let front = s.drop_last();
        lemma_filter_once(front, f);
        assert(s =~= front.push(s.last()));
        assert(!front.contains(s.last())) by {
            if front.contains(s.last()) {
                let i = choose|i: int| 0 <= i < front.len() && front[i] == s.last();
                assert(s[i] == s[s.len() - 1]);
            }
        }
        if f(s.last()) {
            crate::aoi::lemma_push_unique(front.filter(f), s.last());
        }
        assert forall|k: usize| #[trigger] s.filter(f).contains(k) <==> s.contains(k) && f(k) by {
            crate::aoi::lemma_push_contains(front, s.last(), k);
            crate::aoi::lemma_push_contains(front.filter(f), s.last(), k);
        }
    }
}

/// A creature with no player near neither moves nor is told of: it comes to
/// rest where it stands, and sleeps.
pub proof fn far_from_players_nothing_moves(c: Creature, now: u64)
    requires
        c.life_state is Alive,
    ensures
        planned(c, now, false).0.info.position == c.info.position,
        planned(c, now, false).0.info.flags == 0,
        planned(c, now, false).1 is Park,
{
}

/// A creature that arrives stands at its target, at rest, and sleeps; one that
/// walks its waypoints heads for a waypoint that it has.
pub proof fn who_arrives_rests(
    c: Creature,
    now: u64,
    just_started: bool,
    target: Place,
    s: WalkStep,
    cfg: CreatureConfig,
)
    requires
        c.behavior.walks(),
        cfg.wander_idle_min_ms < cfg.wander_idle_max_ms,
        arrives(s, cfg.arrival_threshold),
    ensures
        ({
            let (d, told, park) = walked(c, now, just_started, target, s, cfg);
            &&& d.info.position == target
            &&& d.info.flags == 0
            &&& told.last() == CreatureMoveEvent::Stop
            &&& park is Some
            &&& park->0 >= now
            &&& d.behavior.walks()
            &&& d.behavior is Waypoint && d.behavior->waypoints@.len() > 0 ==> d.behavior->current
                < d.behavior->waypoints@.len()
        }),
{
}

/// A creature that reaches the waypoint it heads for stands there at rest, pauses for as
/// long as it is to wait there, but for half a second at least, and heads for the next
/// waypoint then, after the last one for the first.
pub proof fn who_reaches_a_waypoint_heads_for_the_next(
    c: &mut Creature,
    key: usize,
    now: u64,
    just_started: bool,
    target: Place,
    s: &WalkStep,
    cfg: &CreatureConfig,
    events: &mut Vec<(usize, CreatureMoveEvent)>,
    r: Option<u64>,
)
    requires
        old(c).behavior is Waypoint,
        old(c).behavior->current < old(c).behavior->waypoints@.len(),
        s.dist <= s.step <= 0x7f80_0000 || s.dist <= cfg.arrival_threshold <= 0x7f80_0000,
        call_ensures(walk_creature, (c, key, now, just_started, target, s, cfg, events), r),
    ensures
        ({
            let was = old(c).behavior;
            let after = final(c).behavior;
            let n = was->waypoints@.len() as int;
            let i = was->current as int;
            let wait: int = if i < was->waittimes_ms@.len() && was->waittimes_ms@[i] > 500 {
                was->waittimes_ms@[i] as int
            } else {
                500
            };
            &&& after is Waypoint
            &&& after->waypoints == was->waypoints && after->waittimes_ms == was->waittimes_ms
            &&& after->current == (i + 1) % n
            &&& r is Some
            &&& after->idle_until == r
            &&& now + wait * 1_000_000 <= u64::MAX ==> r->0 == now + wait * 1_000_000
            &&& final(c).info.position == target
            &&& final(c).info.flags == 0
            &&& final(c).info.orientation == (if just_started {
                s.orientation
            } else {
                old(c).info.orientation
            })
            &&& final(c).guid == old(c).guid && final(c).health == old(c).health && final(c).life_state == old(c).life_state && final(c).map == old(c).map && final(c).cached_object is None
            &&& final(events)@ == old(events)@ + (if just_started {
                seq![(key, CreatureMoveEvent::StartForward), (key, CreatureMoveEvent::Stop)]
            } else {
                seq![(key, CreatureMoveEvent::Stop)]
            })
        }),
{
    let was = old(c).behavior;
    let n = was->waypoints@.len() as int;
    let i = was->current as int;
    assert(was->waypoints.len() == n);
    if i + 1 < n {
        assert((i + 1) % n == i + 1) by (nonlinear_arith)
            requires
                0 <= i + 1 < n,
        ;
    } else {
        assert((i + 1) % n == 0) by (nonlinear_arith)
            requires
                i + 1 == n,
                n > 0,
        ;
    }
    let told = walked(*old(c), now, just_started, target, *s, *cfg).1;
    assert(told.len() == if just_started {
        2
    } else {
        1int
    });
    assert(final(events)@ =~= old(events)@ + (if just_started {
        seq![(key, CreatureMoveEvent::StartForward), (key, CreatureMoveEvent::Stop)]
    } else {
        seq![(key, CreatureMoveEvent::Stop)]
    }));
}

/// A creature that wanders and reaches where it went stands there at rest, and decides anew
/// after a pause from the shortest up to the longest one.
pub proof fn who_wanders_pauses_where_it_went(
    c: &mut Creature,
    key: usize,
    now: u64,
    just_started: bool,
    target: Place,
    s: &WalkStep,
    cfg: &CreatureConfig,
    events: &mut Vec<(usize, CreatureMoveEvent)>,
    r: Option<u64>,
)
    requires
        old(c).behavior is RandomWander,
        cfg.wander_idle_min_ms < cfg.wander_idle_max_ms,
        s.dist <= s.step <= 0x7f80_0000 || s.dist <= cfg.arrival_threshold <= 0x7f80_0000,
        call_ensures(walk_creature, (c, key, now, just_started, target, s, cfg, events), r),
    ensures
        ({
            let was = old(c).behavior;
            let after = final(c).behavior;
            let idle = cfg.wander_idle_min_ms + s.roll as int % (cfg.wander_idle_max_ms - cfg.wander_idle_min_ms);
            &&& after is RandomWander
            &&& after->anchor == was->anchor && after->radius == was->radius
            &&& after->RandomWander_target is None
            &&& r == Some(after->next_decision_at)
            &&& cfg.wander_idle_min_ms <= idle < cfg.wander_idle_max_ms
            &&& now + idle * 1_000_000 <= u64::MAX ==> after->next_decision_at == now + idle * 1_000_000
            &&& final(c).info.position == target
            &&& final(c).info.flags == 0
        }),
{
    let (lo, hi, roll) = (cfg.wander_idle_min_ms as int, cfg.wander_idle_max_ms as int, s.roll as int);
    assert(0 <= roll % (hi - lo) < hi - lo) by (nonlinear_arith)
        requires
            roll >= 0,
            hi > lo,
    ;
    let idle = lo + roll % (hi - lo);
    assert((idle as u64) * 1_000_000 == idle * 1_000_000);
}

/// A creature that does not get to its target yet stands where its step takes it, still
/// heads there, and does not sleep. That it starts is told, and that it is on its way from
/// time to time.
pub proof fn who_is_on_the_way_walks_on(
    c: &mut Creature,
    key: usize,
    now: u64,
    just_started: bool,
    target: Place,
    s: &WalkStep,
    cfg: &CreatureConfig,
    events: &mut Vec<(usize, CreatureMoveEvent)>,
    r: Option<u64>,
)
    requires
        old(c).behavior is RandomWander ==> cfg.wander_idle_min_ms < cfg.wander_idle_max_ms,
        s.step < s.dist <= 0x7f80_0000,
        cfg.arrival_threshold < s.dist,
        call_ensures(walk_creature, (c, key, now, just_started, target, s, cfg, events), r),
    ensures
        r is None,
        final(c).info.position == s.advanced,
        just_started ==> final(c).info.orientation == s.orientation && final(c).info.flags == 0x101,
        !just_started ==> final(c).info.orientation == old(c).info.orientation && final(c).info.flags == old(c).info.flags,
        old(c).behavior is Waypoint ==> final(c).behavior == old(c).behavior,
        old(c).behavior is RandomWander ==> final(c).behavior is RandomWander
            && final(c).behavior->RandomWander_target == Some(target) && final(c).behavior->next_decision_at == old(c).behavior->next_decision_at,
        ({
            let due = !just_started && old(c).last_heartbeat_at <= now && (now - old(c).last_heartbeat_at) / 1_000_000
                >= cfg.walking_heartbeat_ms;
            &&& just_started ==> final(events)@ == old(events)@.push((key, CreatureMoveEvent::StartForward))
            &&& due ==> final(events)@ == old(events)@.push((key, CreatureMoveEvent::Heartbeat)) && final(c).last_heartbeat_at == now
            &&& !just_started && old(c).last_heartbeat_at <= now && !due ==> final(events)@ == old(events)@ && final(c).last_heartbeat_at == old(c).last_heartbeat_at
        }),
{
    assert(FORWARD | WALK_MODE == 0x101) by (bit_vector)
        requires
            FORWARD == 1u32,
            WALK_MODE == 0x100u32,
    ;
    let told = walked(*old(c), now, just_started, target, *s, *cfg).1;
    let tag = |e: CreatureMoveEvent| (key, e);
    if just_started {
        assert(told.map_values(tag) =~= seq![(key, CreatureMoveEvent::StartForward)]);
        assert(final(events)@ =~= old(events)@.push((key, CreatureMoveEvent::StartForward)));
    } else if heartbeat_is_due(*old(c), now, cfg.walking_heartbeat_ms) {
        assert(told.map_values(tag) =~= seq![(key, CreatureMoveEvent::Heartbeat)]);
        assert(final(events)@ =~= old(events)@.push((key, CreatureMoveEvent::Heartbeat)));
    } else {
        assert(told.map_values(tag) =~= Seq::<(usize, CreatureMoveEvent)>::empty());
        assert(final(events)@ =~= old(events)@);
    }
}

/// Whether `b` is the creature `a` after it reached the waypoint that it headed for.
pub open spec fn reached_a_waypoint(a: Creature, b: Creature) -> bool {
    exists|now: u64, just_started: bool, target: Place, s: WalkStep, cfg: CreatureConfig|
        arrives(s, cfg.arrival_threshold) && b == (#[trigger] walked(a, now, just_started, target, s, cfg)).0
}

/// After `j` waypoints were reached, a creature heads for the one `j` places further, around
/// and around: on `n` waypoints, each one is headed for once in `n` times, in order.
pub proof fn a_round_leads_to_every_waypoint(cs: Seq<Creature>, i: int, n: int, j: int)
    requires
        0 <= j < cs.len(),
        cs[0].behavior is Waypoint,
        cs[0].behavior->waypoints@.len() == n,
        0 <= i < n,
        cs[0].behavior->current == i,
        forall|k: int| 0 <= k < cs.len() - 1 ==> #[trigger] reached_a_waypoint(cs[k], cs[k + 1]),
    ensures
        cs[j].behavior is Waypoint,
        cs[j].behavior->waypoints == cs[0].behavior->waypoints,
        cs[j].behavior->current == (i + j) % n,
    decreases j,
{
    if j == 0 {
        assert(i % n == i) by (nonlinear_arith)
            requires
                0 <= i < n,
        ;
    } else {
        a_round_leads_to_every_waypoint(cs, i, n, j - 1);
        assert(reached_a_waypoint(cs[j - 1], cs[j - 1 + 1]));
        let p = (i + j - 1) % n;
        let next = (i + j) % n;
        assert(0 <= p < n && (p + 1 < n ==> next == p + 1) && (p + 1 == n ==> next == 0)) by (nonlinear_arith)
            requires
                p == (i + j - 1) % n,
                next == (i + j) % n,
                n > 0,
        ;
        assert(cs[j - 1].behavior->current == p);
        assert(cs[j - 1].behavior->waypoints.len() == n);
    }
}

/// What a creature does in a tick: the dead and the rooted do nothing; far from players it
/// rests for a second; one that follows waypoints goes to the one that it heads for once
/// its pause is over; one that wanders goes on to where it went, or somewhere new once its
/// pause is over.
pub proof fn a_creature_plans_its_way(c: &mut Creature, now: u64, active: bool, r: WalkPlan)
    requires
        call_ensures(plan_creature, (c, now, active), r),
    ensures
        ({
            let was = *old(c);
            let after = *final(c);
            let held = was.root_until is Some && was.root_until->0 > now;
            let alive = was.life_state is Alive;
            let elapsed: int = if was.last_advanced_at <= now {
                now - was.last_advanced_at
            } else {
                0
            };
            &&& after.info.position == was.info.position && after.guid == was.guid && after.health == was.health
                && after.life_state == was.life_state && after.root_until == was.root_until
            &&& !alive ==> r is Still && after == was
            &&& alive ==> after.last_advanced_at == now
            &&& alive && !active ==> r is Park && after.info.flags == 0
            &&& alive && !active && now + 1_000_000_000 <= u64::MAX ==> r->when == now + 1_000_000_000
            &&& alive && active && held ==> r is Still && after.behavior == was.behavior
            &&& alive && active && !held && was.behavior is Waypoint ==> {
                let points = was.behavior->waypoints@;
                let at = was.behavior->current as int;
                let pausing = was.behavior->idle_until is Some && now < was.behavior->idle_until->0;
                &&& points.len() == 0 ==> r is Still
                &&& points.len() > 0 && pausing ==> r is Park && r->when == was.behavior->idle_until->0
                &&& at < points.len() && !pausing ==> r is Go && r->Go_target == Some(points[at]) && r->elapsed
                    == elapsed && r->just_started == (was.behavior->idle_until is Some) && after.behavior is Waypoint
                    && after.behavior->current == at && after.behavior->idle_until is None
                    && after.behavior->waypoints == was.behavior->waypoints
            }
            &&& alive && active && !held && was.behavior is RandomWander ==> {
                let going = was.behavior->RandomWander_target;
                &&& after.behavior == was.behavior
                &&& going is Some ==> r is Go && r->Go_target == going && !r->just_started && r->elapsed == elapsed
                &&& going is None && now < was.behavior->next_decision_at ==> r is Park && r->when
                    == was.behavior->next_decision_at
                &&& going is None && now >= was.behavior->next_decision_at ==> r is Go && r->Go_target is None
                    && r->just_started && r->elapsed == elapsed
            }
            &&& alive && active && !(was.behavior is Waypoint) && !(was.behavior is RandomWander) ==> r is Still
        }),
{
}

proof fn lemma_each_walks_once(
    v: MapView,
    keys: Seq<usize>,
    plans: Seq<WalkPlan>,
    steps: Seq<Option<WalkStep>>,
    now: u64,
    cfg: CreatureConfig,
    i: int,
    k: usize,
)
    requires
        keys.no_duplicates(),
        0 <= i < keys.len(),
    ensures
        ({
            let o = v.all_walked(keys, plans, steps, now, cfg);
            let c = v.creatures[keys[i]];
            &&& !keys.contains(k) ==> o.state.creatures[k] == v.creatures[k]
            &&& match plans[i] {
                WalkPlan::Go { elapsed, just_started, target } => {
                    let s = steps[i]->0;
                    let t = match target {
                        Some(t) => t,
                        None => s.target,
                    };
                    let w = walked(c, now, just_started, t, s, cfg);
                    &&& o.state.creatures[keys[i]] == w.0
                    &&& is_parked(o.parks, keys[i]) <==> w.2 is Some
                    &&& w.2 is Some ==> o.parks.contains((w.2->0, keys[i]))
                    &&& arrives(s, cfg.arrival_threshold) ==> o.events.contains((keys[i], CreatureMoveEvent::Stop))
                    &&& just_started ==> o.events.contains((keys[i], CreatureMoveEvent::StartForward))
                },
                WalkPlan::Park { when } => o.state.creatures[keys[i]] == c && o.parks.contains((when, keys[i])),
                WalkPlan::Still => o.state.creatures[keys[i]] == c && !is_parked(o.parks, keys[i]),
            }
        }),
    decreases keys.len(),
{
    let front = keys.drop_last();
    let last = keys.last();
    let o = v.all_walked(keys, plans, steps, now, cfg);
    let a = v.all_walked(front, plans, steps, now, cfg);
    assert(keys =~= front.push(last));
    crate::aoi::lemma_push_contains(front, last, k);
    assert(!front.contains(last)) by {
        if front.contains(last) {
            let x = choose|x: int| 0 <= x < front.len() && front[x] == last;
            assert(keys[x] == keys[keys.len() - 1]);
        }
    }
    lemma_only_walkers_change(v, front, plans, steps, now, cfg, last);
    lemma_only_walkers_change(v, front, plans, steps, now, cfg, k);
    assert(keys[keys.len() - 1] == last);
    if i < front.len() {
        assert(front[i] == keys[i]);
        assert(keys[i] != last);
        lemma_each_walks_once(v, front, plans, steps, now, cfg, i, k);
        assert(forall|p: (u64, usize)| a.parks.contains(p) ==> o.parks.contains(p)) by {
            assert forall|p: (u64, usize)| a.parks.contains(p) implies o.parks.contains(p) by {
                let x = choose|x: int| 0 <= x < a.parks.len() && a.parks[x] == p;
                assert(o.parks[x] == p);
            }
        }
        assert(is_parked(o.parks, keys[i]) <==> is_parked(a.parks, keys[i])) by {
            if is_parked(a.parks, keys[i]) {
                let x = choose|x: int| 0 <= x < a.parks.len() && (#[trigger] a.parks[x]).1 == keys[i];
                assert(o.parks[x].1 == keys[i]);
            }
            if is_parked(o.parks, keys[i]) {
                let x = choose|x: int| 0 <= x < o.parks.len() && (#[trigger] o.parks[x]).1 == keys[i];
                assert(a.parks[x].1 == keys[i]);
            }
        }
        assert forall|x: (usize, CreatureMoveEvent)| a.events.contains(x) implies o.events.contains(x) by {
            let y = choose|y: int| 0 <= y < a.events.len() && a.events[y] == x;
            assert(o.events[y] == x);
        }
    } else {
        match plans[i] {
            WalkPlan::Go { elapsed, just_started, target } => {
                let s = steps[i]->0;
                let t = match target {
                    Some(t) => t,
                    None => s.target,
                };
                let w = walked(v.creatures[last], now, just_started, t, s, cfg);
                if w.2 is Some {
                    assert(o.parks[a.parks.len() as int] == (w.2->0, last));
                    assert(o.parks[a.parks.len() as int].1 == last);
                }
                let n = a.events.len() as int;
                assert(o.events.len() == n + w.1.len());
                if arrives(s, cfg.arrival_threshold) {
                    assert(o.events[n + w.1.len() - 1] == (last, CreatureMoveEvent::Stop));
                }
                if just_started {
                    assert(o.events[n] == (last, CreatureMoveEvent::StartForward));
                }
            },
            WalkPlan::Park { when } => {
                assert(o.parks[a.parks.len() as int] == (when, last));
            },
            WalkPlan::Still => {},
        }
    }
}

proof fn lemma_only_walkers_change(
    v: MapView,
    keys: Seq<usize>,
    plans: Seq<WalkPlan>,
    steps: Seq<Option<WalkStep>>,
    now: u64,
    cfg: CreatureConfig,
    k: usize,
)
    ensures
        !keys.contains(k) ==> {
            let o = v.all_walked(keys, plans, steps, now, cfg);
            &&& o.state.creatures[k] == v.creatures[k]
            &&& !is_parked(o.parks, k)
        },
    decreases keys.len(),
{
    if keys.len() > 0 && !keys.contains(k) {
        let front = keys.drop_last();
        assert(keys =~= front.push(keys.last()));
        crate::aoi::lemma_push_contains(front, keys.last(), k);
        lemma_only_walkers_change(v, front, plans, steps, now, cfg, k);
        let a = v.all_walked(front, plans, steps, now, cfg);
        let o = v.all_walked(keys, plans, steps, now, cfg);
        if is_parked(o.parks, k) {
            let x = choose|x: int| 0 <= x < o.parks.len() && (#[trigger] o.parks[x]).1 == k;
            assert(a.parks[x].1 == k);
        }
    }
}

/// In a tick of walking every creature that goes gets to its target, if that is no farther
/// than its step or than where it counts as arrived, and then sleeps; otherwise it gets to
/// where its step takes it, and stays among those that walk. Who is to sleep sleeps where it
/// stands, and who does not walk does not move.
pub proof fn everybody_walks_as_planned(
    m: &mut MapState,
    plans: &Vec<WalkPlan>,
    steps: &Vec<Option<WalkStep>>,
    now: u64,
    cfg: &CreatureConfig,
    r: Vec<(usize, CreatureMoveEvent)>,
    i: int,
    other: usize,
)
    requires
        old(m).wf(),
        forall|i: int|
            0 <= i < old(m)@.walking.len() && old(m)@.creatures[#[trigger] old(m)@.walking[i]].behavior is RandomWander
                ==> cfg.wander_idle_min_ms < cfg.wander_idle_max_ms,
        plans@.len() == old(m)@.walking.len(),
        steps@.len() == old(m)@.walking.len(),
        forall|i: int| 0 <= i < old(m)@.walking.len() ==> old(m)@.creatures.contains_key(
            #[trigger] old(m)@.walking[i],
        ),
        forall|i: int| 0 <= i < plans@.len() && (#[trigger] plans@[i]) is Go ==> steps@[i] is Some,
        call_ensures(MapState::finish_walking, (m, plans, steps, now, cfg), r),
        old(m)@.walking.no_duplicates(),
        0 <= i < old(m)@.walking.len(),
    ensures
        ({
            let k = old(m)@.walking[i];
            let was = old(m)@.creatures[k];
            let after = final(m)@.creatures[k];
            match plans@[i] {
                WalkPlan::Go { elapsed, just_started, target } => {
                    let s = steps@[i]->0;
                    let goal = if target is Some {
                        target->0
                    } else {
                        s.target
                    };
                    let far = s.step < s.dist <= 0x7f80_0000 && cfg.arrival_threshold < s.dist;
                    let near = s.dist <= s.step <= 0x7f80_0000 || s.dist <= cfg.arrival_threshold <= 0x7f80_0000;
                    &&& near ==> after.info.position == goal && after.info.flags == 0 && r@.contains(
                        (k, CreatureMoveEvent::Stop),
                    )
                    &&& near && was.behavior.walks() ==> !final(m)@.walking.contains(k)
                    &&& far ==> after.info.position == s.advanced && final(m)@.walking.contains(k)
                    &&& just_started ==> r@.contains((k, CreatureMoveEvent::StartForward)) && after.info.orientation
                        == s.orientation
                    &&& !(after.life_state is Respawning) ==> final(m)@.creature_cells.contains_key(k) && final(m)@.creature_cells[k] == after.info.position.cell
                },
                WalkPlan::Park { .. } => after == was && !final(m)@.walking.contains(k),
                WalkPlan::Still => after == was && final(m)@.walking.contains(k),
            }
        }),
        !old(m)@.walking.contains(other) ==> final(m)@.creatures[other] == old(m)@.creatures[other],
        final(m)@.clients == old(m)@.clients,
{
    let v = old(m)@;
    let keys = v.walking;
    let k = keys[i];
    let o = v.all_walked(keys, plans@, steps@, now, *cfg);
    lemma_each_walks_once(v, keys, plans@, steps@, now, *cfg, i, other);
    lemma_reseated_keeps(o.state, keys);
    let stays = |j: usize| !is_parked(o.parks, j);
    lemma_filter_once(keys, stays);
    assert(keys.contains(k));
    assert(final(m)@.walking.contains(k) <==> !is_parked(o.parks, k));
    lemma_all_walked_dom(v, keys, plans@, steps@, now, *cfg);
    if !(o.state.creatures[k].life_state is Respawning) {
        lemma_seated_where_they_stand(o.state, keys, k);
    }
    match plans@[i] {
        WalkPlan::Go { .. } => {},
        WalkPlan::Park { when } => {
            let x = choose|x: int| 0 <= x < o.parks.len() && o.parks[x] == (when, k);
            assert(o.parks[x].1 == k);
        },
        WalkPlan::Still => {},
    }
}

proof fn lemma_all_walked_dom(
    v: MapView,
    keys: Seq<usize>,
    plans: Seq<WalkPlan>,
    steps: Seq<Option<WalkStep>>,
    now: u64,
    cfg: CreatureConfig,
)
    requires
        forall|i: int| 0 <= i < keys.len() ==> v.creatures.contains_key(#[trigger] keys[i]),
    ensures
        v.all_walked(keys, plans, steps, now, cfg).state.creatures.dom() == v.creatures.dom(),
        v.all_walked(keys, plans, steps, now, cfg).state.clients == v.clients,
    decreases keys.len(),
{
    if keys.len() > 0 {
        let front = keys.drop_last();
        assert forall|i: int| 0 <= i < front.len() implies v.creatures.contains_key(#[trigger] front[i]) by {
            assert(front[i] == keys[i]);
        }
        lemma_all_walked_dom(v, front, plans, steps, now, cfg);
        assert(v.creatures.contains_key(keys[keys.len() - 1]));
        assert(v.all_walked(keys, plans, steps, now, cfg).state.creatures.dom() =~= v.creatures.dom());
    }
}

proof fn lemma_seated_where_they_stand(v: MapView, keys: Seq<usize>, k: usize)
    requires
        v.creatures.contains_key(k),
        !(v.creatures[k].life_state is Respawning),
    ensures
        keys.contains(k) ==> v.all_reseated(keys).creature_cells.contains_key(k)
            && v.all_reseated(keys).creature_cells[k] == v.creatures[k].info.position.cell,
    decreases keys.len(),
{
    if keys.len() > 0 {
        let front = keys.drop_last();
        assert(keys =~= front.push(keys.last()));
        crate::aoi::lemma_push_contains(front, keys.last(), k);
        lemma_seated_where_they_stand(v, front, k);
        lemma_reseated_keeps(v, front);
    }
}

proof fn lemma_woken(v: MapView, keys: Seq<usize>, now: u64, k: usize)
    ensures
        ({
            let w = v.woken(keys, now);
            let up = v.creatures.contains_key(k) && v.creatures[k].life_state is Alive;
            let near = v.active_grids.contains(spatial::cell_id(v.creatures[k].info.position.grid));
            &&& w == (MapView { walking: w.walking, asleep: w.asleep, ..v })
            &&& w.walking.contains(k) <==> v.walking.contains(k) || (keys.contains(k) && up && near)
            &&& keys.contains(k) && up && !near ==> schedule::sleeping_until(
                w.asleep,
                clock::later_spec(now, 1_000_000_000),
            ).contains(k)
        }),
    decreases keys.len(),
{
    if keys.len() > 0 {
        let init = keys.drop_last();
        let key = keys.last();
        lemma_woken(v, init, now, k);
        assert(keys =~= init.push(key));
        crate::aoi::lemma_push_contains(init, key, k);
        let mid = v.woken(init, now);
        crate::aoi::lemma_push_contains(mid.walking, key, k);
        crate::aoi::lemma_push_contains(
            schedule::sleeping_until(mid.asleep, clock::later_spec(now, 1_000_000_000)),
            key,
            k,
        );
    }
}

proof fn lemma_all_planned(v: MapView, keys: Seq<usize>, now: u64, i: int, k: usize)
    requires
        keys.no_duplicates(),
    ensures
        ({
            let (w, plans) = v.all_planned(keys, now);
            &&& plans.len() == keys.len()
            &&& w == (MapView { creatures: w.creatures, ..v })
            &&& !keys.contains(k) ==> w.creatures[k] == v.creatures[k]
            &&& 0 <= i < keys.len() ==> (w.creatures[keys[i]], plans[i]) == planned(
                v.creatures[keys[i]],
                now,
                v.active_grids.contains(spatial::cell_id(v.creatures[keys[i]].info.position.grid)),
            )
        }),
    decreases keys.len(),
{
    if keys.len() > 0 {
        let init = keys.drop_last();
        let key = keys.last();
        assert(keys =~= init.push(key));
        lemma_all_planned(v, init, now, i, k);
        lemma_all_planned(v, init, now, i, key);
        crate::aoi::lemma_push_contains(init, key, k);
        if init.contains(key) {
            let j = choose|j: int| 0 <= j < init.len() && init[j] == key;
            assert(keys[j] == keys[keys.len() - 1]);
        }
        if 0 <= i < init.len() {
            assert(init[i] == keys[i]);
            assert(keys[i] != keys[keys.len() - 1]);
        }
    }
}

/// Whoever's time has come and lives is on the list of those who walk, if a player is near,
/// and else looks again after a second. Nobody leaves the list for it.
pub proof fn sleepers_walk_when_players_are_near(m: &mut MapState, now: u64, r: Vec<WalkPlan>, k: usize, t: u64)
    requires
        old(m).wf(),
        forall|i: int| 0 <= i < old(m)@.walking.len() ==> old(m)@.creatures.contains_key(
            #[trigger] old(m)@.walking[i],
        ),
        call_ensures(MapState::plan_walking, (m, now), r),
        old(m)@.awake(now).walking.no_duplicates(),
        old(m)@.asleep.contains_key(t),
        old(m)@.asleep[t].contains(k),
        t <= now,
        now + 1_000_000_000 <= u64::MAX,
    ensures
        ({
            let c = old(m)@.creatures[k];
            let up = old(m)@.creatures.contains_key(k) && c.life_state is Alive;
            let near = old(m)@.active_grids.contains(spatial::cell_id(c.info.position.grid));
            &&& up && near ==> final(m)@.walking.contains(k)
            &&& up && !near ==> final(m)@.asleep.contains_key((now + 1_000_000_000) as u64) && final(m)@.asleep[(now
                + 1_000_000_000) as u64].contains(k)
            &&& !up && !old(m)@.walking.contains(k) ==> !final(m)@.walking.contains(k)
        }),
        old(m)@.walking.contains(k) ==> final(m)@.walking.contains(k),
        r@.len() == final(m)@.walking.len(),
{
    let v = old(m)@;
    let mid = MapView { asleep: schedule::not_due(v.asleep, now), ..v };
    let keys = schedule::due(v.asleep, now);
    schedule::lemma_due_from(v.asleep, now as int, k);
    lemma_woken(mid, keys, now, k);
    lemma_all_planned(v.awake(now), v.awake(now).walking, now, 0, k);
}

/// What every walking creature does is what it plans for itself, given whether a player is
/// near; who does not walk plans nothing.
pub proof fn everybody_plans_for_themselves(m: &mut MapState, now: u64, r: Vec<WalkPlan>, i: int, k: usize)
    requires
        old(m).wf(),
        forall|i: int| 0 <= i < old(m)@.walking.len() ==> old(m)@.creatures.contains_key(
            #[trigger] old(m)@.walking[i],
        ),
        call_ensures(MapState::plan_walking, (m, now), r),
        final(m)@.walking.no_duplicates(),
    ensures
        0 <= i < final(m)@.walking.len() ==> {
            let key = final(m)@.walking[i];
            let c = old(m)@.creatures[key];
            let near = old(m)@.active_grids.contains(spatial::cell_id(c.info.position.grid));
            &&& (final(m)@.creatures[key], r@[i]) == planned(c, now, near)
            &&& !near && c.life_state is Alive ==> r@[i] is Park && final(m)@.creatures[key].info.flags == 0
            &&& final(m)@.creatures[key].info.position == c.info.position
        },
        !final(m)@.walking.contains(k) ==> final(m)@.creatures[k] == old(m)@.creatures[k],
        final(m)@.clients == old(m)@.clients,
{
    let v = old(m)@;
    let mid = MapView { asleep: schedule::not_due(v.asleep, now), ..v };
    lemma_woken(mid, schedule::due(v.asleep, now), now, k);
    let w = v.awake(now);
    lemma_planned_keeps(w, w.walking, now);
    lemma_all_planned(w, w.walking, now, i, k);
}

proof fn lemma_planned_keeps(v: MapView, keys: Seq<usize>, now: u64)
    ensures
        v.all_planned(keys, now).0.walking == v.walking,
    decreases keys.len(),
{
    if keys.len() > 0 {
        lemma_planned_keeps(v, keys.drop_last(), now);
    }
}

proof fn lemma_grounded(v: MapView, events: Seq<(usize, CreatureMoveEvent)>, heights: Seq<Option<u32>>, k: usize)
    ensures
        ({
            let w = v.all_grounded(events, heights);
            let p = v.creatures[k].info.position;
            let q = w.creatures[k].info.position;
            &&& w == (MapView { creatures: w.creatures, ..v })
            &&& w.creatures.dom() == v.creatures.dom()
            &&& v.creatures.contains_key(k) ==> w.creatures[k] == (Creature {
                info: MovementInfo { position: Place { z: q.z, ..p }, ..v.creatures[k].info },
                ..v.creatures[k]
            })
            &&& v.creatures.contains_key(k) && (forall|i: int|
                0 <= i < events.len() && (#[trigger] events[i]).0 == k ==> heights[i] is None) ==> q == p
        }),
    decreases events.len(),
{
    if events.len() > 0 {
        let init = events.drop_last();
        lemma_grounded(v, init, heights, k);
        assert(v.all_grounded(events, heights).creatures.dom() =~= v.creatures.dom());
        assert(events[events.len() - 1] == events.last());
        if forall|i: int| 0 <= i < events.len() && (#[trigger] events[i]).0 == k ==> heights[i] is None {
            assert forall|i: int| 0 <= i < init.len() && (#[trigger] init[i]).0 == k implies heights[i] is None by {
                assert(init[i] == events[i]);
            }
        }
    }
}

proof fn lemma_grounded_at(v: MapView, events: Seq<(usize, CreatureMoveEvent)>, heights: Seq<Option<u32>>, i: int)
    requires
        0 <= i < events.len(),
        v.creatures.contains_key(events[i].0),
        heights[i] is Some,
        forall|j: int| i < j < events.len() && (#[trigger] events[j]).0 == events[i].0 ==> heights[j] is None
            || heights[j] == heights[i],
    ensures
        v.all_grounded(events, heights).creatures[events[i].0].info.position.z == heights[i]->0,
    decreases events.len(),
{
    let init = events.drop_last();
    let n = events.len() - 1;
    lemma_grounded(v, init, heights, events[i].0);
    assert(events[n] == events.last());
    if i < n {
        assert(init[i] == events[i]);
        assert forall|j: int| i < j < init.len() && (#[trigger] init[j]).0 == init[i].0 implies heights[j] is None
            || heights[j] == heights[i] by {
            assert(init[j] == events[j]);
        }
        lemma_grounded_at(v, init, heights, i);
    }
}

proof fn lemma_walk_told(v: MapView, events: Seq<(usize, CreatureMoveEvent)>, i: int)
    requires
        0 <= i < events.len(),
        v.creatures.contains_key(events[i].0),
    ensures
        v.told_of_walks(events).contains(walk_notice(v.creatures[events[i].0], events[i].1)),
    decreases events.len(),
{
    let init = events.drop_last();
    let (key, e) = events.last();
    let x = walk_notice(v.creatures[events[i].0], events[i].1);
    crate::aoi::lemma_push_contains(v.told_of_walks(init), walk_notice(v.creatures[key], e), x);
    if i < init.len() {
        assert(init[i] == events[i]);
        lemma_walk_told(v, init, i);
    }
}

/// A creature that moved is put on the ground where its height is known, and stays where it
/// is otherwise; those near it are told that it starts, is on the way or stops.
pub proof fn walks_are_told(
    m: &mut MapState,
    events: &Vec<(usize, CreatureMoveEvent)>,
    heights: &Vec<Option<u32>>,
    out: &mut Vec<Outgoing>,
    u: (),
    i: int,
)
    requires
        old(m).wf(),
        heights@.len() == events@.len(),
        call_ensures(MapState::tell_of_walks, (m, events, heights, out), u),
        0 <= i < events@.len(),
        old(m)@.creatures.contains_key(events@[i].0),
        forall|j: int| i < j < events@.len() && (#[trigger] events@[j]).0 == events@[i].0 ==> heights@[j] is None
            || heights@[j] == heights@[i],
    ensures
        ({
            let was = old(m)@.creatures[events@[i].0];
            let c = final(m)@.creatures[events@[i].0];
            let to = Audience::Near { map: c.map, place: c.info.position };
            &&& heights@[i] is Some ==> c.info.position.z == heights@[i]->0
            &&& c.info.position.x == was.info.position.x && c.info.position.y == was.info.position.y
                && c.info.position.cell == was.info.position.cell
            &&& c.guid == was.guid && c.map == was.map && c.info.flags == was.info.flags && c.life_state
                == was.life_state && c.health == was.health
            &&& events@[i].1 is StartForward ==> final(out)@.contains(
                Outgoing { to, what: Notice::StartForward { guid: c.guid, info: c.info } },
            )
            &&& events@[i].1 is Heartbeat ==> final(out)@.contains(
                Outgoing { to, what: Notice::Heartbeat { guid: c.guid, info: c.info } },
            )
            &&& events@[i].1 is Stop ==> final(out)@.contains(
                Outgoing { to, what: Notice::Stop { guid: c.guid, info: c.info } },
            )
        }),
        final(m)@.clients == old(m)@.clients,
{
    let v = old(m)@;
    let key = events@[i].0;
    lemma_grounded(v, events@, heights@, key);
    if heights@[i] is Some {
        lemma_grounded_at(v, events@, heights@, i);
    }
    lemma_walk_told(final(m)@, events@, i);
    let s = final(m)@.told_of_walks(events@);
    let x = walk_notice(final(m)@.creatures[key], events@[i].1);
    let j = choose|j: int| 0 <= j < s.len() && s[j] == x;
    assert(final(out)@[old(out)@.len() + j] == x);
}

} // verus!

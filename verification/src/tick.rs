//! The tick of a map: when it is due, how it begins and ends, and how players
//! are welcomed.
use crate::cell::{PacerSnapshot, PacerStates, PlayerRegistry};
use crate::character::Character;
use crate::client::{Client, ClientView};
use crate::clock;
use crate::clock::{MILLISECOND, SECOND};
use crate::config::TickConfig;
use crate::corpses;
use crate::creature::Creature;
use crate::database::{DbView, WorldDatabase};
use crate::departures;
use crate::departures::Departure;
use crate::map_state;
use crate::map_state::{MapState, MapView};
use crate::movement;
use crate::movement::FORWARD;
use crate::notice::{Audience, Notice, Outgoing};
use crate::pacer::TickRateChange;
use crate::slabs;
use crate::swing;
use crate::swing::SwingTarget;
use std::sync::Arc;
use vstd::prelude::*;

verus! {

/// Whether a map that last ticked at `last` is due. A map that is early by up to
/// a quarter of its interval is: two clocks of the same rate would otherwise
/// miss each other every other time.
pub open spec fn due_at(last: Option<u64>, interval: u64, now: u64) -> bool {
    match last {
        Some(t) => clock::since_spec(now, t) + interval / 4 >= interval,
        None => true,
    }
}

/// Every how many ticks a moving player is heard of: more rarely, the slower the
/// map ticks.
pub open spec fn skip_ratio(target_ms: u64, interval: u64) -> u64 {
    let target = if target_ms == 0 {
        1
    } else {
        target_ms
    };
    let ratio = (interval / MILLISECOND) / target;
    if ratio == 0 {
        1
    } else {
        ratio
    }
}

/// How a tick begins.
#[derive(Debug, Clone, Copy, PartialEq, Eq, Structural)]
pub struct TickStart {
    /// The time that passes in the tick, in nanoseconds.
    pub elapsed: u64,
    pub heartbeat_skip_ratio: u64,
}

/// The time that passes in a tick: since the last one, but a second at most; in
/// the first one, what a tick is meant to take.
pub open spec fn passing(last: Option<u64>, now: u64, target: u64) -> u64 {
    match last {
        Some(t) => if clock::since_spec(now, t) > SECOND {
            SECOND
        } else {
            clock::since_spec(now, t)
        },
        None => target,
    }
}

/// How many there are on a map.
#[derive(Debug, Clone, Copy, PartialEq, Eq, Structural)]
pub struct Census {
    pub clients: usize,
    pub creatures: usize,
    pub idle: usize,
    pub wander: usize,
    pub waypoint: usize,
    pub aggro: usize,
    pub walking: usize,
}

/// What is left of `a` without `b`, at least nothing.
pub open spec fn less(a: int, b: int) -> int {
    if a >= b {
        a - b
    } else {
        0
    }
}

impl MapView {
    /// After a tick began.
    pub open spec fn begun(self, now: u64) -> MapView {
        MapView {
            last_tick_at: Some(now),
            tick_counter: if self.tick_counter == u64::MAX {
                0
            } else {
                (self.tick_counter + 1) as u64
            },
            ..self
        }
    }

    /// Whether `c` counts this map: whoever neither wanders, follows waypoints
    /// nor chases is idle.
    pub open spec fn counted(self, c: Census) -> bool {
        &&& c.clients == self.clients.dom().len()
        &&& c.creatures == self.creatures.dom().len()
        &&& c.idle == less(self.creatures.dom().len() as int, self.wander_count + self.waypoint_count + self.aggro.len())
        &&& c.wander == self.wander_count
        &&& c.waypoint == self.waypoint_count
        &&& c.aggro == self.aggro.len()
        &&& c.walking == self.walking.len()
    }
}

impl MapState {
    pub fn is_due(&self, now: u64) -> (r: bool)
        ensures
            r == due_at(self@.last_tick_at, self@.pacer.current_interval, now),
    {
        match self.last_tick_at {
            Some(t) => {
                let interval: u64 = self.pacer.current_interval;
                clock::since(now, t) >= interval - interval / 4
            },
            None => true,
        }
    }

    /// Begin a tick.
    pub fn begin_tick(&mut self, now: u64, tick: &TickConfig) -> (r: TickStart)
        requires
            old(self).wf(),
        ensures
            final(self).wf(),
            old(self)@.index_is_live() ==> final(self)@.index_is_live(),
            final(self)@ == old(self)@.begun(now),
            r.elapsed == passing(
                old(self)@.last_tick_at,
                now,
                crate::config::span_spec(tick.target_interval_ms, MILLISECOND),
            ),
            r.heartbeat_skip_ratio == skip_ratio(tick.target_interval_ms, old(self)@.pacer.current_interval),
    {
        let elapsed: u64 = match self.last_tick_at {
            Some(t) => {
                let d: u64 = clock::since(now, t);
                if d > SECOND {
                    SECOND
                } else {
                    d
                }
            },
            None => tick.target_interval(),
        };
        self.last_tick_at = Some(now);
        self.tick_counter = self.tick_counter.wrapping_add(1);
        let target: u64 = if tick.target_interval_ms == 0 {
            1
        } else {
            tick.target_interval_ms
        };
        let ratio: u64 = (self.pacer.current_interval / MILLISECOND) / target;
        TickStart {
            elapsed,
            heartbeat_skip_ratio: if ratio == 0 {
                1
            } else {
                ratio
            },
        }
    }

    pub fn census(&self) -> (r: Census)
        requires
            self.wf(),
        ensures
            self@.counted(r),
    {
        assert(slabs::clients(self.clients).dom() =~= self@.clients.dom());
        let creatures: usize = slabs::creatures_len(&self.creatures);
        let wander: usize = self.creature_wander_count;
        let waypoint: usize = self.creature_waypoint_count;
        let aggro: usize = self.aggro_creature_keys.len();
        Census {
            clients: slabs::clients_len(&self.clients),
            creatures,
            idle: creatures.saturating_sub(wander).saturating_sub(waypoint).saturating_sub(aggro),
            wander,
            waypoint,
            aggro,
            walking: self.walking_creature_keys.len(),
        }
    }
}

impl MapView {
    /// What a swing of `attacker` leads to: one at nobody ends the attack.
    pub open spec fn swung(
        self,
        attacker: Character,
        target: Option<SwingTarget>,
        dist_sq: u32,
        range_sq: u32,
        roll: u64,
        now: u64,
    ) -> swing::SwingOutcome {
        match target {
            Some(t) => self.struck(attacker, t.kind, dist_sq, range_sq, roll, now),
            None => swing::SwingOutcome { state: self, attacker: swing::at_ease(attacker), said: Seq::empty() },
        }
    }
}

impl MapState {
    /// Swing at whom `resolve_swing` found for the attacker.
    pub fn swing(
        &mut self,
        attacker: &mut Character,
        target: Option<SwingTarget>,
        dist_sq: u32,
        range_sq: u32,
        roll: u64,
        now: u64,
        out: &mut Vec<Outgoing>,
    )
        requires
            old(self).wf(),
            match target {
                Some(t) => match t.kind {
                    swing::SwingKind::Creature(k) => old(self)@.creatures.contains_key(k),
                    swing::SwingKind::Player(k) => old(self)@.clients.contains_key(k),
                },
                None => true,
            },
        ensures
            final(self).wf(),
            final(self)@.keeps_clients_of(old(self)@),
            final(self)@ == old(self)@.swung(
                *old(attacker),
                target,
                dist_sq,
                range_sq,
                roll,
                now,
            ).state,
            *final(attacker) == old(self)@.swung(
                *old(attacker),
                target,
                dist_sq,
                range_sq,
                roll,
                now,
            ).attacker,
            final(out)@ == old(out)@ + old(self)@.swung(
                *old(attacker),
                target,
                dist_sq,
                range_sq,
                roll,
                now,
            ).said,
    {
        match target {
            Some(t) => {
                self.strike(attacker, t.kind, dist_sq, range_sq, roll, now, out);
            },
            None => {
                attacker.attacking = false;
                attacker.target = 0;
                assert(out@ =~= old(out)@ + Seq::<Outgoing>::empty());
            },
        }
    }
}

/// The players of `near` that somebody with the guid `guid` meets on `map`.
pub open spec fn met(clients: Map<usize, ClientView>, near: Seq<usize>, map: u32, guid: u64) -> Seq<usize> {
    near.filter(
        |k: usize|
            clients.contains_key(k) && clients[k].character.map == map && clients[k].character.guid != guid,
    )
}

/// A notice to the client that is being handled.
pub open spec fn to_them(what: Notice) -> Outgoing {
    Outgoing { to: Audience::Handled, what }
}

/// The players are shown to the newcomer.
pub open spec fn players_shown(clients: Map<usize, ClientView>, keys: Seq<usize>) -> Seq<Outgoing> {
    keys.map_values(|k: usize| to_them(Notice::ShowPlayer { guid: clients[k].character.guid }))
}

/// The newcomer is told of those players who move forward.
pub open spec fn players_moving(clients: Map<usize, ClientView>, keys: Seq<usize>) -> Seq<Outgoing> {
    keys.filter(|k: usize| movement::has_flag(clients[k].character.info.flags, FORWARD)).map_values(
        |k: usize|
            to_them(
                Notice::StartForward { guid: clients[k].character.guid, info: clients[k].character.info },
            ),
    )
}

/// The creatures among `keys` that there are.
pub open spec fn present(creatures: Map<usize, Creature>, keys: Seq<usize>) -> Seq<usize> {
    keys.filter(|k: usize| creatures.contains_key(k))
}

/// The creatures are shown to the newcomer.
pub open spec fn creatures_shown(creatures: Map<usize, Creature>, keys: Seq<usize>) -> Seq<Outgoing> {
    keys.map_values(|k: usize| to_them(Notice::ShowUnit { frame: creatures[k].served() }))
}

/// The newcomer is told of those creatures that move forward.
pub open spec fn creatures_moving(creatures: Map<usize, Creature>, keys: Seq<usize>) -> Seq<Outgoing> {
    keys.filter(|k: usize| movement::has_flag(creatures[k].info.flags, FORWARD)).map_values(
        |k: usize| to_them(Notice::StartForward { guid: creatures[k].guid, info: creatures[k].info }),
    )
}

/// A creature that keeps the frame by which it is shown.
pub open spec fn kept(c: Creature) -> Creature {
    Creature { cached_object: Some(Arc::new(c.served())), ..c }
}

/// The creatures after those of `keys` were shown to somebody.
pub open spec fn all_kept(creatures: Map<usize, Creature>, keys: Seq<usize>) -> Map<usize, Creature> {
    Map::new(
        |k: usize| creatures.contains_key(k),
        |k: usize|
            if keys.contains(k) {
                kept(creatures[k])
            } else {
                creatures[k]
            },
    )
}

/// The guids of the players under `keys`.
pub open spec fn guids_at(clients: Map<usize, ClientView>, keys: Seq<usize>) -> Set<u64> {
    Set::new(|g: u64| exists|i: int| 0 <= i < keys.len() && clients[#[trigger] keys[i]].character.guid == g)
}

impl MapView {
    /// A newcomer who shows the players of `near`.
    pub open spec fn acquainted(self, c: ClientView, near: Seq<usize>) -> ClientView {
        ClientView {
            visible: c.visible.union(
                guids_at(self.clients, met(self.clients, near, c.character.map, c.character.guid)),
            ),
            ..c
        }
    }

    /// After a newcomer entered: those of `near` on the same map show them, and
    /// they show those players.
    pub open spec fn welcomed(self, key: usize, c: ClientView, near: Seq<usize>, beasts: Seq<usize>) -> MapView {
        (MapView {
            clients: corpses::shown(self.clients, near, c.character.map, c.character.guid),
            creatures: all_kept(self.creatures, beasts),
            ..self
        }).client_inserted(key, self.acquainted(c, near))
    }

    /// What is told when somebody enters: those near are shown the newcomer; the
    /// newcomer is shown the players and creatures near, and then told who of
    /// them is on the move.
    pub open spec fn told_of_welcome(self, c: ClientView, near: Seq<usize>, beasts: Seq<usize>) -> Seq<Outgoing> {
        let players = met(self.clients, near, c.character.map, c.character.guid);
        let units = present(self.creatures, beasts);
        seq![
            Outgoing {
                to: Audience::Near { map: c.character.map, place: c.character.info.position },
                what: Notice::ShowPlayer { guid: c.character.guid },
            },
        ] + players_shown(self.clients, players) + creatures_shown(self.creatures, units) + players_moving(
            self.clients,
            players,
        ) + creatures_moving(self.creatures, units)
    }
}

impl MapState {
    fn meet_players(&self, c: &mut Client, near: &Vec<usize>, shown: &mut Vec<Outgoing>, starts: &mut Vec<Outgoing>)
        requires
            self.wf(),
        ensures
            final(c)@ == self@.acquainted(old(c)@, near@),
            final(shown)@ == old(shown)@ + players_shown(
                self@.clients,
                met(self@.clients, near@, old(c)@.character.map, old(c)@.character.guid),
            ),
            final(starts)@ == old(starts)@ + players_moving(
                self@.clients,
                met(self@.clients, near@, old(c)@.character.map, old(c)@.character.guid),
            ),
    {
        let ghost clients = self@.clients;
        let ghost was = c@;
        let map: u32 = c.character.map;
        let guid: u64 = c.character.guid;
        let mut i: usize = 0;
        proof {
            reveal(Seq::filter);
            let none = met(clients, near@.take(0), map, guid);
            assert(near@.take(0) =~= Seq::<usize>::empty());
            assert(none =~= Seq::<usize>::empty());
            assert(shown@ =~= shown@ + players_shown(clients, none));
            assert(starts@ =~= starts@ + players_moving(clients, none));
            assert(was.visible =~= was.visible.union(guids_at(clients, none)));
        }
        while i < near.len()
            invariant
                i <= near.len(),
                clients == self@.clients,
                was == old(c)@,
                map == was.character.map,
                guid == was.character.guid,
                c@ == (ClientView {
                    visible: was.visible.union(guids_at(clients, met(clients, near@.take(i as int), map, guid))),
                    ..was
                }),
                shown@ == old(shown)@ + players_shown(clients, met(clients, near@.take(i as int), map, guid)),
                starts@ == old(starts)@ + players_moving(clients, met(clients, near@.take(i as int), map, guid)),
            decreases near.len() - i,
        {
            let key: usize = near[i];
            let ghost so_far = met(clients, near@.take(i as int), map, guid);
            proof {
                reveal(Seq::filter);
                assert(near@.take(i + 1).drop_last() =~= near@.take(i as int));
                assert(near@.take(i + 1).last() == key);
            }
            if let Some(other) = slabs::clients_get(&self.clients, key) {
                assert(other@ == clients[key]);
                if other.character.map == map && other.character.guid != guid {
                    let their: u64 = other.character.guid;
                    let info = other.character.info;
                    shown.push(Outgoing { to: Audience::Handled, what: Notice::ShowPlayer { guid: their } });
                    c.show(their);
                    if info.flags & FORWARD != 0 {
                        starts.push(
                            Outgoing { to: Audience::Handled, what: Notice::StartForward { guid: their, info } },
                        );
                    }
                    proof {
                        let all = met(clients, near@.take(i + 1), map, guid);
                        assert(all == so_far.push(key));
                        assert(all.drop_last() =~= so_far);
                        assert(shown@ =~= old(shown)@ + players_shown(clients, all));
                        assert(starts@ =~= old(starts)@ + players_moving(clients, all));
                        assert(guids_at(clients, all) =~= guids_at(clients, so_far).insert(their)) by {
                            assert forall|g: u64| guids_at(clients, so_far).contains(g) implies guids_at(
                                clients,
                                all,
                            ).contains(g) by {
                                let j = choose|j: int|
                                    0 <= j < so_far.len() && clients[#[trigger] so_far[j]].character.guid == g;
                                assert(all[j] == so_far[j]);
                            }
                            assert(all[so_far.len() as int] == key);
                            assert forall|g: u64| guids_at(clients, all).contains(g) && g != their implies guids_at(
                                clients,
                                so_far,
                            ).contains(g) by {
                                let j = choose|j: int| 0 <= j < all.len() && clients[#[trigger] all[j]].character.guid == g;
                                assert(so_far[j] == all[j]);
                            }
                        }
                        assert(c@.visible =~= was.visible.union(guids_at(clients, all)));
                    }
                }
            }
            i += 1;
        }
        assert(near@.take(i as int) =~= near@);
    }

    fn meet_creatures(&mut self, beasts: &Vec<usize>, shown: &mut Vec<Outgoing>, starts: &mut Vec<Outgoing>)
        requires
            old(self).wf(),
        ensures
            final(self).wf(),
            final(self)@ == (MapView { creatures: all_kept(old(self)@.creatures, beasts@), ..old(self)@ }),
            slabs::next_client(final(self).clients) == slabs::next_client(old(self).clients),
            final(shown)@ == old(shown)@ + creatures_shown(
                old(self)@.creatures,
                present(old(self)@.creatures, beasts@),
            ),
            final(starts)@ == old(starts)@ + creatures_moving(
                old(self)@.creatures,
                present(old(self)@.creatures, beasts@),
            ),
    {
        let ghost was = self@;
        let ghost all = was.creatures;
        let mut i: usize = 0;
        proof {
            reveal(Seq::filter);
            let none = present(all, beasts@.take(0));
            assert(beasts@.take(0) =~= Seq::<usize>::empty());
            assert(none =~= Seq::<usize>::empty());
            assert(shown@ =~= shown@ + creatures_shown(all, none));
            assert(starts@ =~= starts@ + creatures_moving(all, none));
            assert(all =~= all_kept(all, beasts@.take(0)));
        }
        while i < beasts.len()
            invariant
                i <= beasts.len(),
                all == was.creatures,
                self.wf(),
                self@ == (MapView { creatures: all_kept(all, beasts@.take(i as int)), ..was }),
                slabs::next_client(self.clients) == slabs::next_client(old(self).clients),
                shown@ == old(shown)@ + creatures_shown(all, present(all, beasts@.take(i as int))),
                starts@ == old(starts)@ + creatures_moving(all, present(all, beasts@.take(i as int))),
            decreases beasts.len() - i,
        {
            let key: usize = beasts[i];
            let ghost before = self@;
            let ghost so_far = present(all, beasts@.take(i as int));
            proof {
                reveal(Seq::filter);
                let a = beasts@.take(i as int);
                let b = beasts@.take(i + 1);
                assert(b.drop_last() =~= a);
                assert(b.last() == key);
                assert forall|k: usize| #[trigger] b.contains(k) <==> a.contains(k) || k == key by {
                    if a.contains(k) {
                        let j = choose|j: int| 0 <= j < a.len() && a[j] == k;
                        assert(b[j] == k);
                    }
                    if k == key {
                        assert(b[i as int] == k);
                    }
                    if b.contains(k) && k != key {
                        let j = choose|j: int| 0 <= j < b.len() && b[j] == k;
                        assert(a[j] == k);
                    }
                }
            }
            match slabs::creatures_get_mut(&mut self.creatures, key) {
                Some(c) => {
                    let frame = c.to_create_object();
                    shown.push(Outgoing { to: Audience::Handled, what: Notice::ShowUnit { frame } });
                    let guid: u64 = c.guid;
                    let info = c.info;
                    if info.flags & FORWARD != 0 {
                        starts.push(Outgoing { to: Audience::Handled, what: Notice::StartForward { guid, info } });
                    }
                    proof {
                        let now = present(all, beasts@.take(i + 1));
                        assert(now == so_far.push(key));
                        assert(now.drop_last() =~= so_far);
                        assert(shown@ =~= old(shown)@ + creatures_shown(all, now));
                        assert(starts@ =~= old(starts)@ + creatures_moving(all, now));
                    }
                },
                None => {},
            }
            proof {
                assert(self@.creatures =~= all_kept(all, beasts@.take(i + 1)));
                assert(self@ =~= MapView { creatures: all_kept(all, beasts@.take(i + 1)), ..was });
                assert(self@.creatures.dom() =~= before.creatures.dom());
                map_state::who_is_indexed_stays_indexed(before, self@);
            }
            i += 1;
        }
        assert(beasts@.take(i as int) =~= beasts@);
    }

    /// Let a newcomer onto the map. `near` holds the players that are near them
    /// and `beasts` the creatures.
    pub fn welcome(
        &mut self,
        client: Client,
        near: &Vec<usize>,
        beasts: &Vec<usize>,
        registry: &mut PlayerRegistry,
        out: &mut Vec<Outgoing>,
    ) -> (key: usize)
        requires
            old(self).wf(),
            old(registry).wf(),
        ensures
            final(self).wf(),
            old(self)@.index_is_live() ==> final(self)@.index_is_live(),
            final(registry).wf(),
            !old(self)@.clients.contains_key(key),
            final(self)@ == old(self)@.welcomed(key, client@, near@, beasts@),
            final(out)@ == old(out)@ + old(self)@.told_of_welcome(client@, near@, beasts@),
            final(registry)@ == old(registry)@.registered(map_state::register_entry(client@.character)),
    {
        let ghost was = self@;
        let ghost who = client@;
        let ghost said = out@;
        let mut c = client;
        let mut starts: Vec<Outgoing> = Vec::new();
        let map: u32 = c.character.map;
        let guid: u64 = c.character.guid;
        out.push(
            Outgoing { to: Audience::Near { map, place: c.character.info.position }, what: Notice::ShowPlayer { guid } },
        );
        self.meet_players(&mut c, near, out, &mut starts);
        self.meet_creatures(beasts, out, &mut starts);
        out.append(&mut starts);
        self.show_to(near, map, guid);
        let key: usize = self.insert_client(c, registry);
        assert(out@ =~= said + was.told_of_welcome(who, near@, beasts@));
        key
    }
}

/// The database after the characters were written back, one after the other.
pub open spec fn all_written(db: DbView, clients: Seq<ClientView>) -> DbView
    decreases clients.len(),
{
    if clients.len() == 0 {
        db
    } else {
        all_written(db, clients.drop_last()).replaced(clients.last().character)
    }
}

impl MapState {
    /// Take the clients under `keys`, whose connections broke, off the map for
    /// good, and write their characters back.
    pub fn drop_stale(&mut self, keys: &Vec<usize>, registry: &mut PlayerRegistry, db: &mut WorldDatabase) -> (r: Departure)
        requires
            old(self).wf(),
            old(registry).wf(),
            old(db).wf(),
            keys@.no_duplicates(),
            forall|i: int| 0 <= i < keys@.len() ==> old(self)@.clients.contains_key(#[trigger] keys@[i]),
        ensures
            final(self).wf(),
            old(self)@.index_is_live() ==> final(self)@.index_is_live(),
            final(registry).wf(),
            final(db).wf(),
            final(self)@ == old(self)@.departed(keys@),
            departures::views(r.clients@) == departures::those(old(self)@.clients, keys@),
            departures::grouped(r.gone@, departures::those(old(self)@.clients, keys@)),
            final(registry)@ == map_state::all_unregistered(
                old(registry)@,
                departures::guids_of(departures::those(old(self)@.clients, keys@)),
            ),
            final(db)@ == all_written(old(db)@, departures::those(old(self)@.clients, keys@)),
    {
        let ghost left = departures::those(self@.clients, keys@);
        let r = self.drain_logouts(keys, registry);
        let mut i: usize = 0;
        assert(left.take(0) =~= Seq::<ClientView>::empty());
        assert(r.clients@.len() == left.len());
        while i < r.clients.len()
            invariant
                i <= r.clients@.len(),
                r.clients@.len() == left.len(),
                departures::views(r.clients@) == left,
                db.wf(),
                db@ == all_written(old(db)@, left.take(i as int)),
            decreases r.clients.len() - i,
        {
            db.replace_character_data(r.clients[i].character.clone());
            proof {
                assert(departures::views(r.clients@)[i as int] == r.clients@[i as int]@);
                assert(left.take(i + 1).drop_last() =~= left.take(i as int));
                assert(left.take(i + 1).last() == left[i as int]);
            }
            i += 1;
        }
        assert(left.take(i as int) =~= left);
        r
    }

    /// End a tick that took `spent`: the pacer learns of it, and how it stands is
    /// published.
    pub fn end_tick(&mut self, spent: u64, slow_ema: u32, headroom: u64, pacers: &mut PacerStates) -> (r: Option<
        TickRateChange,
    >)
        requires
            old(self).wf(),
            old(pacers).wf(),
        ensures
            final(self).wf(),
            old(self)@.index_is_live() ==> final(self)@.index_is_live(),
            final(pacers).wf(),
            r == old(self)@.pacer.observed(spent, slow_ema, headroom).1,
            final(self)@ == (MapView { pacer: old(self)@.pacer.observed(spent, slow_ema, headroom).0, ..old(self)@ }),
            final(pacers)@ == old(pacers)@.insert(
                old(self)@.map as u64,
                (PacerSnapshot {
                    current_interval_ms: final(self)@.pacer.current_interval / MILLISECOND,
                    slow_ema: final(self)@.pacer.slow_ema,
                    healthy_streak: final(self)@.pacer.healthy_streak,
                    last_tick_ms: spent / MILLISECOND,
                }),
            ),
    {
        let (_, change) = self.pacer.observe(spent, slow_ema, headroom);
        pacers.publish_pacer_state(
            self.map,
            PacerSnapshot {
                current_interval_ms: self.pacer.current_interval / MILLISECOND,
                slow_ema: self.pacer.slow_ema,
                healthy_streak: self.pacer.healthy_streak,
                last_tick_ms: spent / MILLISECOND,
            },
        );
        change
    }
}

/// A map that ticks at the target rate is heard of every tick.
pub proof fn no_skipping_at_the_target_rate(target_ms: u64)
    requires
        0 < target_ms,
        target_ms * MILLISECOND <= u64::MAX,
    ensures
        skip_ratio(target_ms, (target_ms * MILLISECOND) as u64) == 1,
{
    vstd::arithmetic::div_mod::lemma_div_by_self(target_ms as int);
    vstd::arithmetic::div_mod::lemma_div_by_multiple(target_ms as int, MILLISECOND as int);
}

/// A map is due once its interval has passed, and is not due before three
/// quarters of it have.
pub proof fn a_map_is_due_in_time(last: u64, interval: u64, now: u64)
    requires
        now >= last,
    ensures
        now - last >= interval ==> due_at(Some(last), interval, now),
        now - last < interval - interval / 4 ==> !due_at(Some(last), interval, now),
{
}

/// Whoever enters shows the players that they met, and those show them.
pub proof fn newcomers_and_neighbours_see_each_other(
    v: MapView,
    key: usize,
    c: ClientView,
    near: Seq<usize>,
    beasts: Seq<usize>,
    other: usize,
)
    requires
        !v.clients.contains_key(key),
        v.clients.contains_key(other),
        near.contains(other),
        v.clients[other].character.map == c.character.map,
        v.clients[other].character.guid != c.character.guid,
    ensures
        v.welcomed(key, c, near, beasts).clients[key].visible.contains(v.clients[other].character.guid),
        v.welcomed(key, c, near, beasts).clients[other].visible.contains(c.character.guid),
{
    let guid = v.clients[other].character.guid;
    let chosen = |k: usize|
        v.clients.contains_key(k) && v.clients[k].character.map == c.character.map && v.clients[k].character.guid
            != c.character.guid;
    let all = met(v.clients, near, c.character.map, c.character.guid);
    let i = choose|i: int| 0 <= i < near.len() && near[i] == other;
    near.lemma_filter_contains(chosen, i);
    assert(all.contains(near[i]));
    let j = choose|j: int| 0 <= j < all.len() && all[j] == other;
    assert(v.clients[all[j]].character.guid == guid);
    assert(guids_at(v.clients, all).contains(guid));
}

/// A swing at nobody ends the attack and does nothing else. One at somebody in reach takes
/// from ten to twenty health of theirs, down to none.
pub proof fn a_swing_hits_its_target(
    m: &mut MapState,
    attacker: &mut Character,
    target: Option<SwingTarget>,
    dist_sq: u32,
    range_sq: u32,
    roll: u64,
    now: u64,
    out: &mut Vec<Outgoing>,
    u: (),
)
    requires
        old(m).wf(),
        match target {
            Some(t) => match t.kind {
                swing::SwingKind::Creature(k) => old(m)@.creatures.contains_key(k),
                swing::SwingKind::Player(k) => old(m)@.clients.contains_key(k),
            },
            None => true,
        },
        dist_sq <= range_sq <= 0x7f80_0000,
        call_ensures(MapState::swing, (m, attacker, target, dist_sq, range_sq, roll, now, out), u),
    ensures
        match target {
            None => {
                &&& final(m)@ == old(m)@
                &&& final(out)@ == old(out)@
                &&& *final(attacker) == (Character { attacking: false, target: 0, ..*old(attacker) })
            },
            Some(t) => {
                let damage = 10 + roll % 11;
                &&& final(out)@.len() > old(out)@.len()
                &&& match t.kind {
                    swing::SwingKind::Creature(k) => final(m)@.creatures[k].health as int == (if old(m)@.creatures[k].health <= damage {
                        0
                    } else {
                        old(m)@.creatures[k].health - damage
                    }),
                    swing::SwingKind::Player(k) => final(m)@.clients[k].character.current_health as int == (if old(m)@.clients[k].character.current_health <= damage {
                        0
                    } else {
                        old(m)@.clients[k].character.current_health - damage
                    }),
                }
            },
        },
{
    assert(target is None ==> final(out)@ =~= old(out)@);
}

/// A tick takes the time since the last one, but a second at most, and what it is meant to
/// take the first time. It is the next tick, and it began now.
pub proof fn a_tick_takes_the_time_that_passed(m: &mut MapState, now: u64, tick: &TickConfig, r: TickStart)
    requires
        old(m).wf(),
        call_ensures(MapState::begin_tick, (m, now, tick), r),
    ensures
        match old(m)@.last_tick_at {
            Some(t) => r.elapsed as int == (if now < t {
                0
            } else if now - t > 1_000_000_000 {
                1_000_000_000
            } else {
                now - t
            }),
            None => tick.target_interval_ms * 1_000_000 <= u64::MAX ==> r.elapsed == tick.target_interval_ms * 1_000_000,
        },
        final(m)@.last_tick_at == Some(now),
        old(m)@.tick_counter < u64::MAX ==> final(m)@.tick_counter == old(m)@.tick_counter + 1,
        final(m)@.clients == old(m)@.clients,
        final(m)@.creatures == old(m)@.creatures,
        r.heartbeat_skip_ratio >= 1,
        tick.target_interval_ms > 0 && old(m)@.pacer.current_interval >= tick.target_interval_ms * 1_000_000
            ==> r.heartbeat_skip_ratio == old(m)@.pacer.current_interval / 1_000_000 / tick.target_interval_ms,
        tick.target_interval_ms > 0 && old(m)@.pacer.current_interval < tick.target_interval_ms * 1_000_000
            ==> r.heartbeat_skip_ratio == 1,
{
    let t = tick.target_interval_ms;
    let i = old(m)@.pacer.current_interval;
    if t > 0 {
        let q = i / 1_000_000;
        if i >= t * 1_000_000 {
            assert(q >= t) by (nonlinear_arith)
                requires
                    i >= t * 1_000_000,
                    q == i / 1_000_000,
            ;
            assert(q / t >= 1) by (nonlinear_arith)
                requires
                    q >= t,
                    t > 0,
            ;
        } else {
            assert(q < t) by (nonlinear_arith)
                requires
                    i < t * 1_000_000,
                    q == i / 1_000_000,
            ;
            assert(q / t == 0) by (nonlinear_arith)
                requires
                    0 <= q < t,
            ;
        }
    }
}

/// A map that never ticked is due; otherwise it is due from three quarters of its interval
/// on.
pub proof fn a_map_ticks_in_time(m: &MapState, now: u64, r: bool)
    requires
        call_ensures(MapState::is_due, (m, now), r),
    ensures
        match m@.last_tick_at {
            None => r,
            Some(t) => {
                let interval = m@.pacer.current_interval;
                &&& t <= now && now - t >= interval ==> r
                &&& t <= now && 4 * (now - t) < 3 * interval - 3 ==> !r
                &&& t <= now && 4 * (now - t) >= 3 * interval + 3 ==> r
                &&& t <= now && interval % 4 == 0 ==> (r <==> 4 * (now - t) >= 3 * interval)
            },
        },
{
}

/// A census counts everybody once: players, creatures, and creatures by what they do.
pub proof fn a_census_counts_everybody(m: &MapState, r: Census)
    requires
        m.wf(),
        call_ensures(MapState::census, (m,), r),
    ensures
        r.clients == m@.clients.dom().len(),
        r.creatures == m@.creatures.dom().len(),
        r.wander == m@.wander_count,
        r.waypoint == m@.waypoint_count,
        r.aggro == m@.aggro.len(),
        r.walking == m@.walking.len(),
        r.wander + r.waypoint + r.aggro <= r.creatures ==> r.idle + r.wander + r.waypoint + r.aggro == r.creatures,
{
}

/// Whoever enters is on the map with all they had, beside those who were; those near are
/// shown the newcomer, and everybody of them who is met is shown to the newcomer, and so is
/// every creature near.
pub proof fn a_newcomer_is_welcomed(
    m: &mut MapState,
    c: Client,
    near: &Vec<usize>,
    beasts: &Vec<usize>,
    registry: &mut PlayerRegistry,
    out: &mut Vec<Outgoing>,
    key: usize,
    other: usize,
    beast: usize,
)
    requires
        old(m).wf(),
        old(registry).wf(),
        call_ensures(MapState::welcome, (m, c, near, beasts, registry, out), key),
    ensures
        !old(m)@.clients.contains_key(key),
        final(m)@.clients.contains_key(key),
        final(m)@.clients[key].character == c.character,
        final(m)@.clients[key].account_name == c@.account_name,
        final(m)@.client_keys.contains_key(c.character.guid) && final(m)@.client_keys[c.character.guid] == key as u64,
        final(registry)@.players.contains_key(c.character.guid),
        final(registry)@.players[c.character.guid].position.map == c.character.map,
        final(registry)@.players[c.character.guid].position.place == c.character.info.position,
        final(out)@.len() > old(out)@.len(),
        final(out)@[old(out)@.len() as int] == (Outgoing {
            to: Audience::Near { map: c.character.map, place: c.character.info.position },
            what: Notice::ShowPlayer { guid: c.character.guid },
        }),
        old(m)@.clients.contains_key(other) ==> {
            let was = old(m)@.clients[other];
            let is = final(m)@.clients[other];
            let meets = near@.contains(other) && was.character.map == c.character.map;
            &&& is.character == was.character
            &&& meets ==> is.visible == was.visible.insert(c.character.guid)
            &&& !meets ==> is == was
            &&& meets && was.character.guid != c.character.guid
                ==> final(m)@.clients[key].visible.contains(was.character.guid) && final(out)@.contains(
                Outgoing { to: Audience::Handled, what: Notice::ShowPlayer { guid: was.character.guid } },
            )
        },
        old(m)@.creatures.contains_key(beast) && beasts@.contains(beast) ==> final(out)@.contains(
            Outgoing {
                to: Audience::Handled,
                what: Notice::ShowUnit { frame: old(m)@.creatures[beast].served() },
            },
        ),
        old(m)@.creatures.contains_key(beast) ==> final(m)@.creatures[beast] == (Creature {
            cached_object: final(m)@.creatures[beast].cached_object,
            ..old(m)@.creatures[beast]
        }),
{
    let v = old(m)@;
    let guid = c.character.guid;
    let players = met(v.clients, near@, c.character.map, guid);
    let units = present(v.creatures, beasts@);
    let first = seq![
        Outgoing {
            to: Audience::Near { map: c.character.map, place: c.character.info.position },
            what: Notice::ShowPlayer { guid },
        },
    ];
    let ps = players_shown(v.clients, players);
    let us = creatures_shown(v.creatures, units);
    let pm = players_moving(v.clients, players);
    let um = creatures_moving(v.creatures, units);
    let n = old(out)@.len() as int;
    assert(final(out)@ == old(out)@ + (first + ps + us + pm + um));
    if v.clients.contains_key(other) && near@.contains(other) && v.clients[other].character.map == c.character.map
        && v.clients[other].character.guid != guid {
        newcomers_and_neighbours_see_each_other(v, key, c@, near@, beasts@, other);
        let f = |k: usize|
            v.clients.contains_key(k) && v.clients[k].character.map == c.character.map && v.clients[k].character.guid
                != guid;
        lemma_kept_by_filter(near@, f, other);
        let i = choose|i: int| 0 <= i < players.len() && players[i] == other;
        assert(ps[i] == to_them(Notice::ShowPlayer { guid: v.clients[other].character.guid }));
        assert(final(out)@[n + 1 + i] == ps[i]);
    }
    if v.creatures.contains_key(beast) && beasts@.contains(beast) {
        lemma_kept_by_filter(beasts@, |k: usize| v.creatures.contains_key(k), beast);
        let i = choose|i: int| 0 <= i < units.len() && units[i] == beast;
        assert(us[i] == to_them(Notice::ShowUnit { frame: v.creatures[beast].served() }));
        assert(final(out)@[n + 1 + ps.len() + i] == us[i]);
    }
}

proof fn lemma_kept_by_filter(s: Seq<usize>, f: spec_fn(usize) -> bool, x: usize)
    requires
        s.contains(x),
        f(x),
    ensures
        s.filter(f).contains(x),
    decreases s.len(),
{
    reveal(Seq::filter);
    let front = s.drop_last();
    crate::aoi::lemma_push_contains(front, s.last(), x);
    assert(s =~= front.push(s.last()));
    if front.contains(x) {
        lemma_kept_by_filter(front, f, x);
        crate::aoi::lemma_push_contains(front.filter(f), s.last(), x);
    } else {
        crate::aoi::lemma_push_contains(front.filter(f), s.last(), x);
    }
}

/// Whoever's connection broke is off the map, and their character is kept as it was last.
pub proof fn the_stale_are_kept(
    m: &mut MapState,
    keys: &Vec<usize>,
    registry: &mut PlayerRegistry,
    db: &mut WorldDatabase,
    r: Departure,
    i: int,
)
    requires
        old(m).wf(),
        old(registry).wf(),
        old(db).wf(),
        old(db)@.in_step(),
        keys@.no_duplicates(),
        forall|i: int| 0 <= i < keys@.len() ==> old(m)@.clients.contains_key(#[trigger] keys@[i]),
        call_ensures(MapState::drop_stale, (m, keys, registry, db), r),
        0 <= i < keys@.len(),
        forall|j: int|
            i < j < keys@.len() ==> old(m)@.clients[#[trigger] keys@[j]].character.guid
                != old(m)@.clients[keys@[i]].character.guid,
    ensures
        r.clients@.len() == keys@.len(),
        r.clients@[i]@ == old(m)@.clients[keys@[i]],
        ({
            let c = old(m)@.clients[keys@[i]].character;
            &&& !final(m)@.clients.contains_key(keys@[i])
            &&& !final(m)@.client_keys.contains_key(c.guid)
            &&& old(db)@.by_guid(c.guid) is Some ==> final(db)@.by_guid(c.guid) == Some(c)
            &&& final(registry)@.by_guid(c.guid) is None
        }),
{
    let left = departures::those(old(m)@.clients, keys@);
    let c = old(m)@.clients[keys@[i]].character;
    assert(keys@.contains(keys@[i]));
    departures::lemma_without(old(m)@, keys@, keys@[i], c.guid);
    assert(departures::views(r.clients@).len() == r.clients@.len());
    assert(departures::views(r.clients@)[i] == r.clients@[i]@);
    assert(left[i].character == c);
    assert(departures::guids_of(left)[i] == c.guid);
    assert(departures::guids_of(left).contains(c.guid));
    departures::lemma_unregistered(old(registry)@, departures::guids_of(left), c.guid);
    assert forall|j: int| i < j < left.len() implies (#[trigger] left[j]).character.guid != left[i].character.guid by {
        assert(left[j] == old(m)@.clients[keys@[j]]);
    }
    crate::world::lemma_written(old(db)@, left, i);
}

/// How the pacer of a map stands after a tick is published under the map, in milliseconds,
/// with how long the tick took; other maps stand as before, and nothing else changes.
pub proof fn the_pace_is_published(
    m: &mut MapState,
    spent: u64,
    slow_ema: u32,
    headroom: u64,
    pacers: &mut PacerStates,
    r: Option<TickRateChange>,
    other: u64,
)
    requires
        old(m).wf(),
        old(pacers).wf(),
        call_ensures(MapState::end_tick, (m, spent, slow_ema, headroom, pacers), r),
    ensures
        final(pacers)@.contains_key(old(m)@.map as u64),
        ({
            let s = final(pacers)@[old(m)@.map as u64];
            &&& s.current_interval_ms == final(m)@.pacer.current_interval / 1_000_000
            &&& s.last_tick_ms == spent / 1_000_000
            &&& s.healthy_streak == final(m)@.pacer.healthy_streak
            &&& s.slow_ema == final(m)@.pacer.slow_ema
        }),
        other != old(m)@.map as u64 && old(pacers)@.contains_key(other) ==> final(pacers)@.contains_key(other)
            && final(pacers)@[other] == old(pacers)@[other],
        final(m)@.clients == old(m)@.clients && final(m)@.creatures == old(m)@.creatures && final(m)@.map
            == old(m)@.map,
        r is None ==> final(m)@.pacer.current_interval == old(m)@.pacer.current_interval,
        r is Some && r->0 is Backoff ==> final(m)@.pacer.current_interval == r->0->Backoff_new_interval,
        r is Some && r->0 is Recovery ==> final(m)@.pacer.current_interval == r->0->Recovery_new_interval,
        slow_ema <= old(m)@.pacer.backoff_threshold <= 0x7f80_0000 ==> !(r is Some && r->0 is Backoff),
        old(m)@.pacer.backoff_threshold < slow_ema <= 0x7f80_0000 && old(m)@.pacer.current_interval
            < old(m)@.pacer.max_interval ==> r is Some && r->0 is Backoff,
{
}

/// A newcomer is told of every player and creature near who is on the move.
pub proof fn a_newcomer_is_told_who_moves(
    m: &mut MapState,
    c: Client,
    near: &Vec<usize>,
    beasts: &Vec<usize>,
    registry: &mut PlayerRegistry,
    out: &mut Vec<Outgoing>,
    key: usize,
    other: usize,
    beast: usize,
)
    requires
        old(m).wf(),
        old(registry).wf(),
        call_ensures(MapState::welcome, (m, c, near, beasts, registry, out), key),
    ensures
        ({
            let p = old(m)@.clients[other].character;
            old(m)@.clients.contains_key(other) && near@.contains(other) && p.map == c.character.map && p.guid
                != c.character.guid && p.info.flags & 1 == 1 ==> final(out)@.contains(
                Outgoing {
                    to: Audience::Handled,
                    what: Notice::StartForward { guid: p.guid, info: p.info },
                },
            )
        }),
        ({
            let b = old(m)@.creatures[beast];
            old(m)@.creatures.contains_key(beast) && beasts@.contains(beast) && b.info.flags & 1 == 1 ==> final(out)@.contains(
                Outgoing {
                    to: Audience::Handled,
                    what: Notice::StartForward { guid: b.guid, info: b.info },
                },
            )
        }),
{
    let v = old(m)@;
    let guid = c.character.guid;
    let players = met(v.clients, near@, c.character.map, guid);
    let units = present(v.creatures, beasts@);
    let ps = players_shown(v.clients, players);
    let us = creatures_shown(v.creatures, units);
    let pm = players_moving(v.clients, players);
    let um = creatures_moving(v.creatures, units);
    let n = old(out)@.len() + 1 + ps.len() + us.len();
    let p = v.clients[other].character;
    if v.clients.contains_key(other) && near@.contains(other) && p.map == c.character.map && p.guid != guid
        && p.info.flags & 1 == 1 {
        let flags = p.info.flags;
        assert(flags & 1 == 1 ==> flags & 1 != 0) by (bit_vector);
        lemma_kept_by_filter(
            near@,
            |k: usize|
                v.clients.contains_key(k) && v.clients[k].character.map == c.character.map
                    && v.clients[k].character.guid != guid,
            other,
        );
        let f = |k: usize| movement::has_flag(v.clients[k].character.info.flags, FORWARD);
        lemma_kept_by_filter(players, f, other);
        let s = players.filter(f);
        let i = choose|i: int| 0 <= i < s.len() && s[i] == other;
        assert(pm[i] == to_them(Notice::StartForward { guid: p.guid, info: p.info }));
        assert(final(out)@[n + i] == pm[i]);
    }
    let b = v.creatures[beast];
    if v.creatures.contains_key(beast) && beasts@.contains(beast) && b.info.flags & 1 == 1 {
        let flags = b.info.flags;
        assert(flags & 1 == 1 ==> flags & 1 != 0) by (bit_vector);
        lemma_kept_by_filter(beasts@, |k: usize| v.creatures.contains_key(k), beast);
        let f = |k: usize| movement::has_flag(v.creatures[k].info.flags, FORWARD);
        lemma_kept_by_filter(units, f, beast);
        let s = units.filter(f);
        let i = choose|i: int| 0 <= i < s.len() && s[i] == beast;
        assert(um[i] == to_them(Notice::StartForward { guid: b.guid, info: b.info }));
        assert(final(out)@[n + pm.len() + i] == um[i]);
    }
}

} // verus!

//! The state of one map: who is on it, and the indexes that find them.
use crate::cell::{PlayerRegistry, PlayerRegistryEntry, RegistryView};
use crate::character::Character;
use crate::client::{Client, ClientView};
use crate::clock;
use crate::config::TickConfig;
use crate::creature::{Creature, CreatureBehavior, CreatureLifeState, Position};
use crate::keyed::KeyedTable;
use crate::movement::{MovementInfo, Place};
use crate::notice::{Audience, Notice, Outgoing};
use crate::pacer::TickPacer;
use crate::schedule;
use crate::schedule::{Sleepers, WakeSchedule};
use crate::slabs;
use crate::spatial::SpatialIndex;
use crate::tables;
use ahash::{AHashMap, AHashSet};
use slab::Slab;
use vstd::prelude::*;

verus! {

/// A movement of a player that others are still to be told of.
#[derive(Debug, Clone, Copy)]
pub struct PendingMovement {
    pub opcode: u16,
    pub info: MovementInfo,
    pub anchor: Place,
    pub map: u32,
}

/// The state of one map.
pub struct MapState {
    pub map: u32,
    pub clients: Slab<Client>,
    /// The slab key of every player, by guid.
    pub client_by_guid: AHashMap<u64, u64>,
    pub creatures: Slab<Creature>,
    /// The slab key of every creature, by guid.
    pub creature_by_guid: AHashMap<u64, u64>,
    /// The creatures that chase players.
    pub aggro_creature_keys: Vec<usize>,
    /// The creatures that walk around and are awake.
    pub walking_creature_keys: Vec<usize>,
    /// The creatures that walk around and sleep.
    pub creature_wake_at: WakeSchedule,
    pub creature_wander_count: usize,
    pub creature_waypoint_count: usize,
    pub index: SpatialIndex,
    pub last_tick_at: Option<u64>,
    /// The last movement of each player since others were told.
    pub pending_movement: KeyedTable<PendingMovement>,
    pub tick_counter: u64,
    /// The tick in which others were last told of a movement, by player.
    pub last_heartbeat_broadcast_tick: AHashMap<u64, u64>,
    /// The grids near a player, as cell numbers.
    pub active_grids: AHashSet<u64>,
    pub pacer: TickPacer,
}

/// The state of one map, as contracts speak of it.
#[verifier::ext_equal]
pub struct MapView {
    pub map: u32,
    pub clients: Map<usize, ClientView>,
    pub client_keys: Map<u64, u64>,
    pub client_cells: Map<usize, (i32, i32)>,
    pub creatures: Map<usize, Creature>,
    pub creature_keys: Map<u64, u64>,
    pub creature_cells: Map<usize, (i32, i32)>,
    pub aggro: Seq<usize>,
    pub walking: Seq<usize>,
    pub asleep: Sleepers,
    pub wander_count: usize,
    pub waypoint_count: usize,
    pub last_tick_at: Option<u64>,
    pub pending: Map<u64, PendingMovement>,
    pub tick_counter: u64,
    pub heartbeats: Map<u64, u64>,
    pub active_grids: Set<u64>,
    pub pacer: TickPacer,
}

/// The clients of a slab, as contracts speak of them.
pub open spec fn client_views(s: Slab<Client>) -> Map<usize, ClientView> {
    slabs::clients(s).map_values(|c: Client| c@)
}

impl View for MapState {
    type V = MapView;

    open spec fn view(&self) -> MapView {
        MapView {
            map: self.map,
            clients: client_views(self.clients),
            client_keys: tables::numbers(self.client_by_guid),
            client_cells: self.index.clients(),
            creatures: slabs::creatures(self.creatures),
            creature_keys: tables::numbers(self.creature_by_guid),
            creature_cells: self.index.creatures(),
            aggro: self.aggro_creature_keys@,
            walking: self.walking_creature_keys@,
            asleep: self.creature_wake_at@,
            wander_count: self.creature_wander_count,
            waypoint_count: self.creature_waypoint_count,
            last_tick_at: self.last_tick_at,
            pending: self.pending_movement@,
            tick_counter: self.tick_counter,
            heartbeats: tables::numbers(self.last_heartbeat_broadcast_tick),
            active_grids: tables::members(self.active_grids),
            pacer: self.pacer,
        }
    }
}

/// One more, as far as there is room.
pub open spec fn one_more(n: usize) -> usize {
    if n == usize::MAX {
        n
    } else {
        (n + 1) as usize
    }
}

/// One less, as far as there is something.
pub open spec fn one_less(n: usize) -> usize {
    if n == 0 {
        0
    } else {
        (n - 1) as usize
    }
}

/// The first place at or behind `from` that holds `key`.
pub open spec fn place_in(s: Seq<usize>, key: usize, from: int) -> Option<int>
    decreases s.len() - from,
{
    if from >= s.len() {
        None
    } else if s[from] == key {
        Some(from)
    } else {
        place_in(s, key, from + 1)
    }
}

/// `s` without the first `key`; the last element takes its place.
pub open spec fn without(s: Seq<usize>, key: usize) -> Seq<usize> {
    match place_in(s, key, 0) {
        Some(i) => s.update(i, s.last()).drop_last(),
        None => s,
    }
}

impl MapView {
    /// With a client that was not on the map before.
    pub open spec fn client_inserted(self, key: usize, c: ClientView) -> MapView {
        MapView {
            clients: self.clients.insert(key, c),
            client_keys: self.client_keys.insert(c.character.guid, key as u64),
            client_cells: if self.client_cells.contains_key(key) {
                self.client_cells
            } else {
                self.client_cells.insert(key, c.character.info.position.cell)
            },
            ..self
        }
    }

    /// Without a client.
    pub open spec fn client_removed(self, key: usize) -> MapView {
        MapView {
            clients: self.clients.remove(key),
            client_keys: self.client_keys.remove(self.clients[key].character.guid),
            client_cells: self.client_cells.remove(key),
            ..self
        }
    }

    /// Without a client that is only held out for a moment: the index still
    /// knows where it stands.
    pub open spec fn client_taken(self, key: usize) -> MapView {
        MapView {
            clients: self.clients.remove(key),
            client_keys: self.client_keys.remove(self.clients[key].character.guid),
            ..self
        }
    }

    /// With a client that was held out, in the cell where it stands now.
    pub open spec fn client_returned(self, key: usize, c: ClientView) -> MapView {
        MapView {
            clients: self.clients.insert(key, c),
            client_keys: self.client_keys.insert(c.character.guid, key as u64),
            client_cells: self.client_cells.insert(key, c.character.info.position.cell),
            ..self
        }
    }

    /// With the creature `key` on the list of those that behave as it does.
    pub open spec fn listed(self, key: usize) -> MapView {
        match self.creatures[key].behavior {
            CreatureBehavior::AggroChase => MapView { aggro: self.aggro.push(key), ..self },
            CreatureBehavior::RandomWander { .. } => MapView {
                walking: self.walking.push(key),
                wander_count: one_more(self.wander_count),
                ..self
            },
            CreatureBehavior::Waypoint { .. } => MapView {
                walking: self.walking.push(key),
                waypoint_count: one_more(self.waypoint_count),
                ..self
            },
            CreatureBehavior::Idle => self,
        }
    }

    /// Without the creature `key` on the list of those that behave as it does, and
    /// without it among those that sleep.
    pub open spec fn unlisted(self, key: usize) -> MapView {
        match self.creatures[key].behavior {
            CreatureBehavior::AggroChase => MapView { aggro: without(self.aggro, key), ..self },
            CreatureBehavior::RandomWander { .. } => MapView {
                walking: without(self.walking, key),
                asleep: schedule::forgotten(self.asleep, key),
                wander_count: one_less(self.wander_count),
                ..self
            },
            CreatureBehavior::Waypoint { .. } => MapView {
                walking: without(self.walking, key),
                asleep: schedule::forgotten(self.asleep, key),
                waypoint_count: one_less(self.waypoint_count),
                ..self
            },
            CreatureBehavior::Idle => self,
        }
    }

    /// With the creature `key` in the index, unless it is waiting to come back.
    pub open spec fn seated(self, key: usize) -> MapView {
        if self.creatures.contains_key(key) && !(self.creatures[key].life_state is Respawning)
            && !self.creature_cells.contains_key(key) {
            MapView {
                creature_cells: self.creature_cells.insert(key, self.creatures[key].info.position.cell),
                ..self
            }
        } else {
            self
        }
    }

    /// With the creature `key` in the cell where it stands now; not in the index
    /// at all if it is waiting to come back.
    pub open spec fn reseated(self, key: usize) -> MapView {
        if !self.creatures.contains_key(key) {
            self
        } else if self.creatures[key].life_state is Respawning {
            MapView { creature_cells: self.creature_cells.remove(key), ..self }
        } else {
            MapView {
                creature_cells: self.creature_cells.insert(key, self.creatures[key].info.position.cell),
                ..self
            }
        }
    }

    /// With the creature `key` in every index.
    pub open spec fn registered(self, key: usize) -> MapView {
        (MapView {
            creature_keys: self.creature_keys.insert(self.creatures[key].guid, key as u64),
            ..self
        }).listed(key).seated(key)
    }

    /// Whether the spatial index knows every client that is here, and exactly the
    /// creatures that are not waiting to come back.
    pub open spec fn indexed(self) -> bool {
        &&& forall|k: usize| #[trigger] self.clients.contains_key(k) ==> self.client_cells.contains_key(k)
        &&& forall|k: usize|
            #![trigger self.creatures.contains_key(k)]
            #![trigger self.creature_cells.contains_key(k)]
            self.creature_cells.contains_key(k) <==> self.creatures.contains_key(k) && !(
            self.creatures[k].life_state is Respawning)
    }

    /// Whether nobody is held out: the spatial index knows no client that is not here.
    pub open spec fn index_is_live(self) -> bool {
        forall|k: usize| #[trigger] self.client_cells.contains_key(k) ==> self.clients.contains_key(k)
    }

    /// Whether the same clients are here as on `was`, and held out, and seated where they
    /// were.
    pub open spec fn keeps_clients_of(self, was: MapView) -> bool {
        &&& self.clients.dom() == was.clients.dom()
        &&& self.client_cells == was.client_cells
    }

    /// Whether nobody is held out but the client `key`.
    pub open spec fn only_out(self, key: usize) -> bool {
        forall|k: usize| #[trigger] self.client_cells.contains_key(k) && k != key ==> self.clients.contains_key(k)
    }

    /// Whether the indexes know exactly the clients and creatures that are
    /// here, each where it stands.
    pub open spec fn in_step(self) -> bool {
        &&& forall|g: u64|
            #![trigger self.client_keys[g]]
            #![trigger self.client_keys.contains_key(g)]
            self.client_keys.contains_key(g) ==> self.client_keys[g] <= usize::MAX && self.clients.contains_key(
                self.client_keys[g] as usize,
            ) && self.clients[self.client_keys[g] as usize].character.guid == g
        &&& forall|k: usize| #[trigger]
            self.clients.contains_key(k) ==> self.client_keys.contains_key(self.clients[k].character.guid)
                && self.client_keys[self.clients[k].character.guid] == k
        &&& self.client_cells.dom() == self.clients.dom()
    }
}

/// A creature that dies now.
pub open spec fn slain(c: Creature, now: u64) -> Creature {
    Creature {
        respawn_delay: if clock::since_spec(now, c.last_alive_at) < c.respawn_delay {
            c.respawn_delay / 2
        } else {
            c.respawn_delay
        },
        health: 0,
        life_state: CreatureLifeState::Corpse { died_at: now },
        cached_object: None,
        ..c
    }
}

impl MapView {
    /// After the creature `key` was killed: only a living creature dies.
    pub open spec fn killed(self, key: usize, now: u64) -> MapView {
        if self.creatures.contains_key(key) && self.creatures[key].life_state is Alive {
            (MapView { creatures: self.creatures.insert(key, slain(self.creatures[key], now)), ..self }).unlisted(key)
        } else {
            self
        }
    }

    /// What is told when the creature `key` is killed.
    pub open spec fn told_of_kill(self, key: usize) -> Seq<Outgoing> {
        if self.creatures.contains_key(key) && self.creatures[key].life_state is Alive {
            let c = self.creatures[key];
            seq![
                Outgoing {
                    to: Audience::Near { map: c.map, place: c.info.position },
                    what: Notice::UnitDied { guid: c.guid },
                },
            ]
        } else {
            Seq::empty()
        }
    }
}

/// The register without the players `guids`, who left one after the other.
pub open spec fn all_unregistered(r: RegistryView, guids: Seq<u64>) -> RegistryView
    decreases guids.len(),
{
    if guids.len() == 0 {
        r
    } else {
        all_unregistered(r, guids.drop_last()).unregistered(guids.last())
    }
}

/// How a client is entered in the register of players.
pub open spec fn register_entry(c: Character) -> PlayerRegistryEntry {
    PlayerRegistryEntry {
        guid: c.guid,
        name: c.name,
        position: Position { map: c.map, place: c.info.position, orientation: c.info.orientation },
    }
}

pub(crate) fn remove_first(keys: &mut Vec<usize>, key: usize)
    ensures
        final(keys)@ == without(old(keys)@, key),
{
    let mut i: usize = 0;
    while i < keys.len()
        invariant
            keys@ == old(keys)@,
            i <= keys.len(),
            place_in(keys@, key, 0) == place_in(keys@, key, i as int),
        decreases keys.len() - i,
    {
        if keys[i] == key {
            keys.swap_remove(i);
            return;
        }
        i += 1;
    }
}

impl MapState {
    /// The indexes are sound, and the spatial one knows everybody who is to be seen.
    pub open spec fn wf(&self) -> bool {
        &&& self.framed()
        &&& self@.indexed()
    }

    /// The indexes are sound in themselves.
    pub open spec fn framed(&self) -> bool {
        &&& self.index.wf()
        &&& self.pending_movement.wf()
        &&& forall|g: u64| #[trigger]
            tables::numbers(self.creature_by_guid).contains_key(g) ==> tables::numbers(self.creature_by_guid)[g]
                <= usize::MAX
    }

    /// A map with nobody on it.
    pub fn new_empty(map: u32, tick: &TickConfig) -> (r: Self)
        ensures
            r.wf(),
            r@.in_step(),
            r@ == (MapView {
                map,
                clients: Map::empty(),
                client_keys: Map::empty(),
                client_cells: Map::empty(),
                creatures: Map::empty(),
                creature_keys: Map::empty(),
                creature_cells: Map::empty(),
                aggro: Seq::empty(),
                walking: Seq::empty(),
                asleep: Map::empty(),
                wander_count: 0,
                waypoint_count: 0,
                last_tick_at: None,
                pending: Map::empty(),
                tick_counter: 0,
                heartbeats: Map::empty(),
                active_grids: Set::empty(),
                pacer: r.pacer,
            }),
            call_ensures(TickPacer::new_from_config, (tick,), r.pacer),
    {
        let r = MapState {
            map,
            clients: slabs::clients_new(),
            client_by_guid: tables::numbers_new(),
            creatures: slabs::creatures_new(),
            creature_by_guid: tables::numbers_new(),
            aggro_creature_keys: Vec::new(),
            walking_creature_keys: Vec::new(),
            creature_wake_at: WakeSchedule::new(),
            creature_wander_count: 0,
            creature_waypoint_count: 0,
            index: SpatialIndex::new(),
            last_tick_at: None,
            pending_movement: KeyedTable::new(),
            tick_counter: 0,
            last_heartbeat_broadcast_tick: tables::numbers_new(),
            active_grids: tables::members_new(),
            pacer: TickPacer::new_from_config(tick),
        };
        assert(r@.clients =~= Map::<usize, ClientView>::empty());
        r
    }

    /// Put a client on the map and into the register of players.
    pub fn insert_client(&mut self, c: Client, registry: &mut PlayerRegistry) -> (key: usize)
        requires
            old(self).wf(),
            old(registry).wf(),
        ensures
            final(self).wf(),
            old(self)@.index_is_live() ==> final(self)@.index_is_live(),
            final(registry).wf(),
            key == slabs::next_client(old(self).clients),
            !old(self)@.clients.contains_key(key),
            final(self)@ == old(self)@.client_inserted(key, c@),
            final(registry)@ == old(registry)@.registered(register_entry(c@.character)),
    {
        let guid: u64 = c.character.guid;
        let cell: (i32, i32) = c.character.info.position.cell;
        let entry = PlayerRegistryEntry { guid, name: c.character.name.clone(), position: c.position() };
        let ghost cv = c@;
        let key: usize = slabs::clients_insert(&mut self.clients, c);
        tables::numbers_insert(&mut self.client_by_guid, guid, key as u64);
        self.index.insert_client(key, cell);
        registry.register_player(entry);
        assert(self@ =~= old(self)@.client_inserted(key, cv));
        key
    }

    /// Take a client off the map and out of the register of players.
    pub fn remove_client(&mut self, key: usize, registry: &mut PlayerRegistry) -> (r: Client)
        requires
            old(self).wf(),
            old(registry).wf(),
            old(self)@.clients.contains_key(key),
        ensures
            final(self).wf(),
            old(self)@.index_is_live() ==> final(self)@.index_is_live(),
            final(registry).wf(),
            r@ == old(self)@.clients[key],
            final(self)@ == old(self)@.client_removed(key),
            final(registry)@ == old(registry)@.unregistered(r@.character.guid),
            slabs::next_client(final(self).clients) == key,
    {
        let c = slabs::clients_remove(&mut self.clients, key).unwrap();
        let guid: u64 = c.character.guid;
        tables::numbers_remove(&mut self.client_by_guid, guid);
        self.index.remove_client(key);
        registry.unregister_player(guid);
        assert(self@ =~= old(self)@.client_removed(key));
        c
    }

    /// Hold a client out while it is handled. The spatial index and the
    /// register of players are left as they are.
    pub fn take_active_client(&mut self, key: usize) -> (r: Client)
        requires
            old(self).wf(),
            old(self)@.clients.contains_key(key),
        ensures
            final(self).wf(),
            old(self)@.index_is_live() ==> final(self)@.only_out(key),
            r@ == old(self)@.clients[key],
            final(self)@ == old(self)@.client_taken(key),
            slabs::next_client(final(self).clients) == key,
    {
        let c = slabs::clients_remove(&mut self.clients, key).unwrap();
        tables::numbers_remove(&mut self.client_by_guid, c.character.guid);
        assert(self@ =~= old(self)@.client_taken(key));
        c
    }

    /// Put back a client that was held out. It gets the key that was freed
    /// last: its own, if it was held out last.
    pub fn reinsert_active_client(&mut self, c: Client) -> (key: usize)
        requires
            old(self).wf(),
        ensures
            final(self).wf(),
            old(self)@.only_out(key) ==> final(self)@.index_is_live(),
            key == slabs::next_client(old(self).clients),
            final(self)@ == old(self)@.client_returned(key, c@),
    {
        let guid: u64 = c.character.guid;
        let cell: (i32, i32) = c.character.info.position.cell;
        let ghost cv = c@;
        let key: usize = slabs::clients_insert(&mut self.clients, c);
        tables::numbers_insert(&mut self.client_by_guid, guid, key as u64);
        self.index.move_client(key, cell);
        assert(self@ =~= old(self)@.client_returned(key, cv));
        key
    }

    /// Put the creature `key` into every index.
    pub fn register_creature(&mut self, key: usize)
        requires
            old(self).framed(),
            old(self)@.creatures.contains_key(key),
        ensures
            final(self).framed(),
            final(self)@ == old(self)@.registered(key),
    {
        let guid: u64 = slabs::creatures_get(&self.creatures, key).unwrap().guid;
        tables::numbers_insert(&mut self.creature_by_guid, guid, key as u64);
        self.unmark_creature_dead(key);
        self.grid_insert(key);
    }

    /// Put the creature `key` into the spatial index if it is to be seen.
    pub fn grid_insert(&mut self, key: usize)
        requires
            old(self).framed(),
        ensures
            final(self).framed(),
            final(self)@ == old(self)@.seated(key),
    {
        let cell: (i32, i32) = match slabs::creatures_get(&self.creatures, key) {
            Some(c) => {
                if let CreatureLifeState::Respawning { .. } = c.life_state {
                    return;
                }
                c.info.position.cell
            },
            None => {
                return;
            },
        };
        self.index.insert_creature(key, cell);
        assert(self@ =~= old(self)@.seated(key));
    }

    /// Take the creature `key` out of the spatial index.
    pub fn grid_remove(&mut self, key: usize)
        requires
            old(self).framed(),
        ensures
            final(self).framed(),
            final(self)@ == (MapView { creature_cells: old(self)@.creature_cells.remove(key), ..old(self)@ }),
    {
        self.index.remove_creature(key);
    }

    /// Seat the creature `key` where it stands now.
    pub fn grid_move(&mut self, key: usize)
        requires
            old(self).framed(),
        ensures
            final(self).framed(),
            final(self)@ == old(self)@.reseated(key),
    {
        let cell: (i32, i32) = match slabs::creatures_get(&self.creatures, key) {
            Some(c) => {
                if let CreatureLifeState::Respawning { .. } = c.life_state {
                    self.index.remove_creature(key);
                    return;
                }
                c.info.position.cell
            },
            None => {
                return;
            },
        };
        self.index.move_creature(key, cell);
    }

    /// Kill the creature `key`, if it lives: it lies there as a corpse from now
    /// on and does nothing any more. One that lived for less than its respawn
    /// delay comes back in half the time.
    pub fn kill_creature(&mut self, key: usize, now: u64, out: &mut Vec<Outgoing>)
        requires
            old(self).wf(),
        ensures
            final(self).wf(),
            final(self)@.keeps_clients_of(old(self)@),
            final(self)@ == old(self)@.killed(key, now),
            final(out)@ == old(out)@ + old(self)@.told_of_kill(key),
    {
        let ghost was = self@;
        let mut notice: Option<Outgoing> = None;
        match slabs::creatures_get_mut(&mut self.creatures, key) {
            Some(c) => {
                if let CreatureLifeState::Alive = c.life_state {
                    let alive_for: u64 = clock::since(now, c.last_alive_at);
                    if alive_for < c.respawn_delay {
                        c.respawn_delay = c.respawn_delay / 2;
                    }
                    c.health = 0;
                    c.life_state = CreatureLifeState::Corpse { died_at: now };
                    c.invalidate_object_cache();
                    notice = Some(
                        Outgoing {
                            to: Audience::Near { map: c.map, place: c.info.position },
                            what: Notice::UnitDied { guid: c.guid },
                        },
                    );
                }
            },
            None => {},
        }
        match notice {
            Some(n) => {
                assert(self@ =~= MapView { creatures: was.creatures.insert(key, slain(was.creatures[key], now)), ..was });
                self.mark_creature_dead(key);
                out.push(n);
                assert(out@ =~= old(out)@ + was.told_of_kill(key));
            },
            None => {
                assert(self@.creatures =~= was.creatures);
                assert(self@ =~= was);
                assert(out@ =~= old(out)@ + was.told_of_kill(key));
            },
        }
    }

    /// Take the creature `key` off the list of those that behave as it does. One that
    /// sleeps is not woken any more.
    pub fn mark_creature_dead(&mut self, key: usize)
        requires
            old(self).framed(),
        ensures
            final(self).framed(),
            old(self).wf() ==> final(self)@.indexed(),
            final(self)@ == (if old(self)@.creatures.contains_key(key) {
                old(self)@.unlisted(key)
            } else {
                old(self)@
            }),
    {
        match slabs::creatures_get(&self.creatures, key) {
            Some(c) => {
                match &c.behavior {
                    CreatureBehavior::AggroChase => {
                        remove_first(&mut self.aggro_creature_keys, key);
                    },
                    CreatureBehavior::RandomWander { .. } => {
                        remove_first(&mut self.walking_creature_keys, key);
                        self.creature_wake_at.forget(key);
                        self.creature_wander_count = self.creature_wander_count.saturating_sub(1);
                    },
                    CreatureBehavior::Waypoint { .. } => {
                        remove_first(&mut self.walking_creature_keys, key);
                        self.creature_wake_at.forget(key);
                        self.creature_waypoint_count = self.creature_waypoint_count.saturating_sub(1);
                    },
                    CreatureBehavior::Idle => {},
                }
            },
            None => {},
        }
    }

    /// Put the creature `key` on the list of those that behave as it does.
    pub fn unmark_creature_dead(&mut self, key: usize)
        requires
            old(self).framed(),
        ensures
            final(self).framed(),
            old(self).wf() ==> final(self)@.indexed(),
            final(self)@ == (if old(self)@.creatures.contains_key(key) {
                old(self)@.listed(key)
            } else {
                old(self)@
            }),
    {
        match slabs::creatures_get(&self.creatures, key) {
            Some(c) => {
                match &c.behavior {
                    CreatureBehavior::AggroChase => {
                        self.aggro_creature_keys.push(key);
                    },
                    CreatureBehavior::RandomWander { .. } => {
                        self.walking_creature_keys.push(key);
                        self.creature_wander_count = self.creature_wander_count.saturating_add(1);
                    },
                    CreatureBehavior::Waypoint { .. } => {
                        self.walking_creature_keys.push(key);
                        self.creature_waypoint_count = self.creature_waypoint_count.saturating_add(1);
                    },
                    CreatureBehavior::Idle => {},
                }
            },
            None => {},
        }
    }
}

/// The spatial index of a sound map tracks a creature exactly if it is on the map and
/// not waiting to come back. Where nobody is held out, it tracks a client exactly if it
/// is on the map, and as many clients as there are.
pub proof fn the_index_tracks_who_is_here(m: MapState, k: usize)
    requires
        m.wf(),
    ensures
        m.index.creatures().contains_key(k) <==> m@.creatures.contains_key(k) && !(
        m@.creatures[k].life_state is Respawning),
        m@.clients.contains_key(k) ==> m.index.clients().contains_key(k),
        m@.index_is_live() ==> (m.index.clients().contains_key(k) <==> m@.clients.contains_key(k)),
        m@.index_is_live() ==> m.index.clients().dom().len() == m@.clients.dom().len(),
{
    assert(m@.creature_cells.contains_key(k) <==> m@.creatures.contains_key(k) && !(
    m@.creatures[k].life_state is Respawning));
    if m@.index_is_live() {
        assert(m@.client_cells.dom() =~= m@.clients.dom());
    }
}

/// The spatial index knows whom it has to know as long as nobody comes, goes, decays or
/// comes back.
pub proof fn who_is_indexed_stays_indexed(a: MapView, b: MapView)
    requires
        a.indexed(),
        b.client_cells == a.client_cells,
        b.creature_cells == a.creature_cells,
        b.clients.dom() == a.clients.dom(),
        b.creatures.dom() == a.creatures.dom(),
        forall|k: usize| #[trigger]
            a.creatures.contains_key(k) ==> (b.creatures[k].life_state is Respawning
                <==> a.creatures[k].life_state is Respawning),
    ensures
        b.indexed(),
{
    assert forall|k: usize| #[trigger] b.clients.contains_key(k) implies b.client_cells.contains_key(k) by {
        assert(a.clients.contains_key(k));
    }
    assert forall|k: usize|
        #![trigger b.creatures.contains_key(k)]
        #![trigger b.creature_cells.contains_key(k)]
        b.creature_cells.contains_key(k) <==> b.creatures.contains_key(k) && !(
        b.creatures[k].life_state is Respawning) by {
        assert(a.creatures.dom().contains(k) <==> b.creatures.dom().contains(k));
        assert(a.creature_cells.contains_key(k) <==> a.creatures.contains_key(k) && !(
        a.creatures[k].life_state is Respawning));
    }
}

/// A client whose guid is not on the map yet is found once it entered, and the
/// indexes stay in step.
pub proof fn entering_keeps_step(v: MapView, key: usize, c: ClientView)
    requires
        v.in_step(),
        !v.clients.contains_key(key),
        !v.client_keys.contains_key(c.character.guid),
    ensures
        v.client_inserted(key, c).in_step(),
        v.client_inserted(key, c).client_keys[c.character.guid] == key,
        v.client_inserted(key, c).client_cells[key] == c.character.info.position.cell,
{
    let after = v.client_inserted(key, c);
    assert(after.client_cells.dom() =~= after.clients.dom());
    assert forall|k: usize| #[trigger] after.clients.contains_key(k) implies after.client_keys.contains_key(
        after.clients[k].character.guid,
    ) && after.client_keys[after.clients[k].character.guid] == k by {
        if k != key {
            assert(v.clients.contains_key(k));
        }
    }
}

/// The indexes stay in step when a client leaves, who is then not found.
pub proof fn leaving_keeps_step(v: MapView, key: usize)
    requires
        v.in_step(),
        v.clients.contains_key(key),
    ensures
        v.client_removed(key).in_step(),
        !v.client_removed(key).client_keys.contains_key(v.clients[key].character.guid),
        !v.client_removed(key).client_cells.contains_key(key),
{
    let after = v.client_removed(key);
    assert(after.client_cells.dom() =~= after.clients.dom());
    assert forall|k: usize| #[trigger] after.clients.contains_key(k) implies after.client_keys.contains_key(
        after.clients[k].character.guid,
    ) && after.client_keys[after.clients[k].character.guid] == k by {
        assert(v.clients.contains_key(k));
    }
}

/// Whoever is held out and put back without having moved is where they were,
/// and so is everybody else.
pub proof fn holding_out_changes_nothing(v: MapView, key: usize)
    requires
        v.in_step(),
        v.clients.contains_key(key),
        v.client_cells[key] == v.clients[key].character.info.position.cell,
    ensures
        v.client_taken(key).client_returned(key, v.clients[key]) == v,
{
    let after = v.client_taken(key).client_returned(key, v.clients[key]);
    assert(after.clients =~= v.clients);
    assert(after.client_keys =~= v.client_keys);
    assert(after.client_cells =~= v.client_cells);
}

/// The indexes are in step again once whoever was held out is back under the
/// same key, changed or not, as long as nobody else has their guid.
pub proof fn putting_back_keeps_step(v: MapView, key: usize, c: ClientView)
    requires
        v.in_step(),
        v.clients.contains_key(key),
        c.character.guid == v.clients[key].character.guid,
    ensures
        v.client_taken(key).client_returned(key, c).in_step(),
{
    let after = v.client_taken(key).client_returned(key, c);
    assert(after.client_cells.dom() =~= after.clients.dom());
    assert forall|k: usize| #[trigger] after.clients.contains_key(k) implies after.client_keys.contains_key(
        after.clients[k].character.guid,
    ) && after.client_keys[after.clients[k].character.guid] == k by {
        assert(v.clients.contains_key(k));
    }
}

/// On a sound map, the keys of the clients have an ascending order.
pub proof fn clients_are_in_order(m: MapState)
    requires
        m.wf(),
    ensures
        m@.clients.dom().finite(),
        slabs::in_order(slabs::ordered(m@.clients.dom()), m@.clients.dom()),
{
    m.index.who_is_tracked_can_be_counted();
    assert(m@.clients.dom().subset_of(m.index.clients().dom())) by {
        assert forall|k: usize| m@.clients.dom().contains(k) implies m.index.clients().dom().contains(k) by {
            assert(m@.clients.contains_key(k));
        }
    }
    vstd::set_lib::lemma_set_subset_finite(m.index.clients().dom(), m@.clients.dom());
    slabs::the_finite_have_an_order(m@.clients.dom());
}

/// A living creature that is killed lies there as a corpse without health from then on,
/// where it stood, and those near are told once. It comes back in half the time if it
/// lived for less than that. Nobody else is touched.
pub proof fn who_is_killed_is_a_corpse(m: &mut MapState, key: usize, now: u64, out: &mut Vec<Outgoing>, u: ())
    requires
        old(m).wf(),
        old(m)@.creatures.contains_key(key),
        old(m)@.creatures[key].life_state is Alive,
        call_ensures(MapState::kill_creature, (m, key, now, out), u),
    ensures
        ({
            let was = old(m)@.creatures[key];
            let is = final(m)@.creatures[key];
            &&& is.life_state == (CreatureLifeState::Corpse { died_at: now })
            &&& is.health == 0
            &&& is.info == was.info
            &&& is.guid == was.guid && is.max_health == was.max_health && is.map == was.map
            &&& is.behavior == was.behavior
            &&& is.spawn_position == was.spawn_position && is.spawn_orientation == was.spawn_orientation
            &&& is.cached_object is None
            &&& is.respawn_delay == (if now < was.last_alive_at + was.respawn_delay && was.respawn_delay > 0 {
                was.respawn_delay / 2
            } else {
                was.respawn_delay
            })
            &&& final(out)@ == old(out)@.push(
                Outgoing {
                    to: Audience::Near { map: was.map, place: was.info.position },
                    what: Notice::UnitDied { guid: was.guid },
                },
            )
        }),
        final(m)@.clients == old(m)@.clients,
        final(m)@.creatures.dom() == old(m)@.creatures.dom(),
        forall|k: usize| k != key ==> #[trigger] final(m)@.creatures[k] == old(m)@.creatures[k],
        final(m)@.creature_cells == old(m)@.creature_cells,
        final(m)@.creature_keys == old(m)@.creature_keys,
{
    assert(final(m)@.creatures.dom() =~= old(m)@.creatures.dom());
}

/// Who is dead or not there is not killed, and nobody is told.
pub proof fn only_the_living_are_killed(m: &mut MapState, key: usize, now: u64, out: &mut Vec<Outgoing>, u: ())
    requires
        old(m).wf(),
        !old(m)@.creatures.contains_key(key) || !(old(m)@.creatures[key].life_state is Alive),
        call_ensures(MapState::kill_creature, (m, key, now, out), u),
    ensures
        final(m)@ == old(m)@,
        final(out)@ == old(out)@,
{
    assert(final(out)@ =~= old(out)@);
}

/// A newcomer is on the map, found by guid, seated where it stands, and registered with
/// where it is.
pub proof fn who_enters_is_found_everywhere(m: &mut MapState, c: Client, registry: &mut PlayerRegistry, key: usize)
    requires
        old(m).wf(),
        old(registry).wf(),
        old(m)@.index_is_live(),
        call_ensures(MapState::insert_client, (m, c, registry), key),
    ensures
        !old(m)@.clients.contains_key(key),
        final(m)@.clients == old(m)@.clients.insert(key, c@),
        final(m)@.client_keys == old(m)@.client_keys.insert(c.character.guid, key as u64),
        final(m)@.client_cells == old(m)@.client_cells.insert(key, c.character.info.position.cell),
        final(m)@.creatures == old(m)@.creatures,
        final(registry)@.players.contains_key(c.character.guid),
        final(registry)@.players[c.character.guid].guid == c.character.guid,
        final(registry)@.players[c.character.guid].name == c.character.name,
        final(registry)@.players[c.character.guid].position == (Position {
            map: c.character.map,
            place: c.character.info.position,
            orientation: c.character.info.orientation,
        }),
{
}

/// Who is taken off the map is in no index, and is handed out as they were.
pub proof fn who_leaves_is_found_nowhere(m: &mut MapState, key: usize, registry: &mut PlayerRegistry, r: Client)
    requires
        old(m).wf(),
        old(registry).wf(),
        old(m)@.clients.contains_key(key),
        call_ensures(MapState::remove_client, (m, key, registry), r),
    ensures
        r@ == old(m)@.clients[key],
        final(m)@.clients == old(m)@.clients.remove(key),
        final(m)@.client_keys == old(m)@.client_keys.remove(r.character.guid),
        final(m)@.client_cells == old(m)@.client_cells.remove(key),
        final(m)@.creatures == old(m)@.creatures,
        final(registry)@.players == old(registry)@.players.remove(r.character.guid),
{
}

/// Who is handled is held out, and comes back under the same key, seated where it stands
/// then.
pub proof fn who_is_held_out_comes_back(
    m: &mut MapState,
    key: usize,
    r: Client,
    mid: &mut MapState,
    c: Client,
    back: usize,
)
    requires
        old(m).wf(),
        old(m)@.clients.contains_key(key),
        call_ensures(MapState::take_active_client, (m, key), r),
        *old(mid) == *final(m),
        call_ensures(MapState::reinsert_active_client, (mid, c), back),
    ensures
        r@ == old(m)@.clients[key],
        !final(m)@.clients.contains_key(key),
        !final(m)@.client_keys.contains_key(r.character.guid),
        back == key,
        final(mid)@.clients == old(m)@.clients.insert(key, c@),
        final(mid)@.client_keys[c.character.guid] == key as u64,
        final(mid)@.client_cells[key] == c.character.info.position.cell,
        final(mid)@.creatures == old(m)@.creatures,
{
    assert(final(mid)@.clients =~= old(m)@.clients.insert(key, c@));
}

/// A creature that is put into the indexes is found by guid, is seated where it stands
/// unless it waits to come back, and is listed with those that behave as it does.
pub proof fn a_registered_creature_is_found(m: &mut MapState, key: usize, u: ())
    requires
        old(m).framed(),
        old(m)@.creatures.contains_key(key),
        !old(m)@.creature_cells.contains_key(key),
        call_ensures(MapState::register_creature, (m, key), u),
    ensures
        ({
            let c = old(m)@.creatures[key];
            let (a, b) = (old(m)@, final(m)@);
            &&& b.creatures == a.creatures
            &&& b.clients == a.clients
            &&& b.creature_keys == a.creature_keys.insert(c.guid, key as u64)
            &&& b.creature_cells == (if c.life_state is Respawning {
                a.creature_cells
            } else {
                a.creature_cells.insert(key, c.info.position.cell)
            })
            &&& b.aggro == (if c.behavior is AggroChase {
                a.aggro.push(key)
            } else {
                a.aggro
            })
            &&& b.walking == (if c.behavior is RandomWander || c.behavior is Waypoint {
                a.walking.push(key)
            } else {
                a.walking
            })
            &&& b.asleep == a.asleep
            &&& a.wander_count < usize::MAX ==> b.wander_count == a.wander_count + (if c.behavior is RandomWander {
                1int
            } else {
                0
            })
            &&& a.waypoint_count < usize::MAX ==> b.waypoint_count == a.waypoint_count + (if c.behavior is Waypoint {
                1int
            } else {
                0
            })
        }),
{
}

/// A creature that is dead is on no list: of the lists it leaves only its own, and the
/// count of those that behave as it does is one less.
pub proof fn the_dead_leave_their_list(m: &mut MapState, key: usize, u: ())
    requires
        old(m).framed(),
        old(m)@.creatures.contains_key(key),
        call_ensures(MapState::mark_creature_dead, (m, key), u),
    ensures
        ({
            let c = old(m)@.creatures[key];
            let (a, b) = (old(m)@, final(m)@);
            let wanders = c.behavior is RandomWander;
            let follows = c.behavior is Waypoint;
            &&& b.creatures == a.creatures
            &&& b.clients == a.clients
            &&& c.behavior is AggroChase && a.aggro.no_duplicates() ==> !b.aggro.contains(key)
            &&& !(c.behavior is AggroChase) ==> b.aggro == a.aggro
            &&& (wanders || follows) && a.walking.no_duplicates() ==> !b.walking.contains(key)
            &&& !(wanders || follows) ==> b.walking == a.walking && b.asleep == a.asleep
            &&& wanders || follows ==> !schedule::sleeps(b.asleep, key)
            &&& a.wander_count > 0 ==> b.wander_count == a.wander_count - (if wanders {
                1int
            } else {
                0
            })
            &&& a.waypoint_count > 0 ==> b.waypoint_count == a.waypoint_count - (if follows {
                1int
            } else {
                0
            })
        }),
{
    let (a, b) = (old(m)@, final(m)@);
    lemma_without_it(a.aggro, key);
    lemma_without_it(a.walking, key);
    schedule::the_forgotten_do_not_sleep(a.asleep, key, key);
}

proof fn lemma_place(s: Seq<usize>, key: usize, from: int)
    requires
        0 <= from <= s.len(),
    ensures
        match place_in(s, key, from) {
            Some(i) => from <= i < s.len() && s[i] == key,
            None => forall|i: int| from <= i < s.len() ==> s[i] != key,
        },
    decreases s.len() - from,
{
    if from < s.len() && s[from] != key {
        lemma_place(s, key, from + 1);
    }
}

proof fn lemma_without_it(s: Seq<usize>, key: usize)
    ensures
        s.no_duplicates() ==> !without(s, key).contains(key),
{
    lemma_place(s, key, 0);
    let w = without(s, key);
    if s.no_duplicates() && w.contains(key) {
        let j = choose|j: int| 0 <= j < w.len() && w[j] == key;
        match place_in(s, key, 0) {
            Some(i) => {
                if j == i {
                    assert(s[s.len() - 1] == key);
                } else {
                    assert(s[j] == key);
                }
            },
            None => {
                assert(s[j] == key);
            },
        }
    }
}

/// A creature is in the index where it stands now, unless it waits to come back; one that is
/// taken out is in no cell, and nobody else is moved.
pub proof fn a_creature_is_seated_where_it_stands(
    a: &mut MapState,
    b: &mut MapState,
    key: usize,
    u: (),
    v: (),
    other: usize,
)
    requires
        old(a).framed(),
        old(b).framed(),
        call_ensures(MapState::grid_move, (a, key), u),
        call_ensures(MapState::grid_remove, (b, key), v),
    ensures
        old(a)@.creatures.contains_key(key) && !(old(a)@.creatures[key].life_state is Respawning) ==> final(a)@.creature_cells.contains_key(key) && final(a)@.creature_cells[key]
            == old(a)@.creatures[key].info.position.cell,
        old(a)@.creatures.contains_key(key) && old(a)@.creatures[key].life_state is Respawning ==> !final(a)@.creature_cells.contains_key(key),
        !final(b)@.creature_cells.contains_key(key),
        other != key ==> (final(a)@.creature_cells.contains_key(other) <==> old(a)@.creature_cells.contains_key(other))
            && final(a)@.creature_cells[other] == old(a)@.creature_cells[other],
        other != key ==> (final(b)@.creature_cells.contains_key(other) <==> old(b)@.creature_cells.contains_key(other)),
        final(a)@.creatures == old(a)@.creatures && final(b)@.creatures == old(b)@.creatures,
{
}

/// A creature is put on the list of those that behave as it does, and on no other: those that
/// chase, or those that walk, of whom those that wander and those on a path are counted.
pub proof fn a_creature_is_listed_as_it_behaves(m: &mut MapState, key: usize, u: ())
    requires
        old(m).framed(),
        call_ensures(MapState::unmark_creature_dead, (m, key), u),
        old(m)@.creatures.contains_key(key),
    ensures
        ({
            let b = old(m)@.creatures[key].behavior;
            &&& b is AggroChase ==> final(m)@.aggro == old(m)@.aggro.push(key) && final(m)@.walking == old(m)@.walking
            &&& b is RandomWander || b is Waypoint ==> final(m)@.walking == old(m)@.walking.push(key)
                && final(m)@.aggro == old(m)@.aggro
            &&& b is RandomWander && old(m)@.wander_count < usize::MAX ==> final(m)@.wander_count
                == old(m)@.wander_count + 1 && final(m)@.waypoint_count == old(m)@.waypoint_count
            &&& b is Waypoint && old(m)@.waypoint_count < usize::MAX ==> final(m)@.waypoint_count
                == old(m)@.waypoint_count + 1 && final(m)@.wander_count == old(m)@.wander_count
            &&& b is Idle ==> final(m)@ == old(m)@
        }),
        final(m)@.creatures == old(m)@.creatures && final(m)@.clients == old(m)@.clients,
{
}

} // verus!

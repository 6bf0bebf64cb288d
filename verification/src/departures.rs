//! Clients who leave a map, and what is told of movements at the end of a tick.
use crate::cell::{PlayerRegistry, RegistryView};
use crate::client::{Client, ClientView};
use crate::keyed;
use crate::map_state;
use crate::map_state::{MapState, MapView, PendingMovement};
use crate::slabs;
use crate::tables;
use vstd::prelude::*;

verus! {

/// The players who are gone from one map.
#[derive(Debug)]
pub struct MapGuids {
    pub map: u32,
    pub guids: Vec<u64>,
}

/// The clients who left, and whom the others are told of, map by map.
pub struct Departure {
    pub clients: Vec<Client>,
    pub gone: Vec<MapGuids>,
}

/// The clients under `keys`.
pub open spec fn those(clients: Map<usize, ClientView>, keys: Seq<usize>) -> Seq<ClientView> {
    keys.map_values(|k: usize| clients[k])
}

/// The clients, as contracts speak of them.
pub open spec fn views(s: Seq<Client>) -> Seq<ClientView> {
    s.map_values(|c: Client| c@)
}

/// The guids of clients.
pub open spec fn guids_of(s: Seq<ClientView>) -> Seq<u64> {
    s.map_values(|c: ClientView| c.character.guid)
}

/// The guids of those clients of `s` that are on `map`.
pub open spec fn gone_from(s: Seq<ClientView>, map: u32) -> Seq<u64>
    decreases s.len(),
{
    if s.len() == 0 {
        Seq::empty()
    } else if s.last().character.map == map {
        gone_from(s.drop_last(), map).push(s.last().character.guid)
    } else {
        gone_from(s.drop_last(), map)
    }
}

/// `visible` without the guids.
pub open spec fn minus(visible: Set<u64>, guids: Seq<u64>) -> Set<u64> {
    visible.filter(|g: u64| !guids.contains(g))
}

/// A client who no longer shows the players that left its map.
pub open spec fn forgetting(c: ClientView, left: Seq<ClientView>) -> ClientView {
    ClientView { visible: minus(c.visible, gone_from(left, c.character.map)), ..c }
}

impl MapView {
    /// Without the clients under `keys`, who leave one after the other.
    pub open spec fn without_clients(self, keys: Seq<usize>) -> MapView
        decreases keys.len(),
    {
        if keys.len() == 0 {
            self
        } else {
            self.without_clients(keys.drop_last()).client_removed(keys.last())
        }
    }

    /// After the clients under `keys` left for good: nothing of them is kept,
    /// and nobody shows them any more.
    pub open spec fn departed(self, keys: Seq<usize>) -> MapView {
        let left = those(self.clients, keys);
        let rest = self.without_clients(keys);
        MapView {
            clients: rest.clients.map_values(|c: ClientView| forgetting(c, left)),
            heartbeats: rest.heartbeats.remove_keys(guids_of(left).to_set()),
            ..rest
        }
    }

    /// The clients whose map is not this one.
    pub open spec fn strays(self) -> Seq<usize> {
        slabs::ordered(self.clients.dom()).filter(|k: usize| self.clients[k].character.map != self.map)
    }
}

proof fn lemma_without_clients(v: MapView, keys: Seq<usize>)
    requires
        keys.no_duplicates(),
        forall|i: int| 0 <= i < keys.len() ==> v.clients.contains_key(#[trigger] keys[i]),
    ensures
        v.without_clients(keys).clients == v.clients.remove_keys(keys.to_set()),
        v.without_clients(keys) == (MapView {
            clients: v.without_clients(keys).clients,
            client_keys: v.without_clients(keys).client_keys,
            client_cells: v.without_clients(keys).client_cells,
            ..v
        }),
    decreases keys.len(),
{
    if keys.len() == 0 {
        assert(v.clients.remove_keys(keys.to_set()) =~= v.clients);
    } else {
        let init = keys.drop_last();
        assert forall|i: int| 0 <= i < init.len() implies v.clients.contains_key(#[trigger] init[i]) by {
            assert(init[i] == keys[i]);
        }
        lemma_without_clients(v, init);
        assert(v.without_clients(keys).clients =~= v.clients.remove_keys(keys.to_set())) by {
            assert(keys =~= init.push(keys.last()));
            assert forall|k: usize| keys.to_set().contains(k) <==> (init.to_set().contains(k) || k == keys.last()) by {
                if keys.contains(k) && k != keys.last() {
                    let i = choose|i: int| 0 <= i < keys.len() && keys[i] == k;
                    assert(init[i] == k);
                }
                if init.contains(k) {
                    let i = choose|i: int| 0 <= i < init.len() && init[i] == k;
                    assert(keys[i] == k);
                }
            }
        }
    }
}

/// Take `guids` out of what the client shows.
fn forget_guids(c: &mut Client, guids: &Vec<u64>)
    ensures
        final(c)@ == (ClientView { visible: minus(old(c)@.visible, guids@), ..old(c)@ }),
{
    let mut i: usize = 0;
    assert(minus(c@.visible, guids@.take(0)) =~= c@.visible);
    while i < guids.len()
        invariant
            i <= guids.len(),
            c@ == (ClientView { visible: minus(old(c)@.visible, guids@.take(i as int)), ..old(c)@ }),
        decreases guids.len() - i,
    {
        c.forget(guids[i]);
        proof {
            let a = guids@.take(i as int);
            let b = guids@.take(i + 1);
            assert(b =~= a.push(guids@[i as int]));
            assert forall|g: u64| b.contains(g) <==> a.contains(g) || g == guids@[i as int] by {
                if a.contains(g) {
                    let j = choose|j: int| 0 <= j < a.len() && a[j] == g;
                    assert(b[j] == g);
                }
                if g == guids@[i as int] {
                    assert(b[i as int] == g);
                }
            }
            assert(c@.visible =~= minus(old(c)@.visible, b));
        }
        i += 1;
    }
    assert(guids@.take(i as int) =~= guids@);
}

/// The groups say of each map who left it, and list every map that somebody
/// left.
pub open spec fn grouped(gone: Seq<MapGuids>, left: Seq<ClientView>) -> bool {
    &&& forall|i: int, j: int| 0 <= i < j < gone.len() ==> (#[trigger] gone[i]).map != (#[trigger] gone[j]).map
    &&& forall|i: int|
        0 <= i < gone.len() ==> (#[trigger] gone[i]).guids@ == gone_from(left, gone[i].map) && gone[i].guids@.len() > 0
    &&& forall|map: u32| #[trigger] gone_from(left, map).len() > 0 ==> lists_map(gone, map)
}

/// Whether `map` is one of the maps of `gone`.
pub open spec fn lists_map(gone: Seq<MapGuids>, map: u32) -> bool {
    exists|i: int| 0 <= i < gone.len() && (#[trigger] gone[i]).map == map
}

/// Note in the groups that `guid` left `map`.
fn note_gone(gone: &mut Vec<MapGuids>, map: u32, guid: u64, Ghost(left): Ghost<Seq<ClientView>>, Ghost(c): Ghost<ClientView>)
    requires
        grouped(old(gone)@, left),
        c.character.map == map,
        c.character.guid == guid,
    ensures
        grouped(final(gone)@, left.push(c)),
{
    let ghost before = gone@;
    let ghost now = left.push(c);
    proof {
        assert(now.drop_last() =~= left);
        assert forall|m: u32| #[trigger] gone_from(now, m) == (if m == map {
            gone_from(left, m).push(guid)
        } else {
            gone_from(left, m)
        }) by {}
    }
    let mut i: usize = 0;
    while i < gone.len() && gone[i].map != map
        invariant
            gone@ == before,
            i <= gone.len(),
            forall|j: int| 0 <= j < i ==> (#[trigger] gone@[j]).map != map,
        decreases gone.len() - i,
    {
        i += 1;
    }
    if i < gone.len() {
        gone[i].guids.push(guid);
    } else {
        let mut guids: Vec<u64> = Vec::new();
        guids.push(guid);
        proof {
            assert(gone_from(left, map).len() == 0) by {
                if gone_from(left, map).len() > 0 {
                    assert(lists_map(before, map));
                }
            }
            assert(guids@ =~= gone_from(now, map));
        }
        gone.push(MapGuids { map, guids });
    }
    proof {
        assert(gone@[i as int].map == map);
        assert forall|m: u32| #[trigger] gone_from(now, m).len() > 0 implies lists_map(gone@, m) by {
            if m != map {
                assert(lists_map(before, m));
                let j = choose|j: int| 0 <= j < before.len() && (#[trigger] before[j]).map == m;
                assert(gone@[j].map == m);
            }
        }
    }
}

impl MapState {
    /// Take the clients under `keys` off the map for good: out of the register
    /// of players, out of the throttle of movements, and out of what the others
    /// show.
    pub fn drain_logouts(&mut self, keys: &Vec<usize>, registry: &mut PlayerRegistry) -> (r: Departure)
        requires
            old(self).wf(),
            old(registry).wf(),
            keys@.no_duplicates(),
            forall|i: int| 0 <= i < keys@.len() ==> old(self)@.clients.contains_key(#[trigger] keys@[i]),
        ensures
            final(self).wf(),
            old(self)@.index_is_live() ==> final(self)@.index_is_live(),
            final(registry).wf(),
            final(self)@ == old(self)@.departed(keys@),
            views(r.clients@) == those(old(self)@.clients, keys@),
            grouped(r.gone@, those(old(self)@.clients, keys@)),
            final(registry)@ == map_state::all_unregistered(
                old(registry)@,
                guids_of(those(old(self)@.clients, keys@)),
            ),
    {
        let ghost was = self@;
        let ghost reg = registry@;
        let mut clients: Vec<Client> = Vec::new();
        let mut gone: Vec<MapGuids> = Vec::new();
        let mut i: usize = 0;
        proof {
            assert(those(was.clients, keys@.take(0)) =~= Seq::<ClientView>::empty());
            assert(views(clients@) =~= Seq::<ClientView>::empty());
            assert(was.heartbeats.remove_keys(guids_of(those(was.clients, keys@.take(0))).to_set()) =~= was.heartbeats);
        }
        while i < keys.len()
            invariant
                i <= keys.len(),
                self.wf(),
                old(self)@.index_is_live() ==> self@.index_is_live(),
                registry.wf(),
                keys@.no_duplicates(),
                forall|j: int| 0 <= j < keys@.len() ==> was.clients.contains_key(#[trigger] keys@[j]),
                views(clients@) == those(was.clients, keys@.take(i as int)),
                grouped(gone@, those(was.clients, keys@.take(i as int))),
                registry@ == map_state::all_unregistered(reg, guids_of(those(was.clients, keys@.take(i as int)))),
                self@ == (MapView {
                    heartbeats: was.heartbeats.remove_keys(
                        guids_of(those(was.clients, keys@.take(i as int))).to_set(),
                    ),
                    ..was.without_clients(keys@.take(i as int))
                }),
            decreases keys.len() - i,
        {
            let key: usize = keys[i];
            let ghost init = keys@.take(i as int);
            let ghost left = those(was.clients, init);
            proof {
                assert forall|j: int| 0 <= j < init.len() implies was.clients.contains_key(#[trigger] init[j]) by {
                    assert(init[j] == keys@[j]);
                }
                lemma_without_clients(was, init);
                assert(!init.contains(key)) by {
                    if init.contains(key) {
                        let j = choose|j: int| 0 <= j < init.len() && init[j] == key;
                        assert(keys@[j] == key);
                    }
                }
                assert(self@.clients.contains_key(key) && self@.clients[key] == was.clients[key]);
            }
            let c = self.remove_client(key, registry);
            let ghost cv = c@;
            let map: u32 = c.character.map;
            let guid: u64 = c.character.guid;
            tables::numbers_remove(&mut self.last_heartbeat_broadcast_tick, guid);
            note_gone(&mut gone, map, guid, Ghost(left), Ghost(cv));
            clients.push(c);
            proof {
                let now = keys@.take(i + 1);
                assert(now =~= init.push(key));
                assert(now.drop_last() =~= init);
                assert(those(was.clients, now) =~= left.push(cv));
                assert(views(clients@) =~= those(was.clients, now));
                let gs = guids_of(left);
                assert(guids_of(left.push(cv)) =~= gs.push(guid));
                assert(gs.push(guid).drop_last() =~= gs);
                assert(self@.heartbeats =~= was.heartbeats.remove_keys(gs.push(guid).to_set())) by {
                    assert forall|g: u64| gs.push(guid).to_set().contains(g) <==> gs.to_set().contains(g) || g == guid by {
                        if gs.contains(g) {
                            let j = choose|j: int| 0 <= j < gs.len() && gs[j] == g;
                            assert(gs.push(guid)[j] == g);
                        }
                        if g == guid {
                            assert(gs.push(guid)[gs.len() as int] == g);
                        }
                    }
                }
                assert(self@ =~= MapView {
                    heartbeats: was.heartbeats.remove_keys(guids_of(those(was.clients, now)).to_set()),
                    ..was.without_clients(now)
                });
            }
            i += 1;
        }
        assert(keys@.take(i as int) =~= keys@);
        self.forget_departed(&gone, Ghost(those(was.clients, keys@)));
        proof {
            lemma_without_clients(was, keys@);
            assert(self@ =~= was.departed(keys@));
        }
        Departure { clients, gone }
    }

    /// Everybody who is left stops showing those who are gone.
    fn forget_departed(&mut self, gone: &Vec<MapGuids>, Ghost(left): Ghost<Seq<ClientView>>)
        requires
            old(self).wf(),
            grouped(gone@, left),
        ensures
            final(self).wf(),
            old(self)@.index_is_live() ==> final(self)@.index_is_live(),
            final(self)@ == (MapView {
                clients: old(self)@.clients.map_values(|c: ClientView| forgetting(c, left)),
                ..old(self)@
            }),
    {
        let ghost was = self@;
        let keys = slabs::clients_keys(&self.clients);
        let mut i: usize = 0;
        while i < keys.len()
            invariant
                i <= keys.len(),
                self.wf(),
                old(self)@.index_is_live() ==> self@.index_is_live(),
                grouped(gone@, left),
                slabs::in_order(keys@, was.clients.dom()),
                self@ == (MapView { clients: self@.clients, ..was }),
                self@.clients.dom() == was.clients.dom(),
                forall|j: int| 0 <= j < i ==> self@.clients[#[trigger] keys@[j]] == forgetting(was.clients[keys@[j]], left),
                forall|j: int| i <= j < keys@.len() ==> self@.clients[#[trigger] keys@[j]] == was.clients[keys@[j]],
            decreases keys.len() - i,
        {
            let key: usize = keys[i];
            assert(keys@.contains(key));
            let ghost before = self@;
            match slabs::clients_get_mut(&mut self.clients, key) {
                Some(c) => {
                    let ghost cv = c@;
                    let map: u32 = c.character.map;
                    let mut g: usize = 0;
                    while g < gone.len() && gone[g].map != map
                        invariant
                            g <= gone.len(),
                            forall|j: int| 0 <= j < g ==> (#[trigger] gone@[j]).map != map,
                        decreases gone.len() - g,
                    {
                        g += 1;
                    }
                    if g < gone.len() {
                        forget_guids(c, &gone[g].guids);
                    } else {
                        proof {
                            if gone_from(left, map).len() > 0 {
                                assert(lists_map(gone@, map));
                            }
                            assert(minus(cv.visible, gone_from(left, map)) =~= cv.visible);
                        }
                    }
                    assert(c@ =~= forgetting(cv, left));
                },
                None => {},
            }
            proof {
                assert(self@.clients =~= before.clients.insert(key, forgetting(was.clients[key], left)));
                assert(self@.clients.dom() =~= was.clients.dom());
                assert(self@ =~= MapView { clients: self@.clients, ..was });
            }
            i += 1;
        }
        proof {
            assert forall|k: usize| was.clients.contains_key(k) implies #[trigger] self@.clients[k] == forgetting(
                was.clients[k],
                left,
            ) by {
                assert(keys@.contains(k));
                let j = choose|j: int| 0 <= j < keys@.len() && keys@[j] == k;
                assert(self@.clients[keys@[j]] == forgetting(was.clients[keys@[j]], left));
            }
            assert(self@.clients =~= was.clients.map_values(|c: ClientView| forgetting(c, left)));
        }
    }

    /// Take the clients off the map that are no longer on it: they went to
    /// another one.
    pub fn take_map_changers(&mut self, registry: &mut PlayerRegistry) -> (r: Vec<Client>)
        requires
            old(self).wf(),
            old(registry).wf(),
        ensures
            final(self).wf(),
            old(self)@.index_is_live() ==> final(self)@.index_is_live(),
            final(registry).wf(),
            final(self)@ == old(self)@.without_clients(old(self)@.strays()),
            views(r@) == those(old(self)@.clients, old(self)@.strays()),
            final(registry)@ == map_state::all_unregistered(
                old(registry)@,
                guids_of(those(old(self)@.clients, old(self)@.strays())),
            ),
    {
        let ghost was = self@;
        let ghost reg = registry@;
        let keys = slabs::clients_keys(&self.clients);
        proof {
            assert(slabs::clients(self.clients).dom() =~= was.clients.dom());
            slabs::ordered_is(keys@, was.clients.dom());
        }
        let ghost f = |k: usize| was.clients[k].character.map != was.map;
        let mut movers: Vec<usize> = Vec::new();
        let mut i: usize = 0;
        assert(keys@.take(0).filter(f) =~= Seq::<usize>::empty()) by {
            reveal(Seq::filter);
        }
        while i < keys.len()
            invariant
                i <= keys.len(),
                slabs::in_order(keys@, was.clients.dom()),
                self@ == was,
                f == (|k: usize| was.clients[k].character.map != was.map),
                movers@ == keys@.take(i as int).filter(f),
            decreases keys.len() - i,
        {
            let key: usize = keys[i];
            assert(keys@.contains(key));
            proof {
                reveal(Seq::filter);
                assert(keys@.take(i + 1).drop_last() =~= keys@.take(i as int));
            }
            assert(slabs::clients(self.clients)[key]@ == was.clients[key]);
            if let Some(c) = slabs::clients_get(&self.clients, key) {
                if c.character.map != self.map {
                    movers.push(key);
                }
            }
            i += 1;
        }
        proof {
            assert(keys@.take(i as int) =~= keys@);
            assert(movers@ == was.strays());
            lemma_filter_no_duplicates(keys@, f);
            assert forall|j: int| 0 <= j < movers@.len() implies was.clients.contains_key(#[trigger] movers@[j]) by {
                assert(keys@.contains(movers@[j]));
            }
        }
        let mut r: Vec<Client> = Vec::new();
        let mut n: usize = 0;
        proof {
            assert(views(r@) =~= those(was.clients, movers@.take(0)));
            assert(guids_of(those(was.clients, movers@.take(0))) =~= Seq::<u64>::empty());
        }
        while n < movers.len()
            invariant
                n <= movers.len(),
                self.wf(),
                old(self)@.index_is_live() ==> self@.index_is_live(),
                registry.wf(),
                movers@.no_duplicates(),
                forall|j: int| 0 <= j < movers@.len() ==> was.clients.contains_key(#[trigger] movers@[j]),
                self@ == was.without_clients(movers@.take(n as int)),
                views(r@) == those(was.clients, movers@.take(n as int)),
                registry@ == map_state::all_unregistered(reg, guids_of(those(was.clients, movers@.take(n as int)))),
            decreases movers.len() - n,
        {
            let key: usize = movers[n];
            let ghost init = movers@.take(n as int);
            let ghost left = those(was.clients, init);
            proof {
                assert forall|j: int| 0 <= j < init.len() implies was.clients.contains_key(#[trigger] init[j]) by {
                    assert(init[j] == movers@[j]);
                }
                lemma_without_clients(was, init);
                assert(!init.contains(key)) by {
                    if init.contains(key) {
                        let j = choose|j: int| 0 <= j < init.len() && init[j] == key;
                        assert(movers@[j] == key);
                    }
                }
            }
            let c = self.remove_client(key, registry);
            let ghost cv = c@;
            r.push(c);
            proof {
                let now = movers@.take(n + 1);
                assert(now.drop_last() =~= init);
                assert(those(was.clients, now) =~= left.push(cv));
                assert(views(r@) =~= those(was.clients, now));
                assert(guids_of(left.push(cv)).drop_last() =~= guids_of(left));
            }
            n += 1;
        }
        assert(movers@.take(n as int) =~= movers@);
        r
    }
}

proof fn lemma_filter_no_duplicates(s: Seq<usize>, f: spec_fn(usize) -> bool)
    requires
        forall|i: int, j: int| 0 <= i < j < s.len() ==> s[i] < s[j],
    ensures
        s.filter(f).no_duplicates(),
        forall|i: int| 0 <= i < s.filter(f).len() ==> s.contains(#[trigger] s.filter(f)[i]),
    decreases s.len(),
{
    reveal(Seq::filter);
    if s.len() > 0 {
        let init = s.drop_last();
        lemma_filter_no_duplicates(init, f);
        assert forall|i: int| 0 <= i < init.filter(f).len() implies s.contains(#[trigger] init.filter(f)[i])
            && init.filter(f)[i] != s.last() by {
            assert(init.contains(init.filter(f)[i]));
            let j = choose|j: int| 0 <= j < init.len() && init[j] == init.filter(f)[i];
            assert(s[j] == init.filter(f)[i]);
        }
        assert(s.contains(s.last()));
    }
}

/// The number under which the wire has the heartbeat of a moving player.
pub const MSG_MOVE_HEARTBEAT: u16 = 0xee;

/// Whether a movement is held back: a heartbeat that comes before `ratio` ticks
/// have passed since others were last told of the player.
pub open spec fn held_back(m: PendingMovement, last: u64, tick: u64, ratio: u64) -> bool {
    m.opcode == MSG_MOVE_HEARTBEAT && ratio > 1 && (if tick >= last {
        tick - last
    } else {
        0
    }) < ratio
}

/// The movements that others are told of.
pub struct Flush {
    pub broadcasts: Vec<(u64, PendingMovement)>,
    pub throttled: usize,
}

impl MapView {
    /// The tick in which others were last told of the player.
    pub open spec fn last_heartbeat(self, guid: u64) -> u64 {
        if self.heartbeats.contains_key(guid) {
            self.heartbeats[guid]
        } else {
            0
        }
    }

    /// The players others are told of in this tick.
    pub open spec fn told_of(self, ratio: u64) -> Set<u64> {
        self.pending.dom().filter(
            |g: u64| !held_back(self.pending[g], self.last_heartbeat(g), self.tick_counter, ratio),
        )
    }
}

impl MapState {
    /// Hand out the movements that others are to be told of, at most one for
    /// each player. With a ratio above one, heartbeats are thinned out; starts
    /// and stops are not.
    pub fn flush_movement_broadcasts(&mut self, heartbeat_skip_ratio: u64) -> (r: Flush)
        requires
            old(self).wf(),
        ensures
            final(self).wf(),
            old(self)@.index_is_live() ==> final(self)@.index_is_live(),
            tables::lists(keyed::keys_of(r.broadcasts@), old(self)@.told_of(heartbeat_skip_ratio)),
            forall|i: int| 0 <= i < r.broadcasts@.len() ==> (#[trigger] r.broadcasts@[i]).1 == old(
                self,
            )@.pending[r.broadcasts@[i].0],
            r.throttled + r.broadcasts@.len() == old(self)@.pending.dom().len(),
            final(self)@ == (MapView {
                pending: Map::empty(),
                heartbeats: Map::new(
                    |g: u64|
                        old(self)@.heartbeats.contains_key(g) || old(self)@.told_of(heartbeat_skip_ratio).contains(g),
                    |g: u64|
                        if old(self)@.told_of(heartbeat_skip_ratio).contains(g) {
                            old(self)@.tick_counter
                        } else {
                            old(self)@.heartbeats[g]
                        },
                ),
                ..old(self)@
            }),
    {
        let ghost was = self@;
        let ghost ratio = heartbeat_skip_ratio;
        let all = self.pending_movement.drain();
        let ghost ks = keyed::keys_of(all@);
        proof {
            ks.unique_seq_to_set();
            assert(ks.to_set() =~= was.pending.dom());
        }
        let mut broadcasts: Vec<(u64, PendingMovement)> = Vec::new();
        let mut throttled: usize = 0;
        let mut i: usize = 0;
        while i < all.len()
            invariant
                i <= all.len(),
                self.wf(),
                ks == keyed::keys_of(all@),
                tables::lists(ks, was.pending.dom()),
                ratio == heartbeat_skip_ratio,
                forall|j: int| 0 <= j < all@.len() ==> (#[trigger] all@[j]).1 == was.pending[all@[j].0],
                throttled + broadcasts@.len() == i,
                tables::lists(
                    keyed::keys_of(broadcasts@),
                    ks.take(i as int).to_set().intersect(was.told_of(ratio)),
                ),
                forall|j: int| 0 <= j < broadcasts@.len() ==> (#[trigger] broadcasts@[j]).1
                    == was.pending[broadcasts@[j].0],
                self@ == (MapView { pending: Map::empty(), heartbeats: self@.heartbeats, ..was }),
                forall|g: u64| #[trigger] self@.heartbeats.contains_key(g) <==> was.heartbeats.contains_key(g) || (
                ks.take(i as int).contains(g) && was.told_of(ratio).contains(g)),
                forall|g: u64| #[trigger] self@.heartbeats.contains_key(g) ==> self@.heartbeats[g] == (if ks.take(
                    i as int,
                ).contains(g) && was.told_of(ratio).contains(g) {
                    was.tick_counter
                } else {
                    was.heartbeats[g]
                }),
            decreases all.len() - i,
        {
            let (guid, m): (u64, PendingMovement) = all[i];
            proof {
                assert(ks[i as int] == guid);
                assert(ks.contains(guid));
                assert(!ks.take(i as int).contains(guid)) by {
                    if ks.take(i as int).contains(guid) {
                        let j = choose|j: int| 0 <= j < i && ks.take(i as int)[j] == guid;
                        assert(ks[j] == guid);
                    }
                }
                let a = ks.take(i as int);
                let b = ks.take(i + 1);
                assert forall|g: u64| #[trigger] b.contains(g) <==> a.contains(g) || g == guid by {
                    if a.contains(g) {
                        let j = choose|j: int| 0 <= j < a.len() && a[j] == g;
                        assert(b[j] == g);
                    }
                    if g == guid {
                        assert(b[i as int] == g);
                    }
                    if b.contains(g) && g != guid {
                        let j = choose|j: int| 0 <= j < b.len() && b[j] == g;
                        assert(a[j] == g);
                    }
                }
            }
            let ghost before = keyed::keys_of(broadcasts@);
            let mut hold: bool = false;
            if m.opcode == MSG_MOVE_HEARTBEAT && heartbeat_skip_ratio > 1 {
                let last: u64 = match tables::numbers_get(&self.last_heartbeat_broadcast_tick, guid) {
                    Some(t) => t,
                    None => 0,
                };
                assert(last == was.last_heartbeat(guid));
                if self.tick_counter.saturating_sub(last) < heartbeat_skip_ratio {
                    hold = true;
                }
            }
            assert(hold == held_back(m, was.last_heartbeat(guid), was.tick_counter, ratio));
            if hold {
                throttled += 1;
            } else {
                broadcasts.push((guid, m));
                let ghost prior = self@;
                tables::numbers_insert(&mut self.last_heartbeat_broadcast_tick, guid, self.tick_counter);
                proof {
                    map_state::who_is_indexed_stays_indexed(prior, self@);
                    let after = keyed::keys_of(broadcasts@);
                    assert(after =~= before.push(guid));
                    assert(!before.contains(guid));
                    assert forall|g: u64| #[trigger] after.contains(g) <==> before.contains(g) || g == guid by {
                        if before.contains(g) {
                            let j = choose|j: int| 0 <= j < before.len() && before[j] == g;
                            assert(after[j] == g);
                        }
                        if g == guid {
                            assert(after[before.len() as int] == g);
                        }
                    }
                }
            }
            i += 1;
        }
        proof {
            assert(ks.take(i as int) =~= ks);
            let told = was.told_of(ratio);
            assert forall|g: u64| told.contains(g) implies ks.contains(g) by {}
            assert forall|g: u64| #[trigger] keyed::keys_of(broadcasts@).contains(g) <==> told.contains(g) by {}
            assert(self@.heartbeats =~= Map::new(
                |g: u64| was.heartbeats.contains_key(g) || told.contains(g),
                |g: u64|
                    if told.contains(g) {
                        was.tick_counter
                    } else {
                        was.heartbeats[g]
                    },
            ));
        }
        Flush { broadcasts, throttled }
    }
}

pub(crate) proof fn lemma_without(v: MapView, keys: Seq<usize>, k: usize, g: u64)
    requires
        keys.no_duplicates(),
        forall|i: int| 0 <= i < keys.len() ==> v.clients.contains_key(#[trigger] keys[i]),
    ensures
        ({
            let w = v.without_clients(keys);
            &&& w.clients.contains_key(k) <==> v.clients.contains_key(k) && !keys.contains(k)
            &&& w.client_cells.contains_key(k) <==> v.client_cells.contains_key(k) && !keys.contains(k)
            &&& w.client_cells.contains_key(k) ==> w.client_cells[k] == v.client_cells[k]
            &&& w.clients.contains_key(k) ==> w.clients[k] == v.clients[k]
            &&& w.client_keys.contains_key(g) <==> v.client_keys.contains_key(g) && forall|i: int|
                0 <= i < keys.len() ==> v.clients[#[trigger] keys[i]].character.guid != g
            &&& w.client_keys.contains_key(g) ==> w.client_keys[g] == v.client_keys[g]
            &&& w == (MapView {
                clients: w.clients,
                client_cells: w.client_cells,
                client_keys: w.client_keys,
                ..v
            })
        }),
    decreases keys.len(),
{
    if keys.len() > 0 {
        let init = keys.drop_last();
        let l = keys.last();
        assert(keys =~= init.push(l));
        assert forall|i: int| 0 <= i < init.len() implies v.clients.contains_key(#[trigger] init[i]) by {
            assert(init[i] == keys[i]);
        }
        assert(init.no_duplicates());
        if init.contains(l) {
            let j = choose|j: int| 0 <= j < init.len() && init[j] == l;
            assert(keys[j] == keys[keys.len() - 1]);
        }
        lemma_without(v, init, k, g);
        lemma_without(v, init, l, g);
        crate::aoi::lemma_push_contains(init, l, k);
        assert(keys[keys.len() - 1] == l);
        assert(v.clients.contains_key(l));
        if forall|i: int| 0 <= i < keys.len() ==> v.clients[#[trigger] keys[i]].character.guid != g {
            assert forall|i: int| 0 <= i < init.len() implies v.clients[#[trigger] init[i]].character.guid != g by {
                assert(init[i] == keys[i]);
            }
        } else if forall|i: int| 0 <= i < init.len() ==> v.clients[#[trigger] init[i]].character.guid != g {
            let i = choose|i: int| 0 <= i < keys.len() && v.clients[#[trigger] keys[i]].character.guid == g;
            if i < init.len() {
                assert(init[i] == keys[i]);
            }
            assert(keys[i] == l);
        }
    }
}

proof fn lemma_gone(s: Seq<ClientView>, map: u32, g: u64)
    ensures
        gone_from(s, map).contains(g) <==> exists|i: int|
            0 <= i < s.len() && (#[trigger] s[i]).character.map == map && s[i].character.guid == g,
    decreases s.len(),
{
    if s.len() > 0 {
        let init = s.drop_last();
        lemma_gone(init, map, g);
        assert(s[s.len() - 1] == s.last());
        crate::aoi::lemma_push_contains(gone_from(init, map), s.last().character.guid, g);
        if gone_from(init, map).contains(g) {
            let i = choose|i: int|
                0 <= i < init.len() && (#[trigger] init[i]).character.map == map && init[i].character.guid == g;
            assert(s[i] == init[i]);
        }
        if exists|i: int| 0 <= i < s.len() && (#[trigger] s[i]).character.map == map && s[i].character.guid == g {
            let i = choose|i: int|
                0 <= i < s.len() && (#[trigger] s[i]).character.map == map && s[i].character.guid == g;
            if i < init.len() {
                assert(init[i] == s[i]);
            }
        }
    }
}

pub(crate) proof fn lemma_unregistered(r: RegistryView, guids: Seq<u64>, g: u64)
    ensures
        ({
            let after = map_state::all_unregistered(r, guids);
            &&& after.players.contains_key(g) <==> r.players.contains_key(g) && !guids.contains(g)
            &&& after.players.contains_key(g) ==> after.players[g] == r.players[g]
        }),
    decreases guids.len(),
{
    if guids.len() > 0 {
        let init = guids.drop_last();
        lemma_unregistered(r, init, g);
        assert(guids =~= init.push(guids.last()));
        crate::aoi::lemma_push_contains(init, guids.last(), g);
    }
}

/// Whoever logs out is handed out as they were, and is found nowhere on the map: not among
/// the clients, not by guid, in no cell, not in the register of players, and not in the
/// throttle of movements. Everybody on the map that they were on is told of it.
pub proof fn who_logs_out_is_gone(
    m: &mut MapState,
    keys: &Vec<usize>,
    registry: &mut PlayerRegistry,
    r: Departure,
    i: int,
)
    requires
        old(m).wf(),
        old(registry).wf(),
        keys@.no_duplicates(),
        forall|i: int| 0 <= i < keys@.len() ==> old(m)@.clients.contains_key(#[trigger] keys@[i]),
        call_ensures(MapState::drain_logouts, (m, keys, registry), r),
        0 <= i < keys@.len(),
    ensures
        r.clients@.len() == keys@.len(),
        r.clients@[i]@ == old(m)@.clients[keys@[i]],
        !final(m)@.clients.contains_key(keys@[i]),
        !final(m)@.client_cells.contains_key(keys@[i]),
        ({
            let c = old(m)@.clients[keys@[i]].character;
            &&& !final(m)@.client_keys.contains_key(c.guid)
            &&& !final(m)@.heartbeats.contains_key(c.guid)
            &&& final(registry)@.by_guid(c.guid) is None
            &&& exists|j: int|
                0 <= j < r.gone@.len() && (#[trigger] r.gone@[j]).map == c.map && r.gone@[j].guids@.contains(c.guid)
        }),
{
    let left = those(old(m)@.clients, keys@);
    let c = old(m)@.clients[keys@[i]].character;
    assert(keys@.contains(keys@[i]));
    lemma_without(old(m)@, keys@, keys@[i], c.guid);
    assert(views(r.clients@).len() == r.clients@.len());
    assert(views(r.clients@)[i] == r.clients@[i]@);
    assert(left[i].character == c);
    assert(guids_of(left)[i] == c.guid);
    assert(guids_of(left).contains(c.guid));
    assert(guids_of(left).to_set().contains(c.guid));
    lemma_unregistered(old(registry)@, guids_of(left), c.guid);
    lemma_gone(left, c.map, c.guid);
    assert(gone_from(left, c.map).contains(c.guid));
    assert(gone_from(left, c.map).len() > 0);
    assert(lists_map(r.gone@, c.map));
    let j = choose|j: int| 0 <= j < r.gone@.len() && (#[trigger] r.gone@[j]).map == c.map;
    assert(r.gone@[j].guids@.contains(c.guid));
}

/// Whoever stays, stays as they were, but that they no longer show those who left the map
/// that they are on. Nobody is said to be gone who did not leave.
pub proof fn who_does_not_log_out_stays(
    m: &mut MapState,
    keys: &Vec<usize>,
    registry: &mut PlayerRegistry,
    r: Departure,
    k: usize,
    g: u64,
    j: int,
)
    requires
        old(m).wf(),
        old(registry).wf(),
        keys@.no_duplicates(),
        forall|i: int| 0 <= i < keys@.len() ==> old(m)@.clients.contains_key(#[trigger] keys@[i]),
        call_ensures(MapState::drain_logouts, (m, keys, registry), r),
        old(m)@.clients.contains_key(k),
        !keys@.contains(k),
    ensures
        final(m)@.clients.contains_key(k),
        final(m)@.clients[k] == (ClientView { visible: final(m)@.clients[k].visible, ..old(m)@.clients[k] }),
        final(m)@.clients[k].visible.contains(g) <==> old(m)@.clients[k].visible.contains(g) && !exists|i: int|
            0 <= i < keys@.len() && old(m)@.clients[#[trigger] keys@[i]].character.guid == g && old(m)@.clients[keys@[i]].character.map == old(m)@.clients[k].character.map,
        0 <= j < r.gone@.len() && r.gone@[j].guids@.contains(g) ==> exists|i: int|
            0 <= i < keys@.len() && old(m)@.clients[#[trigger] keys@[i]].character.guid == g && old(m)@.clients[keys@[i]].character.map == r.gone@[j].map,
        (forall|i: int| 0 <= i < keys@.len() ==> old(m)@.clients[#[trigger] keys@[i]].character.guid != g) ==> final(registry)@.by_guid(g) == old(registry)@.by_guid(g) && (final(m)@.heartbeats.contains_key(g) <==> old(m)@.heartbeats.contains_key(g)),
        final(m)@.creatures == old(m)@.creatures,
{
    let v = old(m)@;
    let left = those(v.clients, keys@);
    lemma_without(v, keys@, k, g);
    let mine = v.clients[k].character.map;
    lemma_gone(left, mine, g);
    assert forall|i: int| 0 <= i < left.len() implies #[trigger] left[i] == v.clients[keys@[i]] by {}
    if gone_from(left, mine).contains(g) {
        let i = choose|i: int|
            0 <= i < left.len() && (#[trigger] left[i]).character.map == mine && left[i].character.guid == g;
        assert(v.clients[keys@[i]].character.guid == g);
    }
    if exists|i: int|
        0 <= i < keys@.len() && v.clients[#[trigger] keys@[i]].character.guid == g
            && v.clients[keys@[i]].character.map == mine {
        let i = choose|i: int|
            0 <= i < keys@.len() && v.clients[#[trigger] keys@[i]].character.guid == g
                && v.clients[keys@[i]].character.map == mine;
        assert(left[i].character.guid == g);
    }
    if 0 <= j < r.gone@.len() && r.gone@[j].guids@.contains(g) {
        let map = r.gone@[j].map;
        lemma_gone(left, map, g);
        let i = choose|i: int|
            0 <= i < left.len() && (#[trigger] left[i]).character.map == map && left[i].character.guid == g;
        assert(v.clients[keys@[i]].character.guid == g);
    }
    if forall|i: int| 0 <= i < keys@.len() ==> v.clients[#[trigger] keys@[i]].character.guid != g {
        let guids = guids_of(left);
        if guids.contains(g) {
            let i = choose|i: int| 0 <= i < guids.len() && guids[i] == g;
            assert(v.clients[keys@[i]].character.guid == g);
        }
        lemma_unregistered(old(registry)@, guids, g);
    }
}

proof fn lemma_filtered(s: Seq<usize>, f: spec_fn(usize) -> bool, k: usize)
    ensures
        s.filter(f).contains(k) <==> s.contains(k) && f(k),
        s.no_duplicates() ==> s.filter(f).no_duplicates(),
    decreases s.len(),
{
    reveal(Seq::filter);
    if s.len() > 0 {
        let init = s.drop_last();
        lemma_filtered(init, f, k);
        lemma_filtered(init, f, s.last());
        assert(s =~= init.push(s.last()));
        crate::aoi::lemma_push_contains(init, s.last(), k);
        crate::aoi::lemma_push_contains(init.filter(f), s.last(), k);
        if s.no_duplicates() {
            assert(init.no_duplicates());
            if init.contains(s.last()) {
                let j = choose|j: int| 0 <= j < init.len() && init[j] == s.last();
                assert(s[j] == s[s.len() - 1]);
            }
        }
    }
}

/// Whoever is on a map that is not this one leaves, and is handed out as they were;
/// everybody else stays as they are.
pub proof fn who_changes_maps_leaves(m: &mut MapState, registry: &mut PlayerRegistry, r: Vec<Client>, k: usize)
    requires
        old(m).wf(),
        old(registry).wf(),
        call_ensures(MapState::take_map_changers, (m, registry), r),
        old(m)@.clients.contains_key(k),
    ensures
        ({
            let c = old(m)@.clients[k];
            &&& c.character.map == old(m)@.map ==> final(m)@.clients.contains_key(k) && final(m)@.clients[k] == c
            &&& c.character.map != old(m)@.map ==> !final(m)@.clients.contains_key(k) && !final(m)@.client_cells.contains_key(k) && !final(m)@.client_keys.contains_key(c.character.guid) && final(registry)@.by_guid(c.character.guid) is None && exists|i: int| 0 <= i < r@.len() && (#[trigger] r@[i])@ == c
        }),
        final(m)@.creatures == old(m)@.creatures,
        final(m)@.map == old(m)@.map,
        forall|i: int| 0 <= i < r@.len() ==> (#[trigger] r@[i])@.character.map != old(m)@.map,
{
    let v = old(m)@;
    let all = slabs::ordered(v.clients.dom());
    map_state::clients_are_in_order(*old(m));
    let f = |k: usize| v.clients[k].character.map != v.map;
    let keys = v.strays();
    lemma_filtered(all, f, k);
    assert(keys == all.filter(f));
    assert forall|i: int| 0 <= i < keys.len() implies v.clients.contains_key(#[trigger] keys[i])
        && v.clients[keys[i]].character.map != v.map by {
        lemma_filtered(all, f, keys[i]);
        assert(keys.contains(keys[i]));
    }
    let c = v.clients[k];
    lemma_without(v, keys, k, c.character.guid);
    let left = those(v.clients, keys);
    assert(views(r@) == left);
    assert(views(r@).len() == r@.len());
    assert forall|i: int| 0 <= i < r@.len() implies (#[trigger] r@[i])@ == v.clients[keys[i]] by {
        assert(views(r@)[i] == r@[i]@);
        assert(left[i] == v.clients[keys[i]]);
    }
    if c.character.map != v.map {
        assert(all.contains(k));
        assert(keys.contains(k));
        let i = choose|i: int| 0 <= i < keys.len() && keys[i] == k;
        assert(r@[i]@ == c);
        assert(guids_of(left)[i] == c.character.guid);
        assert(guids_of(left).contains(c.character.guid));
        lemma_unregistered(old(registry)@, guids_of(left), c.character.guid);
    }
}

/// Others are told of a movement unless it is a heartbeat that comes before as many ticks as
/// the ratio says have passed since they were last told of the player. What is told is the
/// movement that was waiting; none waits any more, and for whom others were told of that is
/// kept with the tick.
pub proof fn movements_are_told_in_time(m: &mut MapState, ratio: u64, r: Flush, g: u64)
    requires
        old(m).wf(),
        call_ensures(MapState::flush_movement_broadcasts, (m, ratio), r),
        old(m)@.pending.contains_key(g),
    ensures
        ({
            let p = old(m)@.pending[g];
            let last: u64 = if old(m)@.heartbeats.contains_key(g) {
                old(m)@.heartbeats[g]
            } else {
                0
            };
            let told = exists|i: int| 0 <= i < r.broadcasts@.len() && #[trigger] r.broadcasts@[i] == (g, p);
            &&& p.opcode != 0xee ==> told
            &&& ratio <= 1 ==> told
            &&& last + ratio <= old(m)@.tick_counter ==> told
            &&& p.opcode == 0xee && ratio > 1 && last + ratio > old(m)@.tick_counter ==> !told
            &&& told ==> final(m)@.heartbeats.contains_key(g) && final(m)@.heartbeats[g] == old(m)@.tick_counter
            &&& !told ==> (final(m)@.heartbeats.contains_key(g) <==> old(m)@.heartbeats.contains_key(g)) && (old(m)@.heartbeats.contains_key(g) ==> final(m)@.heartbeats[g] == old(m)@.heartbeats[g])
        }),
        final(m)@.pending.dom() =~= Set::<u64>::empty(),
        r.throttled + r.broadcasts@.len() == old(m)@.pending.dom().len(),
        final(m)@.clients == old(m)@.clients && final(m)@.creatures == old(m)@.creatures && final(m)@.tick_counter
            == old(m)@.tick_counter,
{
    let v = old(m)@;
    let ks = keyed::keys_of(r.broadcasts@);
    let p = v.pending[g];
    assert(ks.contains(g) <==> v.told_of(ratio).contains(g));
    if ks.contains(g) {
        let i = choose|i: int| 0 <= i < ks.len() && ks[i] == g;
        assert(r.broadcasts@[i].0 == g);
        assert(r.broadcasts@[i] == (g, p));
    }
    if exists|i: int| 0 <= i < r.broadcasts@.len() && #[trigger] r.broadcasts@[i] == (g, p) {
        let i = choose|i: int| 0 <= i < r.broadcasts@.len() && #[trigger] r.broadcasts@[i] == (g, p);
        assert(ks[i] == g);
    }
}

} // verus!

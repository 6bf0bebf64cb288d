//! The world: its maps, who is on the character screen, and what a tick of the
//! whole does.
use crate::cell;
use crate::cell::{PacerStates, PlayerRegistry, RegistryView};
use crate::character_screen::{CharacterScreenClient, CharacterScreenProgress};
use crate::client::{Client, ClientView};
use crate::config::TickConfig;
use crate::creature::Creature;
use crate::database::{DbView, WorldDatabase};
use crate::departures;
use crate::keyed::KeyedTable;
use crate::map_state;
use crate::map_state::{MapState, MapView};
use crate::slabs;
use crate::tables;
use crate::tick;
use crate::tick::Census;
use vstd::prelude::*;

verus! {

pub struct World {
    /// The maps, by number.
    pub maps: KeyedTable<MapState>,
    pub clients_on_character_screen: Vec<CharacterScreenClient>,
    pub db: WorldDatabase,
    pub registry: PlayerRegistry,
    pub pacers: PacerStates,
    /// How many packets had gone out when they were last counted.
    pub last_packet_sample: u64,
}

impl World {
    /// Every map is sound and stands under its number.
    pub open spec fn wf(&self) -> bool {
        &&& self.maps.wf()
        &&& self.db.wf()
        &&& self.registry.wf()
        &&& self.pacers.wf()
        &&& forall|m: u64| #[trigger]
            self.maps@.contains_key(m) ==> self.maps@[m].wf() && self.maps@[m]@.map == m
    }

    /// On no map is anybody held out.
    pub open spec fn is_live(&self) -> bool {
        forall|m: u64| #[trigger] self.maps@.contains_key(m) ==> self.maps@[m]@.index_is_live()
    }

    /// What there is on a map.
    pub open spec fn on_map(&self, m: u64) -> MapView {
        self.maps@[m]@
    }
}

/// Whether `m` is a map with nobody on it.
pub open spec fn is_empty_map(m: MapState, map: u32, tick: TickConfig) -> bool {
    call_ensures(MapState::new_empty, (map, &tick), m)
}

/// Whether `maps` holds what `was` held, and the map `map`: an empty one, if it
/// was not there.
pub open spec fn with_map(maps: Map<u64, MapState>, was: Map<u64, MapState>, map: u32, tick: TickConfig) -> bool {
    if was.contains_key(map as u64) {
        maps == was
    } else {
        &&& maps.contains_key(map as u64)
        &&& is_empty_map(maps[map as u64], map, tick)
        &&& maps == was.insert(map as u64, maps[map as u64])
    }
}

impl World {
    /// Have the map `map`, empty if it was not there yet.
    pub fn ensure_map_exists(&mut self, map: u32, tick: &TickConfig)
        requires
            old(self).wf(),
        ensures
            final(self).wf(),
            old(self).is_live() ==> final(self).is_live(),
            with_map(final(self).maps@, old(self).maps@, map, *tick),
            *final(self) == (World { maps: final(self).maps, ..*old(self) }),
    {
        if !self.maps.contains_key(map as u64) {
            let state = MapState::new_empty(map, tick);
            let ghost fresh = state;
            self.maps.insert(map as u64, state);
            proof {
                assert forall|m: u64| #[trigger] self.maps@.contains_key(m) implies self.maps@[m].wf()
                    && self.maps@[m]@.map == m by {
                    if m != map as u64 {
                        assert(old(self).maps@.contains_key(m));
                    }
                }
                assert(is_empty_map(fresh, map, *tick));
                assert(self.maps@ =~= old(self).maps@.insert(map as u64, self.maps@[map as u64]));
            }
        }
    }

    /// Let a client onto the map that its character is on.
    pub fn admit_client_at_position(&mut self, client: Client, tick: &TickConfig) -> (key: usize)
        requires
            old(self).wf(),
        ensures
            final(self).wf(),
            old(self).is_live() ==> final(self).is_live(),
            *final(self) == (World { maps: final(self).maps, registry: final(self).registry, ..*old(self) }),
            final(self).registry@ == old(self).registry@.registered(map_state::register_entry(client@.character)),
            admitted(final(self).maps@, old(self).maps@, client@, key, *tick),
    {
        let map: u32 = client.character.map;
        let ghost who = client@;
        self.ensure_map_exists(map, tick);
        let ghost mid = self.maps@;
        let mut key: usize = 0;
        match self.maps.get_mut(map as u64) {
            Some(state) => {
                key = state.insert_client(client, &mut self.registry);
            },
            None => {
                assert(false);
            },
        }
        proof {
            let m = map as u64;
            assert(self.maps@ == mid.insert(m, self.maps@[m]));
            assert forall|n: u64| #[trigger] self.maps@.contains_key(n) implies self.maps@[n].wf() && self.maps@[n]@.map
                == n by {
                if n != m {
                    assert(mid.contains_key(n));
                }
            }
            assert(with_map(mid, old(self).maps@, map, *tick));
        }
        key
    }
}

/// Whether `maps` is `was` with the client `c` on its map, under `key`.
pub open spec fn admitted(
    maps: Map<u64, MapState>,
    was: Map<u64, MapState>,
    c: ClientView,
    key: usize,
    tick: TickConfig,
) -> bool {
    let m = c.character.map as u64;
    exists|mid: Map<u64, MapState>| #[trigger]
        with_map(mid, was, c.character.map, tick) && maps.contains_key(m) && maps == mid.insert(m, maps[m])
            && !mid[m]@.clients.contains_key(key) && maps[m]@ == mid[m]@.client_inserted(key, c)
}

/// Whether they wait to enter the world.
pub open spec fn waits(c: CharacterScreenClient) -> bool {
    c.status is WaitingToLogIn
}

/// The first at or behind `from` who waits to enter the world.
pub open spec fn first_waiting(s: Seq<CharacterScreenClient>, from: int) -> Option<int>
    decreases s.len() - from,
{
    if from >= s.len() {
        None
    } else if waits(s[from]) {
        Some(from)
    } else {
        first_waiting(s, from + 1)
    }
}

fn find_waiting(s: &Vec<CharacterScreenClient>) -> (r: Option<usize>)
    ensures
        match r {
            Some(i) => first_waiting(s@, 0) == Some(i as int) && i < s@.len() && waits(s@[i as int]),
            None => first_waiting(s@, 0) is None,
        },
{
    let mut i: usize = 0;
    while i < s.len()
        invariant
            i <= s@.len(),
            first_waiting(s@, 0) == first_waiting(s@, i as int),
        decreases s.len() - i,
    {
        if let CharacterScreenProgress::WaitingToLogIn(_) = s[i].status {
            return Some(i);
        }
        i += 1;
    }
    None
}

/// What became of somebody whose turn it was to enter the world.
pub enum Promotion {
    /// There is no such character; the connection is dropped.
    Dropped { account_name: String, guid: u64 },
    Ready(Client),
}

/// Somebody who left the character screen, and from which place on it.
pub struct Turn {
    pub at: usize,
    pub what: Promotion,
}

/// Whether the character is there that they wait with.
pub open spec fn has_character(db: DbView, c: CharacterScreenClient) -> bool {
    db.by_guid(c.status->WaitingToLogIn_0) is Some
}

/// Whether `what` becomes of `c`, who waits.
pub open spec fn is_promotion(what: Promotion, c: CharacterScreenClient, db: DbView) -> bool {
    let guid = c.status->WaitingToLogIn_0;
    match db.by_guid(guid) {
        Some(character) => what matches Promotion::Ready(client) && client@ == (ClientView {
            account_name: c.account_name@,
            in_process_of_teleport: false,
            visible: Set::empty(),
            transitions: Map::empty(),
            character,
        }),
        None => what == (Promotion::Dropped { account_name: c.account_name, guid }),
    }
}

/// Whether another may leave the character screen, once `promoted` have entered the
/// world. Zero is no limit.
pub open spec fn may_go_on(promoted: int, max: int) -> bool {
    max == 0 || promoted < max
}

/// How many have entered the world, once it was the turn of `c`.
pub open spec fn counted(promoted: int, c: CharacterScreenClient, db: DbView) -> int {
    if has_character(db, c) {
        promoted + 1
    } else {
        promoted
    }
}

/// Those who leave the character screen, one after the other, each with the place
/// that they leave: as long as another may, the first who waits does.
pub open spec fn leaving(db: DbView, s: Seq<CharacterScreenClient>, promoted: int, max: int) -> Seq<
    (int, CharacterScreenClient),
>
    decreases s.len(),
{
    match first_waiting(s, 0) {
        Some(i) if may_go_on(promoted, max) => {
            proof {
                the_first_who_waits_enters_first(s, 0, 0);
            }
            seq![(i, s[i])] + leaving(db, s.remove(i), counted(promoted, s[i], db), max)
        },
        _ => Seq::empty(),
    }
}

/// Those who are still on the character screen when the others have left.
pub open spec fn staying(db: DbView, s: Seq<CharacterScreenClient>, promoted: int, max: int) -> Seq<
    CharacterScreenClient,
>
    decreases s.len(),
{
    match first_waiting(s, 0) {
        Some(i) if may_go_on(promoted, max) => {
            proof {
                the_first_who_waits_enters_first(s, 0, 0);
            }
            staying(db, s.remove(i), counted(promoted, s[i], db), max)
        },
        _ => s,
    }
}

/// Whether the turns are those of `who`, in that order.
pub open spec fn are_turns(turns: Seq<Turn>, who: Seq<(int, CharacterScreenClient)>, db: DbView) -> bool {
    &&& turns.len() == who.len()
    &&& forall|k: int|
        0 <= k < who.len() ==> (#[trigger] turns[k]).at == who[k].0 && is_promotion(turns[k].what, who[k].1, db)
}

impl World {
    /// Take the next who waits off the character screen, to let them into the
    /// world. No more than `max` enter in a tick; zero is no limit.
    pub fn next_promotion(&mut self, promoted: u32, max: u32) -> (r: Option<Turn>)
        requires
            old(self).wf(),
        ensures
            final(self).wf(),
            ({
                let screen = old(self).clients_on_character_screen@;
                match first_waiting(screen, 0) {
                    Some(i) if may_go_on(promoted as int, max as int) => {
                        &&& final(self).clients_on_character_screen@ == screen.remove(i)
                        &&& r matches Some(t) && t.at == i && is_promotion(t.what, screen[i], old(self).db@)
                    },
                    _ => r is None && final(self).clients_on_character_screen@ == screen,
                }
            }),
            *final(self) == (World {
                clients_on_character_screen: final(self).clients_on_character_screen,
                ..*old(self)
            }),
    {
        if max > 0 && promoted >= max {
            return None;
        }
        let at: usize = match find_waiting(&self.clients_on_character_screen) {
            Some(i) => i,
            None => {
                return None;
            },
        };
        let c = self.clients_on_character_screen.remove(at);
        match c.status {
            CharacterScreenProgress::WaitingToLogIn(guid) => match self.db.get_character_by_guid(guid) {
                Some(character) => Some(Turn { at, what: Promotion::Ready(c.into_client(character)) }),
                None => Some(Turn { at, what: Promotion::Dropped { account_name: c.account_name, guid } }),
            },
            _ => None,
        }
    }

    /// Take everybody off the character screen who enters the world in this tick:
    /// those who wait, in order, until `max` have entered. Whoever has no character
    /// is dropped and does not count; zero is no limit.
    pub fn promote(&mut self, max: u32) -> (r: Vec<Turn>)
        requires
            old(self).wf(),
        ensures
            final(self).wf(),
            final(self).clients_on_character_screen@ == staying(
                old(self).db@,
                old(self).clients_on_character_screen@,
                0,
                max as int,
            ),
            are_turns(
                r@,
                leaving(old(self).db@, old(self).clients_on_character_screen@, 0, max as int),
                old(self).db@,
            ),
            *final(self) == (World {
                clients_on_character_screen: final(self).clients_on_character_screen,
                ..*old(self)
            }),
    {
        let ghost db = self.db@;
        let ghost all = self.clients_on_character_screen@;
        let mut r: Vec<Turn> = Vec::new();
        let mut promoted: u32 = 0;
        let ghost mut entered: int = 0;
        let ghost mut gone: Seq<(int, CharacterScreenClient)> = Seq::empty();
        assert(gone + leaving(db, all, 0, max as int) =~= leaving(db, all, 0, max as int));
        loop
            invariant
                self.wf(),
                db == old(self).db@,
                all == old(self).clients_on_character_screen@,
                *self == (World { clients_on_character_screen: self.clients_on_character_screen, ..*old(self) }),
                max > 0 ==> promoted == entered && promoted <= max,
                gone + leaving(db, self.clients_on_character_screen@, entered, max as int) == leaving(
                    db,
                    all,
                    0,
                    max as int,
                ),
                staying(db, self.clients_on_character_screen@, entered, max as int) == staying(
                    db,
                    all,
                    0,
                    max as int,
                ),
                are_turns(r@, gone, db),
            decreases self.clients_on_character_screen@.len(),
        {
            let ghost was = self.clients_on_character_screen@;
            proof {
                the_first_who_waits_enters_first(was, 0, 0);
            }
            match self.next_promotion(promoted, max) {
                Some(turn) => {
                    proof {
                        let i = turn.at as int;
                        let rest = leaving(db, was.remove(i), counted(entered, was[i], db), max as int);
                        assert(gone.push((i, was[i])) + rest =~= gone + (seq![(i, was[i])] + rest));
                        gone = gone.push((i, was[i]));
                        entered = counted(entered, was[i], db);
                    }
                    if let Promotion::Ready(_) = turn.what {
                        if max > 0 {
                            promoted += 1;
                        }
                    }
                    r.push(turn);
                },
                None => {
                    assert(gone + Seq::<(int, CharacterScreenClient)>::empty() =~= gone);
                    return r;
                },
            }
        }
    }
}

/// Those who wait, in order.
pub open spec fn who_wait(s: Seq<CharacterScreenClient>) -> Seq<CharacterScreenClient>
    decreases s.len(),
{
    if s.len() == 0 {
        s
    } else if waits(s[0]) {
        seq![s[0]] + who_wait(s.skip(1))
    } else {
        who_wait(s.skip(1))
    }
}

/// Everybody but the first `n` who wait, in order.
pub open spec fn without_first(s: Seq<CharacterScreenClient>, n: int) -> Seq<CharacterScreenClient>
    decreases s.len(),
{
    if s.len() == 0 {
        s
    } else if waits(s[0]) && n > 0 {
        without_first(s.skip(1), n - 1)
    } else {
        seq![s[0]] + without_first(s.skip(1), n)
    }
}

/// How many of those who wait have characters.
pub open spec fn with_characters(db: DbView, s: Seq<CharacterScreenClient>) -> int
    decreases s.len(),
{
    if s.len() == 0 {
        0
    } else {
        counted(with_characters(db, s.drop_last()), s.last(), db)
    }
}

/// Who leaves, without the places.
pub open spec fn leavers(who: Seq<(int, CharacterScreenClient)>) -> Seq<CharacterScreenClient> {
    Seq::new(who.len(), |k: int| who[k].1)
}

proof fn lemma_first_waiting_moves(s: Seq<CharacterScreenClient>, from: int)
    requires
        s.len() > 0,
        0 <= from,
    ensures
        first_waiting(s, from + 1) == (match first_waiting(s.skip(1), from) {
            Some(i) => Some(i + 1),
            None => None,
        }),
    decreases s.len() - from,
{
    if from + 1 < s.len() && !waits(s[from + 1]) {
        lemma_first_waiting_moves(s, from + 1);
    }
}

proof fn lemma_one_leaves(s: Seq<CharacterScreenClient>)
    ensures
        match first_waiting(s, 0) {
            Some(i) => {
                &&& 0 <= i < s.len()
                &&& who_wait(s) == seq![s[i]] + who_wait(s.remove(i))
                &&& forall|n: int| 0 < n ==> #[trigger] without_first(s, n) == without_first(s.remove(i), n - 1)
            },
            None => who_wait(s).len() == 0,
        },
    decreases s.len(),
{
    if s.len() > 0 {
        if waits(s[0]) {
            assert(s.remove(0) =~= s.skip(1));
        } else {
            lemma_first_waiting_moves(s, 0);
            lemma_one_leaves(s.skip(1));
            if let Some(i) = first_waiting(s, 0) {
                assert(s.remove(i).skip(1) =~= s.skip(1).remove(i - 1));
                assert forall|n: int| 0 < n implies #[trigger] without_first(s, n) == without_first(
                    s.remove(i),
                    n - 1,
                ) by {
                    assert(without_first(s.skip(1), n) == without_first(s.skip(1).remove(i - 1), n - 1));
                }
            }
        }
    }
}

proof fn lemma_nobody_leaves(s: Seq<CharacterScreenClient>)
    ensures
        without_first(s, 0) == s,
    decreases s.len(),
{
    if s.len() > 0 {
        lemma_nobody_leaves(s.skip(1));
        assert(s =~= seq![s[0]] + s.skip(1));
    }
}

proof fn lemma_count_from_front(db: DbView, c: CharacterScreenClient, s: Seq<CharacterScreenClient>)
    ensures
        with_characters(db, seq![c] + s) == counted(with_characters(db, s), c, db),
    decreases s.len(),
{
    if s.len() == 0 {
        assert((seq![c] + s).drop_last() =~= s);
    } else {
        lemma_count_from_front(db, c, s.drop_last());
        assert((seq![c] + s).drop_last() =~= seq![c] + s.drop_last());
    }
}

proof fn lemma_leaving(db: DbView, s: Seq<CharacterScreenClient>, promoted: int, max: int)
    requires
        0 <= promoted,
        max == 0 || promoted <= max,
    ensures
        ({
            let w = who_wait(s);
            let gone = leavers(leaving(db, s, promoted, max));
            &&& gone.len() <= w.len()
            &&& gone == w.take(gone.len() as int)
            &&& staying(db, s, promoted, max) == without_first(s, gone.len() as int)
            &&& who_wait(staying(db, s, promoted, max)) == w.skip(gone.len() as int)
            &&& max == 0 ==> gone.len() == w.len()
            &&& max > 0 ==> promoted + with_characters(db, gone) <= max
            &&& gone.len() < w.len() ==> promoted + with_characters(db, gone) == max
            &&& gone.len() < w.len() && gone.len() > 0 ==> has_character(db, gone.last())
        }),
    decreases s.len(),
{
    let w = who_wait(s);
    let all = leaving(db, s, promoted, max);
    let gone = leavers(all);
    lemma_one_leaves(s);
    match first_waiting(s, 0) {
        Some(i) if may_go_on(promoted, max) => {
            let t = s.remove(i);
            let then = counted(promoted, s[i], db);
            let others = leavers(leaving(db, t, then, max));
            lemma_leaving(db, t, then, max);
            assert(gone =~= seq![s[i]] + others);
            assert(w.take(gone.len() as int) =~= seq![s[i]] + who_wait(t).take(others.len() as int));
            assert(w.skip(gone.len() as int) =~= who_wait(t).skip(others.len() as int));
            lemma_count_from_front(db, s[i], others);
            if others.len() == 0 {
                assert(others =~= Seq::<CharacterScreenClient>::empty());
            }
        },
        _ => {
            lemma_nobody_leaves(s);
            assert(gone =~= Seq::<CharacterScreenClient>::empty());
            assert(w.take(0) =~= gone);
            assert(w.skip(0) =~= w);
        },
    }
}

proof fn lemma_all_counted(db: DbView, s: Seq<CharacterScreenClient>)
    requires
        forall|k: int| 0 <= k < s.len() ==> has_character(db, #[trigger] s[k]),
    ensures
        with_characters(db, s) == s.len(),
    decreases s.len(),
{
    if s.len() > 0 {
        lemma_all_counted(db, s.drop_last());
    }
}

proof fn lemma_prefix_counts_less(db: DbView, s: Seq<CharacterScreenClient>, n: int)
    requires
        0 <= n <= s.len(),
    ensures
        0 <= with_characters(db, s.take(n)) <= with_characters(db, s),
    decreases s.len(),
{
    if n < s.len() {
        lemma_prefix_counts_less(db, s.drop_last(), n);
        assert(s.drop_last().take(n) =~= s.take(n));
    } else {
        assert(s.take(n) =~= s);
        if n > 0 {
            lemma_prefix_counts_less(db, s.drop_last(), n - 1);
            assert(s.drop_last().take(n - 1) =~= s.drop_last());
        }
    }
}

/// Of those who wait, the first leave the character screen in a tick, in order, and
/// the others keep their order. As many enter the world as can, and no more than
/// `max`, unless that is zero: then it is everybody's turn. Who comes behind the last
/// who enters waits on.
pub proof fn no_more_enter_than_may(db: DbView, s: Seq<CharacterScreenClient>, max: u32)
    ensures
        ({
            let w = who_wait(s);
            let gone = leavers(leaving(db, s, 0, max as int));
            let n = gone.len() as int;
            let can = with_characters(db, w);
            &&& n <= w.len()
            &&& gone == w.take(n)
            &&& staying(db, s, 0, max as int) == without_first(s, n)
            &&& who_wait(staying(db, s, 0, max as int)) == w.skip(n)
            &&& with_characters(db, gone) == (if max == 0 || can <= max {
                can
            } else {
                max as int
            })
            &&& max == 0 ==> n == w.len()
            &&& n < w.len() ==> n > 0 && has_character(db, gone.last())
        }),
{
    lemma_leaving(db, s, 0, max as int);
    let w = who_wait(s);
    let n = leavers(leaving(db, s, 0, max as int)).len() as int;
    lemma_prefix_counts_less(db, w, n);
    if n == w.len() {
        assert(w.take(n) =~= w);
    }
}

/// Where everybody who waits has a character, the first `max` enter, or all of them
/// if they are fewer or `max` is zero; everybody else stays, in order.
pub proof fn the_first_who_wait_enter(db: DbView, s: Seq<CharacterScreenClient>, max: u32)
    requires
        forall|k: int| 0 <= k < who_wait(s).len() ==> has_character(db, #[trigger] who_wait(s)[k]),
    ensures
        ({
            let k = who_wait(s).len();
            let n = if max == 0 || k <= max {
                k as int
            } else {
                max as int
            };
            &&& leavers(leaving(db, s, 0, max as int)) == who_wait(s).take(n)
            &&& staying(db, s, 0, max as int) == without_first(s, n)
            &&& with_characters(db, leavers(leaving(db, s, 0, max as int))) == n
        }),
{
    no_more_enter_than_may(db, s, max);
    let w = who_wait(s);
    let gone = leavers(leaving(db, s, 0, max as int));
    lemma_all_counted(db, w);
    lemma_all_counted(db, gone);
}

/// The others on the character screen, once the connections of some ended.
pub open spec fn still_there(s: Seq<CharacterScreenClient>, finished: Seq<bool>) -> Seq<CharacterScreenClient>
    decreases s.len(),
{
    if s.len() == 0 {
        Seq::empty()
    } else {
        let before = still_there(s.drop_last(), finished);
        if finished[s.len() - 1] {
            before
        } else {
            before.push(s.last())
        }
    }
}

impl World {
    /// Forget those on the character screen whose connections ended.
    pub fn drop_finished(&mut self, finished: &Vec<bool>)
        requires
            finished@.len() == old(self).clients_on_character_screen@.len(),
        ensures
            final(self).clients_on_character_screen@ == still_there(
                old(self).clients_on_character_screen@,
                finished@,
            ),
            *final(self) == (World {
                clients_on_character_screen: final(self).clients_on_character_screen,
                ..*old(self)
            }),
    {
        let ghost all = self.clients_on_character_screen@;
        let mut rest: Vec<CharacterScreenClient> = Vec::new();
        rest.append(&mut self.clients_on_character_screen);
        assert(rest@ =~= all);
        let mut i: usize = 0;
        assert(rest@ =~= all.skip(0));
        assert(all.take(0) =~= Seq::<CharacterScreenClient>::empty());
        assert(self.clients_on_character_screen@ =~= still_there(all.take(0), finished@));
        while rest.len() > 0
            invariant
                i <= all.len(),
                finished@.len() == all.len(),
                rest@ == all.skip(i as int),
                self.clients_on_character_screen@ == still_there(all.take(i as int), finished@),
                *self == (World {
                    clients_on_character_screen: self.clients_on_character_screen,
                    ..*old(self)
                }),
            decreases rest.len(),
        {
            assert(i < finished.len());
            let c = rest.remove(0);
            proof {
                assert(all.take(i + 1).drop_last() =~= all.take(i as int));
                assert(all.take(i + 1).last() == c);
            }
            if !finished[i] {
                self.clients_on_character_screen.push(c);
            }
            i += 1;
            assert(rest@ =~= all.skip(i as int));
        }
        assert(all.take(i as int) =~= all);
    }

    /// Those who left the world are back on the character screen.
    pub fn take_back(&mut self, departed: Vec<Client>)
        ensures
            final(self).clients_on_character_screen@.len() == old(self).clients_on_character_screen@.len()
                + departed@.len(),
            forall|i: int|
                0 <= i < old(self).clients_on_character_screen@.len() ==> (
                #[trigger] final(self).clients_on_character_screen@[i]) == old(self).clients_on_character_screen@[i],
            forall|i: int|
                0 <= i < departed@.len() ==> is_back(
                    final(self).clients_on_character_screen@[old(self).clients_on_character_screen@.len() + i],
                    (#[trigger] departed@[i])@,
                ),
            *final(self) == (World {
                clients_on_character_screen: final(self).clients_on_character_screen,
                ..*old(self)
            }),
    {
        let ghost all = departed@;
        let ghost was = self.clients_on_character_screen@;
        let mut rest = departed;
        let ghost mut done: int = 0;
        while rest.len() > 0
            invariant
                0 <= done <= all.len(),
                rest@ == all.skip(done),
                was == old(self).clients_on_character_screen@,
                self.clients_on_character_screen@.len() == was.len() + done,
                forall|i: int| 0 <= i < was.len() ==> (#[trigger] self.clients_on_character_screen@[i]) == was[i],
                forall|i: int|
                    0 <= i < done ==> is_back(
                        self.clients_on_character_screen@[was.len() + i],
                        (#[trigger] all[i])@,
                    ),
                *self == (World {
                    clients_on_character_screen: self.clients_on_character_screen,
                    ..*old(self)
                }),
            decreases rest.len(),
        {
            let c = rest.remove(0);
            assert(c == all[done]);
            self.clients_on_character_screen.push(c.into_character_screen_client());
            proof {
                done = done + 1;
                assert(rest@ =~= all.skip(done));
            }
        }
    }

    /// Let those who went to other maps onto them.
    pub fn rehome(&mut self, changers: Vec<Client>, tick: &TickConfig)
        requires
            old(self).wf(),
        ensures
            final(self).wf(),
            old(self).is_live() ==> final(self).is_live(),
            *final(self) == (World { maps: final(self).maps, registry: final(self).registry, ..*old(self) }),
            all_admitted(final(self).maps@, old(self).maps@, departures::views(changers@), *tick),
            final(self).registry@ == all_registered(old(self).registry@, departures::views(changers@)),
    {
        let ghost all = changers@;
        let ghost seen = departures::views(all);
        let ghost was = self.maps@;
        let mut rest = changers;
        let ghost mut done: int = 0;
        assert(seen.take(0) =~= Seq::<ClientView>::empty());
        while rest.len() > 0
            invariant
                self.wf(),
                old(self).is_live() ==> self.is_live(),
                0 <= done <= all.len(),
                rest@ == all.skip(done),
                seen == departures::views(all),
                *self == (World { maps: self.maps, registry: self.registry, ..*old(self) }),
                all_admitted(self.maps@, was, seen.take(done), *tick),
                self.registry@ == all_registered(old(self).registry@, seen.take(done)),
            decreases rest.len(),
        {
            let ghost before = self.maps@;
            let c = rest.remove(0);
            let ghost who = c@;
            let key: usize = self.admit_client_at_position(c, tick);
            proof {
                assert(seen[done] == who);
                assert(seen.take(done + 1).drop_last() =~= seen.take(done));
                assert(seen.take(done + 1).last() == who);
                assert(admitted(self.maps@, before, who, key, *tick));
                done = done + 1;
                assert(rest@ =~= all.skip(done));
            }
        }
        assert(seen.take(done) =~= seen);
    }
}

/// Whether `s` is the client `c`, back on the character screen.
pub open spec fn is_back(s: CharacterScreenClient, c: ClientView) -> bool {
    s.status == CharacterScreenProgress::CharacterScreen && s.account_name@ == c.account_name
}

/// Whether `maps` is `was` with the clients on their maps, admitted one after
/// the other.
pub open spec fn all_admitted(
    maps: Map<u64, MapState>,
    was: Map<u64, MapState>,
    clients: Seq<ClientView>,
    tick: TickConfig,
) -> bool
    decreases clients.len(),
{
    if clients.len() == 0 {
        maps == was
    } else {
        exists|before: Map<u64, MapState>, key: usize| #[trigger]
            admitted(maps, before, clients.last(), key, tick) && all_admitted(before, was, clients.drop_last(), tick)
    }
}

/// The register with the clients in it, entered one after the other.
pub open spec fn all_registered(r: RegistryView, clients: Seq<ClientView>) -> RegistryView
    decreases clients.len(),
{
    if clients.len() == 0 {
        r
    } else {
        all_registered(r, clients.drop_last()).registered(map_state::register_entry(clients.last().character))
    }
}

impl Client {
    /// The connection without its character, on the character screen.
    pub fn into_character_screen_client(self) -> (r: CharacterScreenClient)
        ensures
            is_back(r, self@),
    {
        CharacterScreenClient {
            status: CharacterScreenProgress::CharacterScreen,
            account_name: self.session.account_name,
        }
    }
}

/// Whether `m` is a map with those creatures on it.
pub open spec fn is_populated(m: MapState, map: u32, creatures: Seq<Creature>, tick: TickConfig) -> bool {
    exists|empty: MapState, keys: Seq<usize>|
        #![trigger empty@.populated(creatures, keys)]
        is_empty_map(empty, map, tick) && keys.no_duplicates() && keys.len() == creatures.len() && m@
            == empty@.populated(creatures, keys)
}

proof fn lemma_populated_map(v: MapView, cs: Seq<Creature>, keys: Seq<usize>)
    ensures
        v.populated(cs, keys).map == v.map,
        v.populated(cs, keys).clients == v.clients,
        v.populated(cs, keys).client_cells == v.client_cells,
    decreases cs.len(),
{
    if cs.len() > 0 {
        lemma_populated_map(v, cs.drop_last(), keys);
    }
}

impl World {
    /// A world with those creatures, each on its map, and nobody else. There are no
    /// other maps.
    pub fn with_creatures_and_db(creatures: Vec<Creature>, db: WorldDatabase, tick: &TickConfig) -> (r: Self)
        requires
            db.wf(),
        ensures
            r.wf(),
            r.is_live(),
            r.db == db,
            r.clients_on_character_screen@.len() == 0,
            r.registry@ == (RegistryView { players: Map::empty(), names: Map::empty() }),
            r.pacers@ == Map::<u64, cell::PacerSnapshot>::empty(),
            r.last_packet_sample == 0,
            forall|m: u64| #[trigger]
                r.maps@.contains_key(m) ==> m <= u32::MAX && cell::on_map(creatures@, m as u32).len() > 0 && is_populated(
                    r.maps@[m],
                    m as u32,
                    cell::on_map(creatures@, m as u32),
                    *tick,
                ),
            forall|k: int| 0 <= k < creatures@.len() ==> r.maps@.contains_key((#[trigger] creatures@[k]).map as u64),
    {
        let ghost all = creatures@;
        let mut maps: KeyedTable<MapState> = KeyedTable::new();
        let mut buckets = cell::partition_creatures(creatures);
        let ghost parts = buckets@;
        let ghost mut done: int = 0;
        while buckets.len() > 0
            invariant
                maps.wf(),
                0 <= done <= parts.len(),
                buckets@ == parts.skip(done),
                forall|i: int| 0 <= i < parts.len() ==> (#[trigger] parts[i]).creatures@ == cell::on_map(
                    all,
                    parts[i].map,
                ) && parts[i].creatures@.len() > 0,
                forall|m: u64| #[trigger]
                    maps@.contains_key(m) ==> m <= u32::MAX && maps@[m].wf() && maps@[m]@.index_is_live() && maps@[m]@.map == m && cell::on_map(
                        all,
                        m as u32,
                    ).len() > 0 && is_populated(
                        maps@[m],
                        m as u32,
                        cell::on_map(all, m as u32),
                        *tick,
                    ),
                forall|i: int| 0 <= i < done ==> maps@.contains_key((#[trigger] parts[i]).map as u64),
            decreases buckets.len(),
        {
            let ghost before = maps@;
            let b = buckets.remove(0);
            assert(b == parts[done]);
            let map: u32 = b.map;
            let ghost cs = b.creatures@;
            let (state, keys) = MapState::build_map_state_with_creatures(map, b.creatures, tick);
            proof {
                let empty = choose|empty: MapState|
                    #![trigger empty@]
                    call_ensures(MapState::new_empty, (map, tick), empty) && state@ == empty@.populated(cs, keys@);
                assert(is_empty_map(empty, map, *tick));
                lemma_populated_map(empty@, cs, keys@);
                assert(is_populated(state, map, cs, *tick));
            }
            maps.insert(map as u64, state);
            proof {
                assert forall|m: u64| #[trigger] maps@.contains_key(m) implies m <= u32::MAX && maps@[m].wf()
                    && maps@[m]@.index_is_live() && maps@[m]@.map == m && cell::on_map(all, m as u32).len() > 0 && is_populated(
                    maps@[m],
                    m as u32,
                    cell::on_map(all, m as u32),
                    *tick,
                ) by {
                    if m != map as u64 {
                        assert(before.contains_key(m));
                    }
                }
                assert forall|i: int| 0 <= i < done + 1 implies maps@.contains_key((#[trigger] parts[i]).map as u64) by {
                    if i < done {
                        assert(before.contains_key(parts[i].map as u64));
                    }
                }
                done = done + 1;
                assert(buckets@ =~= parts.skip(done));
            }
        }
        proof {
            assert forall|k: int| 0 <= k < all.len() implies maps@.contains_key((#[trigger] all[k]).map as u64) by {
                assert(cell::lists_map(parts, all[k].map));
                let i = choose|i: int| 0 <= i < parts.len() && (#[trigger] parts[i]).map == all[k].map;
                assert(maps@.contains_key(parts[i].map as u64));
            }
        }
        World {
            maps,
            clients_on_character_screen: Vec::new(),
            db,
            registry: PlayerRegistry::new(),
            pacers: PacerStates::new(),
            last_packet_sample: 0,
        }
    }
}

/// The clients of a map, in the order of their keys.
pub open spec fn roster(v: MapView) -> Seq<ClientView> {
    departures::those(v.clients, slabs::ordered(v.clients.dom()))
}

/// The clients of the maps, one map after the other.
pub open spec fn rosters(maps: Map<u64, MapState>, order: Seq<u64>) -> Seq<ClientView>
    decreases order.len(),
{
    if order.len() == 0 {
        Seq::empty()
    } else {
        rosters(maps, order.drop_last()) + roster(maps[order.last()]@)
    }
}

impl MapState {
    /// Write the characters of everybody on the map back.
    pub fn write_back(&self, db: &mut WorldDatabase)
        requires
            old(db).wf(),
        ensures
            final(db).wf(),
            final(db)@ == tick::all_written(old(db)@, roster(self@)),
    {
        let keys = slabs::clients_keys(&self.clients);
        proof {
            assert(slabs::clients(self.clients).dom() =~= self@.clients.dom());
            slabs::ordered_is(keys@, self@.clients.dom());
        }
        let ghost all = roster(self@);
        let mut i: usize = 0;
        assert(all.take(0) =~= Seq::<ClientView>::empty());
        while i < keys.len()
            invariant
                i <= keys@.len(),
                slabs::in_order(keys@, self@.clients.dom()),
                all == departures::those(self@.clients, keys@),
                db.wf(),
                db@ == tick::all_written(old(db)@, all.take(i as int)),
            decreases keys.len() - i,
        {
            let key: usize = keys[i];
            assert(keys@.contains(key));
            match slabs::clients_get(&self.clients, key) {
                Some(c) => {
                    assert(c@ == self@.clients[key]);
                    db.replace_character_data(c.character.clone());
                },
                None => {
                    assert(false);
                },
            }
            assert(all[i as int] == self@.clients[key]);
            assert(all.take(i + 1).drop_last() =~= all.take(i as int));
            assert(all.take(i + 1).last() == all[i as int]);
            i += 1;
        }
        assert(all.take(i as int) =~= all);
    }
}

proof fn lemma_written_twice(db: DbView, a: Seq<ClientView>, b: Seq<ClientView>)
    ensures
        tick::all_written(tick::all_written(db, a), b) == tick::all_written(db, a + b),
    decreases b.len(),
{
    if b.len() == 0 {
        assert(a + b =~= a);
    } else {
        lemma_written_twice(db, a, b.drop_last());
        assert((a + b).drop_last() =~= a + b.drop_last());
        assert((a + b).last() == b.last());
    }
}

impl World {
    /// Write the characters of everybody in the world back, map by map.
    pub fn sync_clients_to_db(&mut self)
        requires
            old(self).wf(),
        ensures
            final(self).wf(),
            *final(self) == (World { db: final(self).db, ..*old(self) }),
            exists|order: Seq<u64>| #[trigger]
                tables::lists(order, old(self).maps@.dom()) && final(self).db@ == tick::all_written(
                    old(self).db@,
                    rosters(old(self).maps@, order),
                ),
    {
        let order = self.maps.keys();
        let ghost was = *self;
        let mut i: usize = 0;
        assert(order@.take(0) =~= Seq::<u64>::empty());
        while i < order.len()
            invariant
                i <= order@.len(),
                was.wf(),
                self.wf(),
                tables::lists(order@, was.maps@.dom()),
                *self == (World { db: self.db, ..was }),
                self.db@ == tick::all_written(was.db@, rosters(was.maps@, order@.take(i as int))),
            decreases order.len() - i,
        {
            let m: u64 = order[i];
            assert(order@.contains(m));
            proof {
                assert(order@.take(i + 1).drop_last() =~= order@.take(i as int));
                assert(order@.take(i + 1).last() == m);
                lemma_written_twice(was.db@, rosters(was.maps@, order@.take(i as int)), roster(was.maps@[m]@));
            }
            match self.maps.get(m) {
                Some(state) => {
                    state.write_back(&mut self.db);
                },
                None => {
                    assert(false);
                },
            }
            i += 1;
        }
        assert(order@.take(i as int) =~= order@);
    }

    /// The packets that went out since they were last counted.
    pub fn count_packets(&mut self, now: u64) -> (r: u64)
        ensures
            r == (if now >= old(self).last_packet_sample {
                now - old(self).last_packet_sample
            } else {
                0
            }),
            *final(self) == (World { last_packet_sample: now, ..*old(self) }),
    {
        let delta: u64 = now.saturating_sub(self.last_packet_sample);
        self.last_packet_sample = now;
        delta
    }
}

/// What the tick of a map came to. Times are in nanoseconds.
#[derive(Debug, Clone, Copy, PartialEq, Eq, Structural)]
pub struct PerCellTickResult {
    pub map: u32,
    /// The map was not due.
    pub skipped: bool,
    pub t_per_client: u64,
    pub t_build_view: u64,
    pub t_flush: u64,
    pub t_aoi: u64,
    pub t_apply_cmds: u64,
    pub t_corpses: u64,
    pub t_creatures: u64,
    pub t_logouts: u64,
    pub census: Census,
}

/// What is reported while there are no maps.
pub open spec fn no_result() -> PerCellTickResult {
    PerCellTickResult {
        map: 0,
        skipped: true,
        t_per_client: 0,
        t_build_view: 0,
        t_flush: 0,
        t_aoi: 0,
        t_apply_cmds: 0,
        t_corpses: 0,
        t_creatures: 0,
        t_logouts: 0,
        census: Census { clients: 0, creatures: 0, idle: 0, wander: 0, waypoint: 0, aggro: 0, walking: 0 },
    }
}

impl PerCellTickResult {
    pub fn empty() -> (r: Self)
        ensures
            r == no_result(),
    {
        PerCellTickResult {
            map: 0,
            skipped: true,
            t_per_client: 0,
            t_build_view: 0,
            t_flush: 0,
            t_aoi: 0,
            t_apply_cmds: 0,
            t_corpses: 0,
            t_creatures: 0,
            t_logouts: 0,
            census: Census { clients: 0, creatures: 0, idle: 0, wander: 0, waypoint: 0, aggro: 0, walking: 0 },
        }
    }

    /// The time of all phases.
    pub open spec fn total(&self) -> int {
        self.t_per_client + self.t_build_view + self.t_flush + self.t_aoi + self.t_apply_cmds + self.t_corpses
            + self.t_creatures + self.t_logouts
    }

    pub fn t_cell_total(&self) -> (r: u64)
        requires
            self.total() <= u64::MAX,
        ensures
            r == self.total(),
    {
        self.t_per_client + self.t_build_view + self.t_flush + self.t_aoi + self.t_apply_cmds + self.t_corpses
            + self.t_creatures + self.t_logouts
    }
}

/// The first that was not skipped, else the first, else none.
pub open spec fn speaker(s: Seq<PerCellTickResult>, from: int) -> PerCellTickResult
    decreases s.len() - from,
{
    if from < s.len() {
        if !s[from].skipped {
            s[from]
        } else {
            speaker(s, from + 1)
        }
    } else if s.len() > 0 {
        s[0]
    } else {
        no_result()
    }
}

/// The result that stands for all in reports.
pub fn representative(s: &Vec<PerCellTickResult>) -> (r: PerCellTickResult)
    ensures
        r == speaker(s@, 0),
{
    let mut i: usize = 0;
    while i < s.len()
        invariant
            i <= s@.len(),
            speaker(s@, 0) == speaker(s@, i as int),
        decreases s.len() - i,
    {
        if !s[i].skipped {
            return s[i];
        }
        i += 1;
    }
    if s.len() > 0 {
        s[0]
    } else {
        PerCellTickResult::empty()
    }
}

/// How many there are in the whole world.
#[derive(Debug, Clone, Copy, PartialEq, Eq, Structural)]
pub struct Totals {
    pub clients: usize,
    pub creatures: usize,
    pub idle: usize,
    pub wander: usize,
    pub waypoint: usize,
    pub aggro: usize,
    /// The players on the fullest map.
    pub most_clients: usize,
}

pub open spec fn sum(s: Seq<PerCellTickResult>, f: spec_fn(Census) -> usize) -> int
    decreases s.len(),
{
    if s.len() == 0 {
        0
    } else {
        sum(s.drop_last(), f) + f(s.last().census)
    }
}

pub open spec fn most(s: Seq<PerCellTickResult>) -> usize
    decreases s.len(),
{
    if s.len() == 0 {
        0
    } else {
        let before = most(s.drop_last());
        if s.last().census.clients >= before {
            s.last().census.clients
        } else {
            before
        }
    }
}

/// Whether `t` adds up the results.
pub open spec fn adds_up(t: Totals, s: Seq<PerCellTickResult>) -> bool {
    &&& t.clients == sum(s, |c: Census| c.clients)
    &&& t.creatures == sum(s, |c: Census| c.creatures)
    &&& t.idle == sum(s, |c: Census| c.idle)
    &&& t.wander == sum(s, |c: Census| c.wander)
    &&& t.waypoint == sum(s, |c: Census| c.waypoint)
    &&& t.aggro == sum(s, |c: Census| c.aggro)
    &&& t.most_clients == most(s)
}

/// Whether the sums of the results can be held.
pub open spec fn sums_fit(s: Seq<PerCellTickResult>) -> bool {
    &&& sum(s, |c: Census| c.clients) <= usize::MAX
    &&& sum(s, |c: Census| c.creatures) <= usize::MAX
    &&& sum(s, |c: Census| c.idle) <= usize::MAX
    &&& sum(s, |c: Census| c.wander) <= usize::MAX
    &&& sum(s, |c: Census| c.waypoint) <= usize::MAX
    &&& sum(s, |c: Census| c.aggro) <= usize::MAX
}

proof fn lemma_sum_grows(s: Seq<PerCellTickResult>, f: spec_fn(Census) -> usize, i: int)
    requires
        0 <= i <= s.len(),
    ensures
        0 <= sum(s.take(i), f) <= sum(s, f),
    decreases s.len(),
{
    if i == s.len() {
        assert(s.take(i) =~= s);
        if i > 0 {
            lemma_sum_grows(s.drop_last(), f, i - 1);
            assert(s.drop_last().take(i - 1) =~= s.drop_last());
        }
    } else {
        lemma_sum_grows(s.drop_last(), f, i);
        assert(s.drop_last().take(i) =~= s.take(i));
    }
}

/// Add up the results of all maps.
pub fn total_up(s: &Vec<PerCellTickResult>) -> (t: Totals)
    requires
        sums_fit(s@),
    ensures
        adds_up(t, s@),
{
    let mut t = Totals { clients: 0, creatures: 0, idle: 0, wander: 0, waypoint: 0, aggro: 0, most_clients: 0 };
    let mut i: usize = 0;
    assert(s@.take(0) =~= Seq::<PerCellTickResult>::empty());
    while i < s.len()
        invariant
            i <= s@.len(),
            sums_fit(s@),
            adds_up(t, s@.take(i as int)),
        decreases s.len() - i,
    {
        let c: Census = s[i].census;
        proof {
            let next = s@.take(i + 1);
            assert(next.drop_last() =~= s@.take(i as int));
            assert(next.last().census == c);
            lemma_sum_grows(s@, |c: Census| c.clients, i + 1);
            lemma_sum_grows(s@, |c: Census| c.creatures, i + 1);
            lemma_sum_grows(s@, |c: Census| c.idle, i + 1);
            lemma_sum_grows(s@, |c: Census| c.wander, i + 1);
            lemma_sum_grows(s@, |c: Census| c.waypoint, i + 1);
            lemma_sum_grows(s@, |c: Census| c.aggro, i + 1);
        }
        t.clients = t.clients + c.clients;
        t.creatures = t.creatures + c.creatures;
        t.idle = t.idle + c.idle;
        t.wander = t.wander + c.wander;
        t.waypoint = t.waypoint + c.waypoint;
        t.aggro = t.aggro + c.aggro;
        if c.clients >= t.most_clients {
            t.most_clients = c.clients;
        }
        i += 1;
    }
    assert(s@.take(i as int) =~= s@);
    t
}

/// Having a map twice is having it once.
pub proof fn having_a_map_twice(
    a: Map<u64, MapState>,
    b: Map<u64, MapState>,
    c: Map<u64, MapState>,
    map: u32,
    tick: TickConfig,
)
    requires
        with_map(b, a, map, tick),
        with_map(c, b, map, tick),
    ensures
        c == b,
{
}

/// Whoever is admitted is on the map of their character, and on no other map
/// anything changes.
pub proof fn who_is_admitted_is_on_their_map(
    maps: Map<u64, MapState>,
    was: Map<u64, MapState>,
    c: ClientView,
    key: usize,
    tick: TickConfig,
    other: u64,
)
    requires
        admitted(maps, was, c, key, tick),
        other != c.character.map as u64,
    ensures
        maps.contains_key(c.character.map as u64),
        maps[c.character.map as u64]@.clients.contains_key(key),
        maps[c.character.map as u64]@.clients[key] == c,
        maps.contains_key(other) == was.contains_key(other),
        was.contains_key(other) ==> maps[other] == was[other],
{
}

/// Whoever enters first waited first: nobody before them on the character screen
/// waits.
pub proof fn the_first_who_waits_enters_first(s: Seq<CharacterScreenClient>, from: int, j: int)
    requires
        0 <= from,
    ensures
        match first_waiting(s, from) {
            Some(i) => from <= i < s.len() && waits(s[i]) && (from <= j < i ==> !waits(s[j])),
            None => from <= j < s.len() ==> !waits(s[j]),
        },
    decreases s.len() - from,
{
    if from < s.len() && !waits(s[from]) {
        the_first_who_waits_enters_first(s, from + 1, j);
    }
}

/// On every map of a sound world where nobody is held out, the index tracks a client
/// exactly if it is there, a creature exactly if it is there and not waiting to come
/// back, and as many clients as there are.
pub proof fn every_map_tracks_who_is_there(w: World, m: u64, k: usize)
    requires
        w.wf(),
        w.is_live(),
        w.maps@.contains_key(m),
    ensures
        ({
            let map = w.maps@[m];
            &&& map.index.clients().contains_key(k) <==> map@.clients.contains_key(k)
            &&& map.index.creatures().contains_key(k) <==> map@.creatures.contains_key(k) && !(
            map@.creatures[k].life_state is Respawning)
            &&& map.index.clients().dom().len() == map@.clients.dom().len()
        }),
{
    map_state::the_index_tracks_who_is_here(w.maps@[m], k);
}

/// Whoever is let in stands on the map that their character is on, is found in the register
/// where they are, and is the only one who came: nobody else, on that map or another, is
/// touched.
pub proof fn who_is_let_in_is_on_their_map(w: &mut World, client: Client, tick: &TickConfig, key: usize, other: u64, k: usize)
    requires
        old(w).wf(),
        call_ensures(World::admit_client_at_position, (w, client, tick), key),
    ensures
        ({
            let c = client@.character;
            let m = c.map as u64;
            &&& final(w).maps@.contains_key(m)
            &&& final(w).on_map(m).clients.contains_key(key)
            &&& final(w).on_map(m).clients[key] == client@
            &&& final(w).on_map(m).player(c.guid) == Some(key)
            &&& final(w).registry@.by_guid(c.guid) == Some(
                crate::creature::Position { map: c.map, place: c.info.position, orientation: c.info.orientation },
            )
            &&& old(w).maps@.contains_key(m) && k != key ==> final(w).on_map(m).clients[k] == old(w).on_map(
                m,
            ).clients[k] && (final(w).on_map(m).clients.contains_key(k) <==> old(w).on_map(m).clients.contains_key(k))
            &&& old(w).maps@.contains_key(m) ==> final(w).on_map(m).creatures == old(w).on_map(m).creatures
            &&& other != m && old(w).maps@.contains_key(other) ==> final(w).maps@.contains_key(other)
                && final(w).maps@[other] == old(w).maps@[other]
        }),
        final(w).clients_on_character_screen == old(w).clients_on_character_screen,
{
}

proof fn lemma_who_wait(s: Seq<CharacterScreenClient>)
    ensures
        who_wait(s) == s.filter(|c: CharacterScreenClient| c.status is WaitingToLogIn),
    decreases s.len(),
{
    let f = |c: CharacterScreenClient| c.status is WaitingToLogIn;
    reveal(Seq::filter);
    if s.len() > 0 {
        let a = seq![s[0]];
        let b = s.skip(1);
        assert(s =~= a + b);
        Seq::filter_distributes_over_add(a, b, f);
        lemma_who_wait(b);
        assert(a.drop_last() =~= Seq::<CharacterScreenClient>::empty());
        assert(a.drop_last().filter(f) =~= Seq::<CharacterScreenClient>::empty());
        assert(a.filter(f) =~= if f(s[0]) {
            a
        } else {
            Seq::<CharacterScreenClient>::empty()
        });
    }
    assert(who_wait(s) =~= s.filter(f));
}

/// How many of the turns let somebody into the world.
pub open spec fn entries(r: Seq<Turn>) -> nat {
    r.filter(|t: Turn| t.what is Ready).len()
}

proof fn lemma_entries(r: Seq<Turn>, who: Seq<CharacterScreenClient>, db: DbView)
    requires
        r.len() == who.len(),
        forall|k: int| 0 <= k < r.len() ==> is_promotion((#[trigger] r[k]).what, who[k], db),
    ensures
        entries(r) == with_characters(db, who),
    decreases r.len(),
{
    reveal(Seq::filter);
    if r.len() > 0 {
        let a = r.drop_last();
        let b = who.drop_last();
        assert forall|k: int| 0 <= k < a.len() implies is_promotion((#[trigger] a[k]).what, b[k], db) by {
            assert(a[k] == r[k]);
        }
        lemma_entries(a, b, db);
        assert(is_promotion(r[r.len() - 1].what, who[r.len() - 1], db));
    }
}

/// In a tick those who wait leave the character screen in their order, each with the
/// character that they wait with; who has none is dropped. No more enter than may, unless
/// that is zero; and nobody is left waiting while another may enter.
pub proof fn who_waits_enters_in_turn(w: &mut World, max: u32, r: Vec<Turn>, k: int)
    requires
        old(w).wf(),
        call_ensures(World::promote, (w, max), r),
    ensures
        ({
            let waiting = old(w).clients_on_character_screen@.filter(
                |c: CharacterScreenClient| c.status is WaitingToLogIn,
            );
            let left = final(w).clients_on_character_screen@.filter(
                |c: CharacterScreenClient| c.status is WaitingToLogIn,
            );
            &&& r@.len() <= waiting.len()
            &&& left == waiting.skip(r@.len() as int)
            &&& 0 <= k < r@.len() ==> {
                let guid = waiting[k].status->WaitingToLogIn_0;
                let c = old(w).db@.by_guid(guid);
                &&& c is Some ==> r@[k].what is Ready && r@[k].what->Ready_0@.character == c->0
                    && r@[k].what->Ready_0@.account_name == waiting[k].account_name@
                &&& c is None ==> r@[k].what == (Promotion::Dropped { account_name: waiting[k].account_name, guid })
            }
            &&& max > 0 ==> entries(r@) <= max
            &&& max == 0 ==> r@.len() == waiting.len()
            &&& r@.len() < waiting.len() ==> entries(r@) == max
        }),
        final(w).clients_on_character_screen@.len() + r@.len() == old(w).clients_on_character_screen@.len(),
        final(w).db == old(w).db && final(w).maps == old(w).maps && final(w).registry == old(w).registry,
{
    let s = old(w).clients_on_character_screen@;
    let db = old(w).db@;
    let all = leaving(db, s, 0, max as int);
    let gone = leavers(all);
    lemma_leaving(db, s, 0, max as int);
    lemma_who_wait(s);
    lemma_who_wait(final(w).clients_on_character_screen@);
    assert forall|i: int| 0 <= i < r@.len() implies is_promotion((#[trigger] r@[i]).what, gone[i], db) by {
        assert(all[i].1 == gone[i]);
    }
    lemma_entries(r@, gone, db);
    if 0 <= k < r@.len() {
        assert(gone[k] == who_wait(s)[k]);
        assert(is_promotion(r@[k].what, gone[k], db));
    }
    lemma_staying_len(db, s, 0, max as int);
}

proof fn lemma_staying_len(db: DbView, s: Seq<CharacterScreenClient>, promoted: int, max: int)
    ensures
        staying(db, s, promoted, max).len() + leaving(db, s, promoted, max).len() == s.len(),
    decreases s.len(),
{
    match first_waiting(s, 0) {
        Some(i) if may_go_on(promoted, max) => {
            the_first_who_waits_enters_first(s, 0, 0);
            lemma_staying_len(db, s.remove(i), counted(promoted, s[i], db), max);
        },
        _ => {},
    }
}

proof fn lemma_still_there(s: Seq<CharacterScreenClient>, finished: Seq<bool>, c: CharacterScreenClient)
    requires
        s.len() <= finished.len(),
    ensures
        still_there(s, finished).contains(c) <==> exists|i: int|
            0 <= i < s.len() && #[trigger] s[i] == c && !finished[i],
        still_there(s, finished).len() <= s.len(),
    decreases s.len(),
{
    if s.len() > 0 {
        let init = s.drop_last();
        let n = s.len() - 1;
        lemma_still_there(init, finished, c);
        let before = still_there(init, finished);
        crate::aoi::lemma_push_contains(before, s.last(), c);
        assert(s[n] == s.last());
        if before.contains(c) {
            let i = choose|i: int| 0 <= i < init.len() && #[trigger] init[i] == c && !finished[i];
            assert(s[i] == init[i]);
        }
        if exists|i: int| 0 <= i < s.len() && #[trigger] s[i] == c && !finished[i] {
            let i = choose|i: int| 0 <= i < s.len() && #[trigger] s[i] == c && !finished[i];
            if i < n {
                assert(init[i] == s[i]);
            }
        }
    }
}

proof fn lemma_nobody_finished(s: Seq<CharacterScreenClient>, finished: Seq<bool>)
    requires
        s.len() <= finished.len(),
        forall|i: int| 0 <= i < s.len() ==> !#[trigger] finished[i],
    ensures
        still_there(s, finished) == s,
    decreases s.len(),
{
    if s.len() > 0 {
        lemma_nobody_finished(s.drop_last(), finished);
        assert(!finished[s.len() - 1]);
    }
    assert(still_there(s, finished) =~= s);
}

/// Who is on the character screen stays there unless their connection ended, and then they
/// are gone.
pub proof fn only_the_finished_are_dropped(w: &mut World, finished: &Vec<bool>, u: (), c: CharacterScreenClient)
    requires
        finished@.len() == old(w).clients_on_character_screen@.len(),
        call_ensures(World::drop_finished, (w, finished), u),
    ensures
        final(w).clients_on_character_screen@.contains(c) <==> exists|i: int|
            0 <= i < finished@.len() && #[trigger] old(w).clients_on_character_screen@[i] == c && !finished@[i],
        (forall|i: int| 0 <= i < finished@.len() ==> !#[trigger] finished@[i])
            ==> final(w).clients_on_character_screen@ == old(w).clients_on_character_screen@,
        final(w).maps == old(w).maps && final(w).db == old(w).db,
{
    lemma_still_there(old(w).clients_on_character_screen@, finished@, c);
    if forall|i: int| 0 <= i < finished@.len() ==> !#[trigger] finished@[i] {
        lemma_nobody_finished(old(w).clients_on_character_screen@, finished@);
    }
}

/// Who left the world is back on the character screen, behind those who are there, under
/// their account, and waits for nothing.
pub proof fn who_left_is_back(w: &mut World, departed: Vec<Client>, u: (), i: int)
    requires
        call_ensures(World::take_back, (w, departed), u),
    ensures
        ({
            let was = old(w).clients_on_character_screen@;
            let now = final(w).clients_on_character_screen@;
            &&& now.len() == was.len() + departed@.len()
            &&& 0 <= i < was.len() ==> now[i] == was[i]
            &&& 0 <= i < departed@.len() ==> now[was.len() + i].status is CharacterScreen && now[was.len()
                + i].account_name@ == departed@[i]@.account_name
        }),
        final(w).maps == old(w).maps && final(w).db == old(w).db && final(w).registry == old(w).registry,
{
    let was = old(w).clients_on_character_screen@;
    if 0 <= i < was.len() {
        let c = final(w).clients_on_character_screen@[i];
        assert(c == was[i]);
    }
    if 0 <= i < departed@.len() {
        let d = departed@[i];
        assert(is_back(final(w).clients_on_character_screen@[was.len() + i], d@));
    }
}

/// Whether somebody is on a map.
pub open spec fn is_on(maps: Map<u64, MapState>, m: u64, c: ClientView) -> bool {
    maps.contains_key(m) && exists|key: usize| #[trigger] maps[m]@.clients.contains_key(key) && maps[m]@.clients[key] == c
}

proof fn lemma_stays_on(maps: Map<u64, MapState>, was: Map<u64, MapState>, d: ClientView, key: usize, tick: TickConfig, m: u64, c: ClientView)
    requires
        admitted(maps, was, d, key, tick),
    ensures
        is_on(maps, d.character.map as u64, d),
        is_on(was, m, c) ==> is_on(maps, m, c),
{
    assert(maps[d.character.map as u64]@.clients.contains_key(key));
    if is_on(was, m, c) {
        let k = choose|k: usize| #[trigger] was[m]@.clients.contains_key(k) && was[m]@.clients[k] == c;
        assert(maps[m]@.clients.contains_key(k));
    }
}

proof fn lemma_all_on(maps: Map<u64, MapState>, was: Map<u64, MapState>, clients: Seq<ClientView>, tick: TickConfig, i: int, m: u64, c: ClientView)
    requires
        all_admitted(maps, was, clients, tick),
    ensures
        0 <= i < clients.len() ==> is_on(maps, clients[i].character.map as u64, clients[i]),
        is_on(was, m, c) ==> is_on(maps, m, c),
    decreases clients.len(),
{
    if clients.len() > 0 {
        let init = clients.drop_last();
        let (before, key): (Map<u64, MapState>, usize) = choose|before: Map<u64, MapState>, key: usize| #[trigger]
            admitted(maps, before, clients.last(), key, tick) && all_admitted(before, was, init, tick);
        lemma_all_on(before, was, init, tick, i, m, c);
        lemma_stays_on(maps, before, clients.last(), key, tick, m, c);
        if 0 <= i < init.len() {
            assert(init[i] == clients[i]);
            lemma_stays_on(maps, before, clients.last(), key, tick, clients[i].character.map as u64, clients[i]);
        }
    }
}

/// Everybody who changed maps is on the map that they went to, and whoever was on a map still
/// is.
pub proof fn who_changed_maps_arrives(w: &mut World, changers: Vec<Client>, tick: &TickConfig, u: (), i: int, m: u64, c: ClientView)
    requires
        old(w).wf(),
        call_ensures(World::rehome, (w, changers, tick), u),
    ensures
        0 <= i < changers@.len() ==> is_on(final(w).maps@, changers@[i]@.character.map as u64, changers@[i]@),
        is_on(old(w).maps@, m, c) ==> is_on(final(w).maps@, m, c),
        0 <= i < changers@.len() ==> final(w).registry@.players.contains_key(changers@[i]@.character.guid),
        0 < changers@.len() ==> final(w).registry@.by_guid(changers@.last()@.character.guid) == Some(
            crate::creature::Position {
                map: changers@.last()@.character.map,
                place: changers@.last()@.character.info.position,
                orientation: changers@.last()@.character.info.orientation,
            },
        ),
{
    let v = departures::views(changers@);
    lemma_all_on(final(w).maps@, old(w).maps@, v, *tick, i, m, c);
    lemma_all_registered(old(w).registry@, v, i);
    if 0 <= i < changers@.len() {
        assert(v[i] == changers@[i]@);
    }
    if changers@.len() > 0 {
        assert(v.last() == changers@.last()@);
    }
}

proof fn lemma_all_registered(r: RegistryView, clients: Seq<ClientView>, i: int)
    ensures
        0 <= i < clients.len() ==> all_registered(r, clients).players.contains_key(clients[i].character.guid),
    decreases clients.len(),
{
    if clients.len() > 0 {
        lemma_all_registered(r, clients.drop_last(), i);
    }
}

/// A world starts with every creature, as it is, on the map that it is on, and with nobody
/// else.
pub proof fn a_world_starts_with_its_creatures(creatures: Vec<Creature>, db: WorldDatabase, tick: &TickConfig, r: World, m: u64, k: int, key: usize)
    requires
        db.wf(),
        call_ensures(World::with_creatures_and_db, (creatures, db, tick), r),
        r.maps@.contains_key(m),
    ensures
        0 <= k < creatures@.len() && creatures@[k].map == m ==> exists|key: usize|
            #[trigger] r.on_map(m).creatures.contains_key(key) && r.on_map(m).creatures[key] == creatures@[k],
        r.on_map(m).creatures.contains_key(key) ==> r.on_map(m).creatures[key].map == m && creatures@.contains(
            r.on_map(m).creatures[key],
        ),
        r.on_map(m).clients.dom() =~= Set::<usize>::empty(),
        r.clients_on_character_screen@.len() == 0,
        r.db == db,
{
    let own = cell::on_map(creatures@, m as u32);
    assert(is_populated(r.maps@[m], m as u32, own, *tick));
    let (empty, keys): (MapState, Seq<usize>) = choose|empty: MapState, keys: Seq<usize>|
        #![trigger empty@.populated(own, keys)]
        is_empty_map(empty, m as u32, *tick) && keys.no_duplicates() && keys.len() == own.len() && r.maps@[m]@
            == empty@.populated(own, keys);
    crate::spawning::lemma_populated(empty@, own, keys, 0, key);
    if 0 <= k < creatures@.len() && creatures@[k].map == m {
        cell::lemma_on_map(creatures@, m as u32, creatures@[k]);
        assert(creatures@.contains(creatures@[k]));
        let i = choose|i: int| 0 <= i < own.len() && own[i] == creatures@[k];
        crate::spawning::lemma_populated(empty@, own, keys, i, key);
        assert(r.on_map(m).creatures.contains_key(keys[i]));
    }
    if r.on_map(m).creatures.contains_key(key) {
        let i: int = if exists|i: int| 0 <= i < own.len() && keys[i] == key {
            choose|i: int| 0 <= i < own.len() && keys[i] == key
        } else {
            assert forall|j: int| 0 <= j < own.len() implies #[trigger] keys[j] != key by {}
            0
        };
        crate::spawning::lemma_populated(empty@, own, keys, i, key);
        assert(own.contains(own[i]));
        cell::lemma_on_map(creatures@, m as u32, own[i]);
    }
}

pub(crate) proof fn lemma_written(db: DbView, cs: Seq<ClientView>, i: int)
    requires
        0 <= i < cs.len(),
        db.in_step(),
        forall|j: int| i < j < cs.len() ==> (#[trigger] cs[j]).character.guid != cs[i].character.guid,
    ensures
        db.by_guid.contains_key(cs[i].character.guid) ==> tick::all_written(db, cs).by_guid(cs[i].character.guid) == Some(
            cs[i].character,
        ),
    decreases cs.len(),
{
    let init = cs.drop_last();
    lemma_written_keeps(db, init);
    let n = cs.len() - 1;
    assert(cs[n] == cs.last());
    if i < n {
        assert(init[i] == cs[i]);
        assert(cs[n].character.guid != cs[i].character.guid);
        assert forall|j: int| i < j < init.len() implies (#[trigger] init[j]).character.guid
            != init[i].character.guid by {
            assert(init[j] == cs[j]);
        }
        lemma_written(db, init, i);
    }
}

proof fn lemma_written_keeps(db: DbView, cs: Seq<ClientView>)
    requires
        db.in_step(),
    ensures
        tick::all_written(db, cs).by_guid == db.by_guid,
        tick::all_written(db, cs).rows.len() == db.rows.len(),
        forall|g: u64|
            (forall|j: int| 0 <= j < cs.len() ==> (#[trigger] cs[j]).character.guid != g)
                ==> #[trigger] tick::all_written(db, cs).by_guid(g) == db.by_guid(g),
    decreases cs.len(),
{
    if cs.len() > 0 {
        let init = cs.drop_last();
        lemma_written_keeps(db, init);
        assert forall|g: u64| (forall|j: int| 0 <= j < cs.len() ==> (#[trigger] cs[j]).character.guid != g) implies
            #[trigger] tick::all_written(db, cs).by_guid(g) == db.by_guid(g) by {
            assert(cs[cs.len() - 1].character.guid != g);
            assert forall|j: int| 0 <= j < init.len() implies (#[trigger] init[j]).character.guid != g by {
                assert(init[j] == cs[j]);
            }
            assert(tick::all_written(db, init).by_guid(g) == db.by_guid(g));
        }
    }
}

/// Everybody on a map whom the database knows is found there as they are once they were
/// written back, and nobody who is not on the map is touched.
pub proof fn who_is_written_back_is_kept(m: &MapState, db: &mut WorldDatabase, u: (), k: usize, g: u64)
    requires
        m.wf(),
        m@.in_step(),
        old(db).wf(),
        old(db)@.in_step(),
        call_ensures(MapState::write_back, (m, db), u),
        m@.clients.contains_key(k),
    ensures
        old(db)@.by_guid(m@.clients[k].character.guid) is Some ==> final(db)@.by_guid(m@.clients[k].character.guid)
            == Some(m@.clients[k].character),
        (forall|j: usize| #[trigger] m@.clients.contains_key(j) ==> m@.clients[j].character.guid != g)
            ==> final(db)@.by_guid(g) == old(db)@.by_guid(g),
        final(db)@.rows.len() == old(db)@.rows.len(),
{
    map_state::clients_are_in_order(*m);
    let keys = slabs::ordered(m@.clients.dom());
    let cs = roster(m@);
    assert(keys.contains(k));
    let i = choose|i: int| 0 <= i < keys.len() && keys[i] == k;
    assert(cs[i] == m@.clients[k]);
    assert forall|j: int| i < j < cs.len() implies (#[trigger] cs[j]).character.guid != cs[i].character.guid by {
        assert(cs[j] == m@.clients[keys[j]]);
        assert(keys.contains(keys[j]));
        assert(m@.clients.contains_key(keys[j]));
        assert(keys[i] != keys[j]);
    }
    lemma_written(old(db)@, cs, i);
    lemma_written_keeps(old(db)@, cs);
    if forall|j: usize| #[trigger] m@.clients.contains_key(j) ==> m@.clients[j].character.guid != g {
        assert forall|j: int| 0 <= j < cs.len() implies (#[trigger] cs[j]).character.guid != g by {
            assert(cs[j] == m@.clients[keys[j]]);
            assert(keys.contains(keys[j]));
            assert(m@.clients.contains_key(keys[j]));
        }
        assert(tick::all_written(old(db)@, cs).by_guid(g) == old(db)@.by_guid(g));
    }
}

proof fn lemma_speaker(s: Seq<PerCellTickResult>, from: int, i: int)
    requires
        0 <= from <= i < s.len(),
        !s[i].skipped,
        forall|j: int| from <= j < i ==> (#[trigger] s[j]).skipped,
    ensures
        speaker(s, from) == s[i],
    decreases i - from,
{
    if from < i {
        assert(s[from].skipped);
        lemma_speaker(s, from + 1, i);
    }
}

/// The first map that was not left out stands for all.
pub proof fn the_first_that_ticked_speaks(s: &Vec<PerCellTickResult>, r: PerCellTickResult, i: int)
    requires
        call_ensures(representative, (s,), r),
        0 <= i < s@.len(),
        !s@[i].skipped,
        forall|j: int| 0 <= j < i ==> (#[trigger] s@[j]).skipped,
    ensures
        r == s@[i],
{
    lemma_speaker(s@, 0, i);
}

/// What went out since the last count is counted, and the next count goes on from there.
pub proof fn packets_are_counted_once(w: &mut World, now: u64, r: u64)
    requires
        call_ensures(World::count_packets, (w, now), r),
        now >= old(w).last_packet_sample,
    ensures
        r == now - old(w).last_packet_sample,
        final(w).last_packet_sample == now,
        final(w).maps == old(w).maps && final(w).db == old(w).db,
{
}

proof fn lemma_most(s: Seq<PerCellTickResult>, i: int)
    ensures
        0 <= i < s.len() ==> most(s) >= s[i].census.clients,
        s.len() > 0 ==> exists|j: int| 0 <= j < s.len() && (#[trigger] s[j]).census.clients == most(s),
    decreases s.len(),
{
    if s.len() > 0 {
        let init = s.drop_last();
        lemma_most(init, i);
        assert(s[s.len() - 1] == s.last());
        if init.len() > 0 && !(s.last().census.clients >= most(init)) {
            let j = choose|j: int| 0 <= j < init.len() && (#[trigger] init[j]).census.clients == most(init);
            assert(s[j].census.clients == most(s));
        }
    }
}

/// With one more map, what is on it is added to each total; the fullest map is the one with
/// most players.
pub proof fn totals_add_up(
    s: &Vec<PerCellTickResult>,
    before: &Vec<PerCellTickResult>,
    t: Totals,
    was: Totals,
    i: int,
)
    requires
        sums_fit(s@),
        sums_fit(before@),
        call_ensures(total_up, (s,), t),
        call_ensures(total_up, (before,), was),
        s@.len() > 0,
        before@ == s@.drop_last(),
    ensures
        ({
            let c = s@.last().census;
            &&& t.clients == was.clients + c.clients
            &&& t.creatures == was.creatures + c.creatures
            &&& t.idle == was.idle + c.idle
            &&& t.wander == was.wander + c.wander
            &&& t.waypoint == was.waypoint + c.waypoint
            &&& t.aggro == was.aggro + c.aggro
            &&& 0 <= i < s@.len() ==> t.most_clients >= s@[i].census.clients
            &&& exists|j: int| 0 <= j < s@.len() && (#[trigger] s@[j]).census.clients == t.most_clients
            &&& before@.len() == 0 ==> was.clients == 0 && was.creatures == 0 && was.idle == 0 && was.wander == 0
                && was.waypoint == 0 && was.aggro == 0
        }),
{
    lemma_most(s@, i);
}

/// The time of all phases is their sum.
pub proof fn the_time_of_a_tick_is_that_of_its_phases(t: &PerCellTickResult, r: u64)
    requires
        t.total() <= u64::MAX,
        call_ensures(PerCellTickResult::t_cell_total, (t,), r),
    ensures
        r == t.t_per_client + t.t_build_view + t.t_flush + t.t_aoi + t.t_apply_cmds + t.t_corpses + t.t_creatures
            + t.t_logouts,
{
}

/// A map that was not there is there afterwards, with nobody on it; one that was there stays
/// as it is, and so do all others.
pub proof fn a_map_is_there_when_needed(w: &mut World, map: u32, tick: &TickConfig, u: (), other: u64)
    requires
        old(w).wf(),
        call_ensures(World::ensure_map_exists, (w, map, tick), u),
    ensures
        final(w).maps@.contains_key(map as u64),
        final(w).on_map(map as u64).map == map,
        !old(w).maps@.contains_key(map as u64) ==> final(w).on_map(map as u64).clients.dom() =~= Set::<usize>::empty()
            && final(w).on_map(map as u64).creatures.dom() =~= Set::<usize>::empty(),
        old(w).maps@.contains_key(other) ==> final(w).maps@.contains_key(other) && final(w).maps@[other]
            == old(w).maps@[other],
        other != map as u64 ==> (final(w).maps@.contains_key(other) <==> old(w).maps@.contains_key(other)),
{
}

/// The next who enters is the first who waits, with the character that they wait with; nobody
/// enters once as many have as may.
pub proof fn the_next_who_waits_enters(w: &mut World, promoted: u32, max: u32, r: Option<Turn>, i: int)
    requires
        old(w).wf(),
        call_ensures(World::next_promotion, (w, promoted, max), r),
    ensures
        ({
            let s = old(w).clients_on_character_screen@;
            &&& max > 0 && promoted >= max ==> r is None && final(w).clients_on_character_screen@ == s
            &&& (max == 0 || promoted < max) && 0 <= i < s.len() && s[i].status is WaitingToLogIn && (forall|j: int|
                0 <= j < i ==> !((#[trigger] s[j]).status is WaitingToLogIn)) ==> {
                let c = old(w).db@.by_guid(s[i].status->WaitingToLogIn_0);
                &&& r is Some && r->0.at == i
                &&& final(w).clients_on_character_screen@ == s.remove(i)
                &&& c is Some ==> r->0.what is Ready && r->0.what->Ready_0@.character == c->0
                    && r->0.what->Ready_0@.account_name == s[i].account_name@
                &&& c is None ==> r->0.what is Dropped
            }
            &&& (forall|j: int| 0 <= j < s.len() ==> !((#[trigger] s[j]).status is WaitingToLogIn)) ==> r is None
        }),
{
    let s = old(w).clients_on_character_screen@;
    if let Some(k) = first_waiting(s, 0) {
        the_first_who_waits_enters_first(s, 0, i);
        if 0 <= i < s.len() && s[i].status is WaitingToLogIn {
            assert(s[k].status is WaitingToLogIn);
        }
    } else {
        the_first_who_waits_enters_first(s, 0, i);
    }
}

proof fn lemma_rosters(maps: Map<u64, MapState>, order: Seq<u64>, m: u64, c: ClientView)
    requires
        order.contains(m),
        roster(maps[m]@).contains(c),
    ensures
        rosters(maps, order).contains(c),
    decreases order.len(),
{
    let init = order.drop_last();
    let a = rosters(maps, init);
    let b = roster(maps[order.last()]@);
    assert(order =~= init.push(order.last()));
    crate::aoi::lemma_push_contains(init, order.last(), m);
    if init.contains(m) {
        lemma_rosters(maps, init, m, c);
        let i = choose|i: int| 0 <= i < a.len() && a[i] == c;
        assert((a + b)[i] == c);
    } else {
        let i = choose|i: int| 0 <= i < b.len() && b[i] == c;
        assert((a + b)[a.len() + i] == c);
    }
}

proof fn lemma_last_with(cs: Seq<ClientView>, g: u64, i: int) -> (j: int)
    requires
        0 <= i < cs.len(),
        cs[i].character.guid == g,
    ensures
        i <= j < cs.len(),
        cs[j].character.guid == g,
        forall|k: int| j < k < cs.len() ==> (#[trigger] cs[k]).character.guid != g,
    decreases cs.len() - i,
{
    if exists|k: int| i < k < cs.len() && (#[trigger] cs[k]).character.guid == g {
        let k = choose|k: int| i < k < cs.len() && (#[trigger] cs[k]).character.guid == g;
        lemma_last_with(cs, g, k)
    } else {
        i
    }
}

/// Everybody in the world whom the database knows is written back: what is kept of them then
/// is the character of somebody with that guid who is in the world.
pub proof fn everybody_is_written_back(w: &mut World, u: (), m: u64, k: usize)
    requires
        old(w).wf(),
        old(w).db@.in_step(),
        call_ensures(World::sync_clients_to_db, (w,), u),
        old(w).maps@.contains_key(m),
        old(w).on_map(m).clients.contains_key(k),
        old(w).db@.by_guid(old(w).on_map(m).clients[k].character.guid) is Some,
        forall|m2: u64, k2: usize|
            old(w).maps@.contains_key(m2) && #[trigger] old(w).on_map(m2).clients.contains_key(k2) && old(w).on_map(
                m2,
            ).clients[k2].character.guid == old(w).on_map(m).clients[k].character.guid ==> m2 == m && k2 == k,
    ensures
        final(w).db@.by_guid(old(w).on_map(m).clients[k].character.guid) == Some(old(w).on_map(m).clients[k].character),
        final(w).maps == old(w).maps,
{
    let maps = old(w).maps@;
    let order = choose|order: Seq<u64>| #[trigger]
        tables::lists(order, maps.dom()) && final(w).db@ == tick::all_written(old(w).db@, rosters(maps, order));
    let c = old(w).on_map(m).clients[k];
    let cs = rosters(maps, order);
    assert(order.contains(m));
    map_state::clients_are_in_order(maps[m]);
    let keys = slabs::ordered(maps[m]@.clients.dom());
    assert(keys.contains(k));
    let at = choose|at: int| 0 <= at < keys.len() && keys[at] == k;
    assert(roster(maps[m]@)[at] == c);
    lemma_rosters(maps, order, m, c);
    let i = choose|i: int| 0 <= i < cs.len() && cs[i] == c;
    let j = lemma_last_with(cs, c.character.guid, i);
    assert forall|i: int| 0 <= i < order.len() implies maps.contains_key(#[trigger] order[i]) by {
        assert(order.contains(order[i]));
        assert(maps.dom().contains(order[i]));
    }
    lemma_from_a_map(maps, order, *old(w), j);
    let (m2, k2): (u64, usize) = choose|m2: u64, k2: usize|
        maps.contains_key(m2) && #[trigger] old(w).on_map(m2).clients.contains_key(k2) && old(w).on_map(m2).clients[k2]
            == cs[j];
    assert(cs[j] == c);
    lemma_written(old(w).db@, cs, j);
}

proof fn lemma_from_a_map(maps: Map<u64, MapState>, order: Seq<u64>, w: World, j: int)
    requires
        w.wf(),
        maps == w.maps@,
        forall|i: int| 0 <= i < order.len() ==> maps.contains_key(#[trigger] order[i]),
        0 <= j < rosters(maps, order).len(),
    ensures
        exists|m2: u64, k2: usize|
            maps.contains_key(m2) && #[trigger] w.on_map(m2).clients.contains_key(k2) && w.on_map(m2).clients[k2]
                == rosters(maps, order)[j],
    decreases order.len(),
{
    let init = order.drop_last();
    let a = rosters(maps, init);
    let l = order.last();
    assert(order[order.len() - 1] == l);
    let b = roster(maps[l]@);
    if j < a.len() {
        assert forall|i: int| 0 <= i < init.len() implies maps.contains_key(#[trigger] init[i]) by {
            assert(init[i] == order[i]);
        }
        lemma_from_a_map(maps, init, w, j);
    } else {
        map_state::clients_are_in_order(maps[l]);
        let keys = slabs::ordered(maps[l]@.clients.dom());
        let k2 = keys[j - a.len()];
        assert(keys.contains(k2));
        assert(w.on_map(l).clients.contains_key(k2));
        assert(b[j - a.len()] == w.on_map(l).clients[k2]);
    }
}

} // verus!

//! Registers that every map of the world shares: who is online where, and how
//! the tick rate of each map stands.
use crate::creature::{Creature, Position};
use crate::keyed::KeyedTable;
use crate::tables;
use crate::text;
use ahash::AHashMap;
use vstd::prelude::*;

verus! {

/// Where a player was when they entered their map.
pub struct PlayerRegistryEntry {
    pub guid: u64,
    pub name: String,
    pub position: Position,
}

/// Everybody who is online, by guid and by name without regard to case.
pub struct PlayerRegistry {
    players: KeyedTable<PlayerRegistryEntry>,
    name_index: AHashMap<String, u64>,
}

/// The register of players, as contracts speak of it.
#[verifier::ext_equal]
pub struct RegistryView {
    pub players: Map<u64, PlayerRegistryEntry>,
    pub names: Map<Seq<char>, u64>,
}

impl View for PlayerRegistry {
    type V = RegistryView;

    closed spec fn view(&self) -> RegistryView {
        RegistryView { players: self.players@, names: tables::names(self.name_index) }
    }
}

impl RegistryView {
    pub open spec fn registered(self, entry: PlayerRegistryEntry) -> RegistryView {
        RegistryView {
            players: self.players.insert(entry.guid, entry),
            names: self.names.insert(text::lowercased(entry.name@), entry.guid),
        }
    }

    pub open spec fn unregistered(self, guid: u64) -> RegistryView {
        RegistryView {
            players: self.players.remove(guid),
            names: if self.players.contains_key(guid) {
                self.names.remove(text::lowercased(self.players[guid].name@))
            } else {
                self.names
            },
        }
    }

    /// Where the player with that guid was last registered.
    pub open spec fn by_guid(self, guid: u64) -> Option<Position> {
        if self.players.contains_key(guid) {
            Some(self.players[guid].position)
        } else {
            None
        }
    }

    /// Where the player with that name was last registered.
    pub open spec fn by_name(self, name: Seq<char>) -> Option<Position> {
        if self.names.contains_key(text::lowercased(name)) {
            self.by_guid(self.names[text::lowercased(name)])
        } else {
            None
        }
    }
}

impl PlayerRegistry {
    pub closed spec fn wf(&self) -> bool {
        self.players.wf()
    }

    pub fn new() -> (r: Self)
        ensures
            r.wf(),
            r@ == (RegistryView { players: Map::empty(), names: Map::empty() }),
    {
        PlayerRegistry { players: KeyedTable::new(), name_index: tables::names_new() }
    }

    pub fn register_player(&mut self, entry: PlayerRegistryEntry)
        requires
            old(self).wf(),
        ensures
            final(self).wf(),
            final(self)@ == old(self)@.registered(entry),
    {
        let name = text::to_lowercase(entry.name.as_str());
        let guid: u64 = entry.guid;
        self.players.insert(guid, entry);
        tables::names_insert(&mut self.name_index, name, guid);
    }

    pub fn unregister_player(&mut self, guid: u64)
        requires
            old(self).wf(),
        ensures
            final(self).wf(),
            final(self)@ == old(self)@.unregistered(guid),
    {
        match self.players.remove(guid) {
            Some(entry) => {
                let name = text::to_lowercase(entry.name.as_str());
                tables::names_remove(&mut self.name_index, name.as_str());
            },
            None => {},
        }
    }

    pub fn lookup_player_position(&self, guid: u64) -> (r: Option<Position>)
        requires
            self.wf(),
        ensures
            r == self@.by_guid(guid),
    {
        match self.players.get(guid) {
            Some(entry) => Some(entry.position),
            None => None,
        }
    }

    pub fn lookup_player_position_by_name(&self, name: &str) -> (r: Option<Position>)
        requires
            self.wf(),
        ensures
            r == self@.by_name(name@),
    {
        let name = text::to_lowercase(name);
        match tables::names_get(&self.name_index, name.as_str()) {
            Some(guid) => self.lookup_player_position(guid),
            None => None,
        }
    }
}

/// A registered player is found by their guid, and by their name in whatever
/// case it is written.
pub proof fn a_registered_player_is_found(r: RegistryView, entry: PlayerRegistryEntry, name: Seq<char>)
    requires
        text::lowercased(name) == text::lowercased(entry.name@),
    ensures
        r.registered(entry).by_guid(entry.guid) == Some(entry.position),
        r.registered(entry).by_name(name) == Some(entry.position),
{
}

/// A player who leaves is found no more, neither by guid nor by name; players
/// with another guid are still found by theirs.
pub proof fn a_player_who_left_is_not_found(r: RegistryView, guid: u64, other: u64)
    requires
        r.players.contains_key(guid),
        other != guid,
    ensures
        r.unregistered(guid).by_guid(guid) is None,
        r.unregistered(guid).by_name(r.players[guid].name@) is None,
        r.unregistered(guid).by_guid(other) == r.by_guid(other),
{
}

/// How the tick rate of a map stands.
#[derive(Debug, Clone, Copy)]
pub struct PacerSnapshot {
    pub current_interval_ms: u64,
    pub slow_ema: u32,
    pub healthy_streak: u32,
    pub last_tick_ms: u64,
}

/// The tick rates of all maps, by map.
pub struct PacerStates {
    states: KeyedTable<PacerSnapshot>,
}

impl View for PacerStates {
    type V = Map<u64, PacerSnapshot>;

    closed spec fn view(&self) -> Map<u64, PacerSnapshot> {
        self.states@
    }
}

impl PacerStates {
    pub closed spec fn wf(&self) -> bool {
        self.states.wf()
    }

    pub fn new() -> (r: Self)
        ensures
            r.wf(),
            r@ == Map::<u64, PacerSnapshot>::empty(),
    {
        PacerStates { states: KeyedTable::new() }
    }

    pub fn publish_pacer_state(&mut self, map: u32, snap: PacerSnapshot)
        requires
            old(self).wf(),
        ensures
            final(self).wf(),
            final(self)@ == old(self)@.insert(map as u64, snap),
    {
        self.states.insert(map as u64, snap);
    }

    pub fn get(&self, map: u32) -> (r: Option<PacerSnapshot>)
        requires
            self.wf(),
        ensures
            r == (if self@.contains_key(map as u64) {
                Some(self@[map as u64])
            } else {
                None
            }),
    {
        match self.states.get(map as u64) {
            Some(s) => Some(*s),
            None => None,
        }
    }
}

/// The creatures of `s` that are on `map`, in the order of `s`.
pub open spec fn on_map(s: Seq<Creature>, map: u32) -> Seq<Creature> {
    s.filter(|c: Creature| c.map == map)
}

/// The creatures of one map.
pub struct MapCreatures {
    pub map: u32,
    pub creatures: Vec<Creature>,
}

/// Whether `map` is one of the maps of `r`.
pub open spec fn lists_map(r: Seq<MapCreatures>, map: u32) -> bool {
    exists|i: int| 0 <= i < r.len() && (#[trigger] r[i]).map == map
}

/// Sort creatures by the map they are on. Each map that somebody is on stands
/// once, and the creatures of a map keep their order.
pub fn partition_creatures(all: Vec<Creature>) -> (r: Vec<MapCreatures>)
    ensures
        forall|i: int, j: int| 0 <= i < j < r@.len() ==> (#[trigger] r@[i]).map != (#[trigger] r@[j]).map,
        forall|i: int| 0 <= i < r@.len() ==> (#[trigger] r@[i]).creatures@ == on_map(all@, r@[i].map)
            && r@[i].creatures@.len() > 0,
        forall|k: int| 0 <= k < all@.len() ==> lists_map(r@, (#[trigger] all@[k]).map),
{
    let ghost input = all@;
    let mut rest = all;
    let mut r: Vec<MapCreatures> = Vec::new();
    let ghost mut done: int = 0;
    while rest.len() > 0
        invariant
            0 <= done <= input.len(),
            rest@ == input.skip(done),
            forall|i: int, j: int| 0 <= i < j < r@.len() ==> (#[trigger] r@[i]).map != (#[trigger] r@[j]).map,
            forall|i: int| 0 <= i < r@.len() ==> (#[trigger] r@[i]).creatures@ == on_map(input.take(done), r@[i].map)
                && r@[i].creatures@.len() > 0,
            forall|k: int| 0 <= k < done ==> lists_map(r@, (#[trigger] input[k]).map),
        decreases rest.len(),
    {
        let c = rest.remove(0);
        assert(c == input[done]);
        let map: u32 = c.map;
        let ghost before = r@;
        let mut i: usize = 0;
        while i < r.len() && r[i].map != map
            invariant
                r@ == before,
                i <= r.len(),
                forall|j: int| 0 <= j < i ==> (#[trigger] r@[j]).map != map,
            decreases r.len() - i,
        {
            i += 1;
        }
        proof {
            assert(input.take(done + 1).drop_last() =~= input.take(done));
            assert forall|m: u32| #[trigger] on_map(input.take(done + 1), m) == (if m == map {
                on_map(input.take(done), m).push(c)
            } else {
                on_map(input.take(done), m)
            }) by {
                reveal(Seq::filter);
                assert(input.take(done + 1).last() == c);
            }
        }
        if i < r.len() {
            r[i].creatures.push(c);
        } else {
            let mut creatures: Vec<Creature> = Vec::new();
            creatures.push(c);
            proof {
                assert(on_map(input.take(done), map) =~= Seq::<Creature>::empty()) by {
                    lemma_none_on_map(input.take(done), map);
                }
                assert(creatures@ =~= on_map(input.take(done + 1), map));
            }
            r.push(MapCreatures { map, creatures });
        }
        proof {
            assert(r@[i as int].map == map);
            assert forall|k: int| 0 <= k < done + 1 implies lists_map(r@, (#[trigger] input[k]).map) by {
                if k < done {
                    let j = choose|j: int| 0 <= j < before.len() && before[j].map == input[k].map;
                    assert(r@[j].map == before[j].map);
                } else {
                    assert(r@[i as int].map == input[k].map);
                }
            }
            done = done + 1;
            assert(rest@ =~= input.skip(done));
        }
    }
    proof {
        assert(input.take(done) =~= input);
        assert forall|k: int| 0 <= k < all@.len() implies lists_map(r@, (#[trigger] all@[k]).map) by {
            assert(lists_map(r@, input[k].map));
        }
    }
    r
}

proof fn lemma_none_on_map(s: Seq<Creature>, map: u32)
    requires
        forall|k: int| 0 <= k < s.len() ==> (#[trigger] s[k]).map != map,
    ensures
        on_map(s, map).len() == 0,
    decreases s.len(),
{
    reveal(Seq::filter);
    if s.len() > 0 {
        assert forall|k: int| 0 <= k < s.drop_last().len() implies (#[trigger] s.drop_last()[k]).map != map by {
            assert(s[k].map != map);
        }
        lemma_none_on_map(s.drop_last(), map);
        assert(s.last().map != map);
    }
}

/// A player who is registered is found by guid and by name where they are, and nobody else
/// is found elsewhere for it.
pub proof fn who_is_registered_is_found(
    reg: &mut PlayerRegistry,
    entry: PlayerRegistryEntry,
    u: (),
    after: &PlayerRegistry,
    guid: u64,
    at: Option<Position>,
    name: &str,
    called: Option<Position>,
)
    requires
        old(reg).wf(),
        call_ensures(PlayerRegistry::register_player, (reg, entry), u),
        *after == *final(reg),
        call_ensures(PlayerRegistry::lookup_player_position, (after, guid), at),
        call_ensures(PlayerRegistry::lookup_player_position_by_name, (after, name), called),
    ensures
        guid == entry.guid ==> at == Some(entry.position),
        guid != entry.guid ==> at == old(reg)@.by_guid(guid),
        name@ == entry.name@ ==> called == Some(entry.position),
        !final(reg)@.names.contains_key(text::lowercased(name@)) ==> called is None,
{
}

/// A player who is unregistered is found no more, by guid or by name, and others are found as
/// before.
pub proof fn who_is_unregistered_is_not_found(
    reg: &mut PlayerRegistry,
    guid: u64,
    u: (),
    after: &PlayerRegistry,
    other: u64,
    at: Option<Position>,
    name: &str,
    called: Option<Position>,
)
    requires
        old(reg).wf(),
        call_ensures(PlayerRegistry::unregister_player, (reg, guid), u),
        *after == *final(reg),
        call_ensures(PlayerRegistry::lookup_player_position, (after, other), at),
        call_ensures(PlayerRegistry::lookup_player_position_by_name, (after, name), called),
    ensures
        other == guid ==> at is None,
        other != guid ==> at == old(reg)@.by_guid(other),
        old(reg)@.players.contains_key(guid) && name@ == old(reg)@.players[guid].name@ ==> called is None,
{
}

/// How the tick rate of a map stands is what was published of it last, and other maps are
/// not touched.
pub proof fn the_last_tick_rate_is_kept(
    s: &mut PacerStates,
    map: u32,
    snap: PacerSnapshot,
    u: (),
    after: &PacerStates,
    other: u32,
    r: Option<PacerSnapshot>,
)
    requires
        old(s).wf(),
        call_ensures(PacerStates::publish_pacer_state, (s, map, snap), u),
        *after == *final(s),
        call_ensures(PacerStates::get, (after, other), r),
    ensures
        other == map ==> r == Some(snap),
        other != map ==> (r is Some <==> old(s)@.contains_key(other as u64)),
        other != map && r is Some ==> r->0 == old(s)@[other as u64],
{
}

pub(crate) proof fn lemma_on_map(s: Seq<Creature>, map: u32, c: Creature)
    ensures
        on_map(s, map).contains(c) <==> s.contains(c) && c.map == map,
    decreases s.len(),
{
    reveal(Seq::filter);
    if s.len() > 0 {
        let init = s.drop_last();
        lemma_on_map(init, map, c);
        assert(s =~= init.push(s.last()));
        crate::aoi::lemma_push_contains(init, s.last(), c);
        crate::aoi::lemma_push_contains(on_map(init, map), s.last(), c);
    }
}

/// A creature goes to the map that it is on, and to no other, and all who are on a listed
/// map go there.
pub proof fn creatures_go_to_their_maps(all: Vec<Creature>, r: Vec<MapCreatures>, k: int, i: int, j: int)
    requires
        call_ensures(partition_creatures, (all,), r),
    ensures
        0 <= k < all@.len() && 0 <= i < r@.len() ==> (r@[i].creatures@.contains(all@[k]) <==> all@[k].map == r@[i].map),
        0 <= i < r@.len() && 0 <= j < r@[i].creatures@.len() ==> r@[i].creatures@[j].map == r@[i].map
            && all@.contains(r@[i].creatures@[j]),
        0 <= i < j < r@.len() ==> r@[i].map != r@[j].map,
        0 <= i < r@.len() ==> r@[i].creatures@.len() > 0,
{
    if 0 <= k < all@.len() && 0 <= i < r@.len() {
        lemma_on_map(all@, r@[i].map, all@[k]);
        assert(all@.contains(all@[k]));
    }
    if 0 <= i < r@.len() && 0 <= j < r@[i].creatures@.len() {
        lemma_on_map(all@, r@[i].map, r@[i].creatures@[j]);
        assert(on_map(all@, r@[i].map).contains(r@[i].creatures@[j]));
    }
}

} // verus!

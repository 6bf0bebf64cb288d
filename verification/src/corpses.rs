//! Corpses that rot away, and creatures that come back.
use crate::client::ClientView;
use crate::clock;
use crate::creature::{Creature, CreatureLifeState};
use crate::map_state;
use crate::map_state::{MapState, MapView};
use crate::movement::MovementInfo;
use crate::notice::{Audience, Notice, Outgoing};
use crate::slabs;
use std::sync::Arc;
use vstd::prelude::*;

verus! {

/// Whether the creature is a corpse that has lain long enough.
pub open spec fn decays(c: Creature, now: u64, despawn: u64) -> bool {
    match c.life_state {
        CreatureLifeState::Corpse { died_at } => clock::since_spec(now, died_at) >= despawn,
        _ => false,
    }
}

/// Whether the time has come for the creature to be back.
pub open spec fn revives(c: Creature, now: u64) -> bool {
    match c.life_state {
        CreatureLifeState::Respawning { respawn_at } => now >= respawn_at,
        _ => false,
    }
}

/// A corpse that is gone; the creature comes back after its respawn delay.
pub open spec fn rotten(c: Creature, now: u64) -> Creature {
    Creature {
        life_state: CreatureLifeState::Respawning { respawn_at: clock::later_spec(now, c.respawn_delay) },
        ..c
    }
}

/// A creature that is back: unhurt, at rest, where it was spawned.
pub open spec fn reborn(c: Creature, now: u64) -> Creature {
    let bare = Creature {
        life_state: CreatureLifeState::Alive,
        last_alive_at: now,
        health: c.max_health,
        info: MovementInfo { position: c.spawn_position, orientation: c.spawn_orientation, flags: 0, ..c.info },
        cached_object: None,
        ..c
    };
    Creature { cached_object: Some(Arc::new(bare.frame())), ..bare }
}

/// The clients after nobody shows `guid` any more.
pub open spec fn hidden(clients: Map<usize, ClientView>, guid: u64) -> Map<usize, ClientView> {
    clients.map_values(|c: ClientView| ClientView { visible: c.visible.remove(guid), ..c })
}

/// The clients after those of `near` that are on `map` show `guid`.
pub open spec fn shown(clients: Map<usize, ClientView>, near: Seq<usize>, map: u32, guid: u64) -> Map<usize, ClientView> {
    Map::new(
        |k: usize| clients.contains_key(k),
        |k: usize|
            if near.contains(k) && clients[k].character.map == map {
                ClientView { visible: clients[k].visible.insert(guid), ..clients[k] }
            } else {
                clients[k]
            },
    )
}

impl MapView {
    /// The corpses that rot away now.
    pub open spec fn decaying(self, now: u64, despawn: u64) -> Seq<usize> {
        slabs::ordered(self.creatures.dom()).filter(|k: usize| decays(self.creatures[k], now, despawn))
    }

    /// The creatures that come back now.
    pub open spec fn reviving(self, now: u64) -> Seq<usize> {
        slabs::ordered(self.creatures.dom()).filter(|k: usize| revives(self.creatures[k], now))
    }

    /// After the corpse `key` rotted away: it is nowhere, and nobody shows it.
    pub open spec fn decayed(self, key: usize, now: u64) -> MapView {
        MapView {
            creatures: self.creatures.insert(key, rotten(self.creatures[key], now)),
            creature_cells: self.creature_cells.remove(key),
            clients: hidden(self.clients, self.creatures[key].guid),
            ..self
        }
    }

    pub open spec fn told_of_decay(self, key: usize) -> Outgoing {
        let c = self.creatures[key];
        Outgoing {
            to: Audience::Near { map: c.map, place: c.info.position },
            what: Notice::Destroy { guid: c.guid },
        }
    }

    /// After the creature `key` came back: it does what it does, stands in the
    /// index, and the clients of `near` on its map show it.
    pub open spec fn revived(self, key: usize, now: u64, near: Seq<usize>) -> MapView {
        let c = self.creatures[key];
        let back = (MapView { creatures: self.creatures.insert(key, reborn(c, now)), ..self }).listed(key).seated(key);
        MapView { clients: shown(back.clients, near, c.map, c.guid), ..back }
    }

    pub open spec fn told_of_revival(self, key: usize, now: u64) -> Outgoing {
        let c = reborn(self.creatures[key], now);
        Outgoing {
            to: Audience::Near { map: c.map, place: c.info.position },
            what: Notice::ShowUnit { frame: c.frame() },
        }
    }

    /// After the corpses `keys` rotted away, one after the other.
    pub open spec fn all_decayed(self, keys: Seq<usize>, now: u64) -> MapView
        decreases keys.len(),
    {
        if keys.len() == 0 {
            self
        } else {
            self.all_decayed(keys.drop_last(), now).decayed(keys.last(), now)
        }
    }

    /// After the creatures `keys` came back, one after the other.
    pub open spec fn all_revived(self, keys: Seq<usize>, now: u64, near: Seq<Seq<usize>>) -> MapView
        decreases keys.len(),
    {
        if keys.len() == 0 {
            self
        } else {
            self.all_revived(keys.drop_last(), now, near).revived(keys.last(), now, near[keys.len() - 1])
        }
    }
}

/// The elements of a list of lists.
pub open spec fn lists_of(near: Seq<Vec<usize>>) -> Seq<Seq<usize>> {
    near.map_values(|v: Vec<usize>| v@)
}

impl MapState {
    /// Nobody shows `guid` any more.
    pub fn hide_everywhere(&mut self, guid: u64)
        requires
            old(self).wf(),
        ensures
            final(self).wf(),
            old(self)@.index_is_live() ==> final(self)@.index_is_live(),
            final(self)@ == (MapView { clients: hidden(old(self)@.clients, guid), ..old(self)@ }),
            final(self).creatures == old(self).creatures,
    {
        let ghost was = self@;
        let keys = slabs::clients_keys(&self.clients);
        let mut i: usize = 0;
        while i < keys.len()
            invariant
                i <= keys.len(),
                self.wf(),
                old(self)@.index_is_live() ==> self@.index_is_live(),
                self.creatures == old(self).creatures,
                slabs::in_order(keys@, was.clients.dom()),
                self@ == (MapView { clients: self@.clients, ..was }),
                self@.clients.dom() == was.clients.dom(),
                forall|j: int| 0 <= j < i ==> self@.clients[#[trigger] keys@[j]] == hidden(was.clients, guid)[keys@[j]],
                forall|j: int| i <= j < keys@.len() ==> self@.clients[#[trigger] keys@[j]] == was.clients[keys@[j]],
            decreases keys.len() - i,
        {
            let key: usize = keys[i];
            assert(keys@.contains(key));
            let ghost before = self@;
            match slabs::clients_get_mut(&mut self.clients, key) {
                Some(c) => {
                    c.forget(guid);
                },
                None => {},
            }
            proof {
                assert(self@.clients =~= before.clients.insert(key, hidden(was.clients, guid)[key]));
                assert(self@.clients.dom() =~= was.clients.dom());
                assert(self@ =~= MapView { clients: self@.clients, ..was });
                map_state::who_is_indexed_stays_indexed(before, self@);
            }
            i += 1;
        }
        proof {
            assert forall|k: usize| was.clients.contains_key(k) implies #[trigger] self@.clients[k] == hidden(
                was.clients,
                guid,
            )[k] by {
                assert(keys@.contains(k));
                let j = choose|j: int| 0 <= j < keys@.len() && keys@[j] == k;
                assert(self@.clients[keys@[j]] == hidden(was.clients, guid)[keys@[j]]);
            }
            assert(self@.clients =~= hidden(was.clients, guid));
        }
    }

    /// The clients of `near` that are on `map` show `guid` from now on.
    pub fn show_to(&mut self, near: &Vec<usize>, map: u32, guid: u64)
        requires
            old(self).wf(),
        ensures
            final(self).wf(),
            old(self)@.index_is_live() ==> final(self)@.index_is_live(),
            final(self)@ == (MapView { clients: shown(old(self)@.clients, near@, map, guid), ..old(self)@ }),
    {
        let ghost was = self@;
        let mut i: usize = 0;
        assert(shown(was.clients, near@.take(0), map, guid) =~= was.clients);
        while i < near.len()
            invariant
                i <= near.len(),
                self.wf(),
                old(self)@.index_is_live() ==> self@.index_is_live(),
                self@ == (MapView { clients: shown(was.clients, near@.take(i as int), map, guid), ..was }),
            decreases near.len() - i,
        {
            let key: usize = near[i];
            let ghost before = self@;
            proof {
                let a = near@.take(i as int);
                let b = near@.take(i + 1);
                assert forall|k: usize| #[trigger] b.contains(k) <==> a.contains(k) || k == key by {
                    if a.contains(k) {
                        let j = choose|j: int| 0 <= j < a.len() && a[j] == k;
                        assert(b[j] == k);
                    }
                    if k == key {
                        assert(b[i as int] == k);
                    }
                    if b.contains(k) && k != key {
                        let j = choose|j: int| 0 <= j < b.len() && b[j] == k;
                        assert(a[j] == k);
                    }
                }
            }
            match slabs::clients_get_mut(&mut self.clients, key) {
                Some(c) => {
                    if c.character.map == map {
                        c.show(guid);
                    }
                },
                None => {},
            }
            proof {
                if was.clients.contains_key(key) {
                    let v = was.clients[key].visible;
                    assert(v.insert(guid).insert(guid) =~= v.insert(guid));
                }
                let now = if before.clients.contains_key(key) && before.clients[key].character.map == map {
                    let c = before.clients[key];
                    before.clients.insert(key, ClientView { visible: c.visible.insert(guid), ..c })
                } else {
                    before.clients
                };
                assert(self@.clients =~= now);
                assert(now =~= shown(was.clients, near@.take(i + 1), map, guid));
            }
            i += 1;
        }
        assert(near@.take(i as int) =~= near@);
    }

    /// The creatures that come back at `now`, in the order in which they do.
    pub fn due_for_revival(&self, now: u64) -> (r: Vec<usize>)
        ensures
            r@ == self@.reviving(now),
    {
        let keys = slabs::creatures_keys(&self.creatures);
        proof {
            slabs::ordered_is(keys@, self@.creatures.dom());
        }
        let ghost f = |k: usize| revives(self@.creatures[k], now);
        let mut r: Vec<usize> = Vec::new();
        let mut i: usize = 0;
        assert(keys@.take(0).filter(f) =~= Seq::<usize>::empty()) by {
            reveal(Seq::filter);
        }
        while i < keys.len()
            invariant
                i <= keys.len(),
                slabs::in_order(keys@, self@.creatures.dom()),
                f == (|k: usize| revives(self@.creatures[k], now)),
                r@ == keys@.take(i as int).filter(f),
            decreases keys.len() - i,
        {
            let key: usize = keys[i];
            assert(keys@.contains(key));
            proof {
                reveal(Seq::filter);
                assert(keys@.take(i + 1).drop_last() =~= keys@.take(i as int));
            }
            if let Some(c) = slabs::creatures_get(&self.creatures, key) {
                if let CreatureLifeState::Respawning { respawn_at } = c.life_state {
                    if now >= respawn_at {
                        r.push(key);
                    }
                }
            }
            i += 1;
        }
        assert(keys@.take(i as int) =~= keys@);
        r
    }

    fn due_for_decay(&self, now: u64, despawn: u64) -> (r: Vec<usize>)
        ensures
            r@ == self@.decaying(now, despawn),
            slabs::in_order(slabs::ordered(self@.creatures.dom()), self@.creatures.dom()),
    {
        let keys = slabs::creatures_keys(&self.creatures);
        proof {
            slabs::ordered_is(keys@, self@.creatures.dom());
        }
        let ghost f = |k: usize| decays(self@.creatures[k], now, despawn);
        let mut r: Vec<usize> = Vec::new();
        let mut i: usize = 0;
        assert(keys@.take(0).filter(f) =~= Seq::<usize>::empty()) by {
            reveal(Seq::filter);
        }
        while i < keys.len()
            invariant
                i <= keys.len(),
                slabs::in_order(keys@, self@.creatures.dom()),
                f == (|k: usize| decays(self@.creatures[k], now, despawn)),
                r@ == keys@.take(i as int).filter(f),
            decreases keys.len() - i,
        {
            let key: usize = keys[i];
            assert(keys@.contains(key));
            proof {
                reveal(Seq::filter);
                assert(keys@.take(i + 1).drop_last() =~= keys@.take(i as int));
            }
            if let Some(c) = slabs::creatures_get(&self.creatures, key) {
                if let CreatureLifeState::Corpse { died_at } = c.life_state {
                    if clock::since(now, died_at) >= despawn {
                        r.push(key);
                    }
                }
            }
            i += 1;
        }
        assert(keys@.take(i as int) =~= keys@);
        r
    }

    fn decay(&mut self, key: usize, now: u64, out: &mut Vec<Outgoing>)
        requires
            old(self).wf(),
            old(self)@.creatures.contains_key(key),
        ensures
            final(self).wf(),
            old(self)@.index_is_live() ==> final(self)@.index_is_live(),
            final(self)@ == old(self)@.decayed(key, now),
            final(out)@ == old(out)@.push(old(self)@.told_of_decay(key)),
    {
        let ghost was = self@;
        let mut guid: u64 = 0;
        match slabs::creatures_get_mut(&mut self.creatures, key) {
            Some(c) => {
                c.life_state = CreatureLifeState::Respawning { respawn_at: clock::later(now, c.respawn_delay) };
                guid = c.guid;
                out.push(
                    Outgoing {
                        to: Audience::Near { map: c.map, place: c.info.position },
                        what: Notice::Destroy { guid },
                    },
                );
            },
            None => {},
        }
        assert(self@ =~= MapView { creatures: was.creatures.insert(key, rotten(was.creatures[key], now)), ..was });
        self.grid_remove(key);
        self.hide_everywhere(guid);
        assert(self@ =~= was.decayed(key, now));
    }

    fn revive(&mut self, key: usize, now: u64, near: &Vec<usize>, out: &mut Vec<Outgoing>)
        requires
            old(self).wf(),
            old(self)@.creatures.contains_key(key),
        ensures
            final(self).wf(),
            old(self)@.index_is_live() ==> final(self)@.index_is_live(),
            final(self)@ == old(self)@.revived(key, now, near@),
            final(out)@ == old(out)@.push(old(self)@.told_of_revival(key, now)),
    {
        let ghost was = self@;
        let mut guid: u64 = 0;
        let mut map: u32 = 0;
        match slabs::creatures_get_mut(&mut self.creatures, key) {
            Some(c) => {
                c.life_state = CreatureLifeState::Alive;
                c.last_alive_at = now;
                c.health = c.max_health;
                c.info.position = c.spawn_position;
                c.info.orientation = c.spawn_orientation;
                c.info.flags = 0;
                c.invalidate_object_cache();
                let frame = c.to_create_object();
                guid = c.guid;
                map = c.map;
                out.push(
                    Outgoing {
                        to: Audience::Near { map: c.map, place: c.info.position },
                        what: Notice::ShowUnit { frame },
                    },
                );
                assert(*c == reborn(was.creatures[key], now));
            },
            None => {},
        }
        assert(self@ =~= MapView { creatures: was.creatures.insert(key, reborn(was.creatures[key], now)), ..was });
        self.unmark_creature_dead(key);
        self.grid_insert(key);
        self.show_to(near, map, guid);
        assert(self@ =~= was.revived(key, now, near@));
    }

    /// Corpses that have lain for `despawn` go away, and creatures whose time
    /// has come are back. `near` says of each creature that comes back, in
    /// order, who is near the place where it was spawned.
    pub fn tick_corpses_and_respawns(&mut self, now: u64, despawn: u64, near: &Vec<Vec<usize>>, out: &mut Vec<Outgoing>)
        requires
            old(self).wf(),
            near@.len() == old(self)@.reviving(now).len(),
        ensures
            final(self).wf(),
            old(self)@.index_is_live() ==> final(self)@.index_is_live(),
            slabs::in_order(slabs::ordered(old(self)@.creatures.dom()), old(self)@.creatures.dom()),
            final(self)@ == old(self)@.all_decayed(old(self)@.decaying(now, despawn), now).all_revived(
                old(self)@.reviving(now),
                now,
                lists_of(near@),
            ),
            final(out)@ == old(out)@ + Seq::new(
                old(self)@.decaying(now, despawn).len(),
                |i: int| old(self)@.told_of_decay(old(self)@.decaying(now, despawn)[i]),
            ) + Seq::new(
                old(self)@.reviving(now).len(),
                |i: int| old(self)@.told_of_revival(old(self)@.reviving(now)[i], now),
            ),
    {
        let ghost was = self@;
        let ghost said = out@;
        let to_decay = self.due_for_decay(now, despawn);
        let to_revive = self.due_for_revival(now);
        proof {
            lemma_chosen(was, |k: usize| decays(was.creatures[k], now, despawn), to_decay@);
            lemma_chosen(was, |k: usize| revives(was.creatures[k], now), to_revive@);
        }
        let ghost decay_notices = Seq::new(to_decay@.len(), |i: int| was.told_of_decay(to_decay@[i]));
        let ghost revive_notices = Seq::new(to_revive@.len(), |i: int| was.told_of_revival(to_revive@[i], now));
        let mut i: usize = 0;
        assert(out@ =~= said + decay_notices.take(0));
        while i < to_decay.len()
            invariant
                i <= to_decay.len(),
                self.wf(),
                old(self)@.index_is_live() ==> self@.index_is_live(),
                chosen(was, |k: usize| decays(was.creatures[k], now, despawn), to_decay@),
                self@ == was.all_decayed(to_decay@.take(i as int), now),
                decay_notices == Seq::new(to_decay@.len(), |i: int| was.told_of_decay(to_decay@[i])),
                out@ == said + decay_notices.take(i as int),
            decreases to_decay.len() - i,
        {
            let key: usize = to_decay[i];
            proof {
                lemma_untouched_by_decay(was, to_decay@.take(i as int), now, key);
                assert(!to_decay@.take(i as int).contains(key)) by {
                    if to_decay@.take(i as int).contains(key) {
                        let j = choose|j: int| 0 <= j < i && to_decay@.take(i as int)[j] == key;
                        assert(to_decay@[j] == key);
                    }
                }
                assert(to_decay@.take(i + 1).drop_last() =~= to_decay@.take(i as int));
            }
            self.decay(key, now, out);
            assert(out@ =~= said + decay_notices.take(i + 1));
            i += 1;
        }
        proof {
            assert(to_decay@.take(i as int) =~= to_decay@);
            assert(decay_notices.take(i as int) =~= decay_notices);
        }
        let ghost mid = self@;
        let ghost lists = lists_of(near@);
        let mut n: usize = 0;
        assert(out@ =~= said + decay_notices + revive_notices.take(0));
        while n < to_revive.len()
            invariant
                n <= to_revive.len(),
                near@.len() == to_revive@.len(),
                self.wf(),
                old(self)@.index_is_live() ==> self@.index_is_live(),
                lists == lists_of(near@),
                chosen(was, |k: usize| decays(was.creatures[k], now, despawn), to_decay@),
                chosen(was, |k: usize| revives(was.creatures[k], now), to_revive@),
                mid == was.all_decayed(to_decay@, now),
                self@ == mid.all_revived(to_revive@.take(n as int), now, lists),
                revive_notices == Seq::new(to_revive@.len(), |i: int| was.told_of_revival(to_revive@[i], now)),
                out@ == said + decay_notices + revive_notices.take(n as int),
            decreases to_revive.len() - n,
        {
            let key: usize = to_revive[n];
            proof {
                assert(!to_decay@.contains(key)) by {
                    if to_decay@.contains(key) {
                        let j = choose|j: int| 0 <= j < to_decay@.len() && to_decay@[j] == key;
                        assert(decays(was.creatures[to_decay@[j]], now, despawn));
                        assert(revives(was.creatures[to_revive@[n as int]], now));
                    }
                }
                assert(!to_revive@.take(n as int).contains(key)) by {
                    if to_revive@.take(n as int).contains(key) {
                        let j = choose|j: int| 0 <= j < n && to_revive@.take(n as int)[j] == key;
                        assert(to_revive@[j] == key);
                    }
                }
                lemma_untouched_by_decay(was, to_decay@, now, key);
                lemma_untouched_by_revival(mid, to_revive@.take(n as int), now, lists, key);
                assert(to_revive@.take(n + 1).drop_last() =~= to_revive@.take(n as int));
                assert(was.creatures.contains_key(to_revive@[n as int]));
            }
            self.revive(key, now, &near[n], out);
            assert(out@ =~= said + decay_notices + revive_notices.take(n + 1));
            n += 1;
        }
        proof {
            assert(to_revive@.take(n as int) =~= to_revive@);
            assert(revive_notices.take(n as int) =~= revive_notices);
        }
    }
}

/// `keys` are distinct creatures of the map that satisfy `f`.
spec fn chosen(v: MapView, f: spec_fn(usize) -> bool, keys: Seq<usize>) -> bool {
    &&& keys.no_duplicates()
    &&& forall|i: int| 0 <= i < keys.len() ==> v.creatures.contains_key(#[trigger] keys[i]) && f(keys[i])
}

proof fn lemma_chosen(v: MapView, f: spec_fn(usize) -> bool, keys: Seq<usize>)
    requires
        slabs::in_order(slabs::ordered(v.creatures.dom()), v.creatures.dom()),
        keys == slabs::ordered(v.creatures.dom()).filter(f),
    ensures
        chosen(v, f, keys),
{
    let s = slabs::ordered(v.creatures.dom());
    lemma_filtered(s, f);
    assert forall|i: int| 0 <= i < keys.len() implies v.creatures.contains_key(#[trigger] keys[i]) && f(keys[i]) by {
        assert(s.contains(keys[i]));
    }
}

proof fn lemma_filtered(s: Seq<usize>, f: spec_fn(usize) -> bool)
    requires
        forall|i: int, j: int| 0 <= i < j < s.len() ==> s[i] < s[j],
    ensures
        s.filter(f).no_duplicates(),
        forall|i: int| 0 <= i < s.filter(f).len() ==> s.contains(#[trigger] s.filter(f)[i]) && f(s.filter(f)[i]),
    decreases s.len(),
{
    reveal(Seq::filter);
    if s.len() > 0 {
        let init = s.drop_last();
        lemma_filtered(init, f);
        assert forall|i: int| 0 <= i < init.filter(f).len() implies s.contains(#[trigger] init.filter(f)[i])
            && init.filter(f)[i] != s.last() by {
            assert(init.contains(init.filter(f)[i]));
            let j = choose|j: int| 0 <= j < init.len() && init[j] == init.filter(f)[i];
            assert(s[j] == init.filter(f)[i]);
        }
        assert(s.contains(s.last()));
    }
}

/// Rotting corpses touch no other creature.
proof fn lemma_untouched_by_decay(v: MapView, keys: Seq<usize>, now: u64, key: usize)
    ensures
        v.creatures.contains_key(key) ==> v.all_decayed(keys, now).creatures.contains_key(key),
        !keys.contains(key) ==> v.all_decayed(keys, now).creatures[key] == v.creatures[key],
    decreases keys.len(),
{
    if keys.len() > 0 {
        lemma_untouched_by_decay(v, keys.drop_last(), now, key);
        if !keys.contains(key) {
            assert(keys[keys.len() - 1] != key);
            assert(!keys.drop_last().contains(key)) by {
                if keys.drop_last().contains(key) {
                    let j = choose|j: int| 0 <= j < keys.drop_last().len() && keys.drop_last()[j] == key;
                    assert(keys[j] == key);
                }
            }
        }
    }
}

/// Creatures that come back touch no other creature.
proof fn lemma_untouched_by_revival(v: MapView, keys: Seq<usize>, now: u64, near: Seq<Seq<usize>>, key: usize)
    ensures
        v.creatures.contains_key(key) ==> v.all_revived(keys, now, near).creatures.contains_key(key),
        !keys.contains(key) ==> v.all_revived(keys, now, near).creatures[key] == v.creatures[key],
    decreases keys.len(),
{
    if keys.len() > 0 {
        lemma_untouched_by_revival(v, keys.drop_last(), now, near, key);
        if !keys.contains(key) {
            assert(keys[keys.len() - 1] != key);
            assert(!keys.drop_last().contains(key)) by {
                if keys.drop_last().contains(key) {
                    let j = choose|j: int| 0 <= j < keys.drop_last().len() && keys.drop_last()[j] == key;
                    assert(keys[j] == key);
                }
            }
        }
    }
}

/// A creature that is killed, rots and comes back is unhurt at the place where
/// it was spawned, and only its respawn delay tells of its death.
pub proof fn death_and_return_restore(c: Creature, died: u64, rotted: u64, back: u64)
    requires
        c.life_state is Alive,
    ensures
        ({
            let r = reborn(rotten(crate::map_state::slain(c, died), rotted), back);
            &&& r.life_state is Alive
            &&& r.health == c.max_health
            &&& r.max_health == c.max_health
            &&& r.info.position == c.spawn_position
            &&& r.guid == c.guid
            &&& r.behavior == c.behavior
            &&& r.respawn_delay <= c.respawn_delay
        }),
{
}

proof fn lemma_filter_holds(s: Seq<usize>, f: spec_fn(usize) -> bool, x: usize)
    ensures
        s.filter(f).contains(x) <==> s.contains(x) && f(x),
    decreases s.len(),
{
    reveal(Seq::filter);
    if s.len() > 0 {
        lemma_filter_holds(s.drop_last(), f, x);
        crate::aoi::lemma_push_contains(s.drop_last(), s.last(), x);
        assert(s =~= s.drop_last().push(s.last()));
        crate::aoi::lemma_push_contains(s.drop_last().filter(f), s.last(), x);
    }
}

proof fn lemma_front(keys: Seq<usize>, key: usize)
    requires
        keys.len() > 0,
        keys.no_duplicates(),
    ensures
        keys.drop_last().no_duplicates(),
        !keys.drop_last().contains(keys.last()),
        keys.contains(key) <==> keys.drop_last().contains(key) || key == keys.last(),
{
    assert(keys =~= keys.drop_last().push(keys.last()));
    crate::aoi::lemma_push_contains(keys.drop_last(), keys.last(), key);
    if keys.drop_last().contains(keys.last()) {
        let i = choose|i: int| 0 <= i < keys.drop_last().len() && keys.drop_last()[i] == keys.last();
        assert(keys[i] == keys[keys.len() - 1]);
    }
}

proof fn lemma_decayed_one(v: MapView, keys: Seq<usize>, now: u64, k: usize, c: usize)
    requires
        keys.no_duplicates(),
    ensures
        ({
            let w = v.all_decayed(keys, now);
            &&& keys.contains(k) ==> w.creatures[k] == rotten(v.creatures[k], now) && !w.creature_cells.contains_key(k)
            &&& !keys.contains(k) ==> w.creatures[k] == v.creatures[k] && w.creature_cells.contains_key(k)
                == v.creature_cells.contains_key(k)
            &&& w.walking == v.walking && w.aggro == v.aggro && w.asleep == v.asleep
            &&& w.clients.dom() == v.clients.dom()
            &&& v.clients.contains_key(c) ==> w.clients[c].character == v.clients[c].character
            &&& v.clients.contains_key(c) && keys.contains(k) ==> !w.clients[c].visible.contains(v.creatures[k].guid)
        }),
    decreases keys.len(),
{
    if keys.len() > 0 {
        let front = keys.drop_last();
        lemma_front(keys, k);
        lemma_decayed_one(v, front, now, k, c);
        lemma_decayed_one(v, front, now, keys.last(), c);
        assert(v.all_decayed(keys, now).clients.dom() =~= v.clients.dom());
    }
}

proof fn lemma_revived_one(v: MapView, keys: Seq<usize>, now: u64, near: Seq<Seq<usize>>, i: int, k: usize, c: usize, g: u64)
    requires
        keys.no_duplicates(),
        forall|j: int| 0 <= j < keys.len() ==> v.creatures.contains_key(#[trigger] keys[j]),
        forall|j: int| 0 <= j < keys.len() ==> !v.creature_cells.contains_key(#[trigger] keys[j]),
    ensures
        ({
            let w = v.all_revived(keys, now, near);
            &&& !keys.contains(k) ==> w.creatures[k] == v.creatures[k] && w.creature_cells.contains_key(k)
                == v.creature_cells.contains_key(k)
            &&& 0 <= i < keys.len() ==> {
                let b = v.creatures[keys[i]];
                &&& w.creatures[keys[i]] == reborn(b, now)
                &&& w.creature_cells.contains_key(keys[i])
                &&& w.creature_cells[keys[i]] == b.spawn_position.cell
                &&& b.behavior is AggroChase ==> w.aggro.contains(keys[i])
                &&& b.behavior.walks() ==> w.walking.contains(keys[i])
                &&& v.clients.contains_key(c) && near[i].contains(c) && v.clients[c].character.map == b.map
                    ==> w.clients[c].visible.contains(b.guid)
            }
            &&& w.clients.dom() == v.clients.dom()
            &&& v.clients.contains_key(c) ==> w.clients[c].character == v.clients[c].character
            &&& v.clients.contains_key(c) && v.clients[c].visible.contains(g) ==> w.clients[c].visible.contains(g)
            &&& v.clients.contains_key(c) && !v.clients[c].visible.contains(g) && (forall|j: int|
                0 <= j < keys.len() ==> v.creatures[#[trigger] keys[j]].guid != g) ==> !w.clients[c].visible.contains(g)
        }),
    decreases keys.len(),
{
    if keys.len() > 0 {
        let front = keys.drop_last();
        let last = keys.last();
        lemma_front(keys, k);
        assert forall|j: int| 0 <= j < front.len() implies v.creatures.contains_key(#[trigger] front[j]) by {
            assert(front[j] == keys[j]);
        }
        assert forall|j: int| 0 <= j < front.len() implies !v.creature_cells.contains_key(#[trigger] front[j]) by {
            assert(front[j] == keys[j]);
        }
        lemma_revived_one(v, front, now, near, i, k, c, g);
        lemma_revived_one(v, front, now, near, i, last, c, g);
        let x = v.all_revived(front, now, near);
        let w = v.all_revived(keys, now, near);
        assert(v.creatures.contains_key(keys[keys.len() - 1]));
        assert(!v.creature_cells.contains_key(keys[keys.len() - 1]));
        lemma_untouched_by_revival(v, front, now, near, last);
        assert(x.creatures.contains_key(last) && x.creatures[last] == v.creatures[last]);
        assert(w.clients.dom() =~= v.clients.dom());
        assert(v.creatures[last].guid == v.creatures[keys[keys.len() - 1]].guid);
        if 0 <= i < front.len() {
            assert(front[i] == keys[i]);
            assert(keys[i] != last);
            if x.aggro.contains(keys[i]) {
                crate::aoi::lemma_push_contains(x.aggro, last, keys[i]);
            }
            if x.walking.contains(keys[i]) {
                crate::aoi::lemma_push_contains(x.walking, last, keys[i]);
            }
            let gi = v.creatures[keys[i]].guid;
        }
        if i == front.len() {
            crate::aoi::lemma_push_contains(x.aggro, last, last);
            crate::aoi::lemma_push_contains(x.walking, last, last);
        }
    }
}

/// What a creature is when it has come back to life: unhurt, at rest where it was spawned,
/// and as it was otherwise.
pub open spec fn is_back_to_life(c: Creature, was: Creature, now: u64) -> bool {
    &&& c.life_state is Alive
    &&& c.last_alive_at == now
    &&& c.health == was.max_health && c.max_health == was.max_health
    &&& c.info.position == was.spawn_position && c.info.orientation == was.spawn_orientation && c.info.flags == 0
    &&& c.guid == was.guid && c.map == was.map && c.behavior == was.behavior && c.respawn_delay == was.respawn_delay
}

/// A corpse that has lain long enough goes away: it is seen nowhere, everybody near is told
/// so, and the creature comes back after its respawn delay. A creature whose time has come
/// is back, unhurt, where it was spawned; it does what it does, those near on its map
/// show it, and they are told so. All others stay as they are.
pub proof fn corpses_rot_and_creatures_return(
    m: &mut MapState,
    now: u64,
    despawn: u64,
    near: &Vec<Vec<usize>>,
    out: &mut Vec<Outgoing>,
    u: (),
    k: usize,
    at: int,
    c: usize,
)
    requires
        old(m).wf(),
        near@.len() == old(m)@.reviving(now).len(),
        call_ensures(MapState::tick_corpses_and_respawns, (m, now, despawn, near, out), u),
        old(m)@.creatures.contains_key(k),
    ensures
        ({
            let was = old(m)@.creatures[k];
            let after = final(m)@.creatures[k];
            let (a, b) = (old(m)@, final(m)@);
            match was.life_state {
                CreatureLifeState::Alive => after == was,
                CreatureLifeState::Corpse { died_at } => {
                    &&& died_at <= now && now - died_at >= despawn ==> {
                        &&& after == (Creature { life_state: after.life_state, ..was })
                        &&& after.life_state is Respawning
                        &&& now + was.respawn_delay <= u64::MAX ==> after.life_state->respawn_at == now
                            + was.respawn_delay
                        &&& !b.creature_cells.contains_key(k)
                        &&& a.clients.contains_key(c) && (forall|j: usize|
                            j != k && #[trigger] a.creatures.contains_key(j) ==> a.creatures[j].guid != was.guid)
                            ==> !b.clients[c].visible.contains(was.guid)
                        &&& final(out)@.contains(
                            Outgoing {
                                to: Audience::Near { map: was.map, place: was.info.position },
                                what: Notice::Destroy { guid: was.guid },
                            },
                        )
                    }
                    &&& died_at <= now && now - died_at < despawn ==> after == was && b.creature_cells.contains_key(k)
                },
                CreatureLifeState::Respawning { respawn_at } => {
                    &&& now < respawn_at ==> after == was && !b.creature_cells.contains_key(k)
                    &&& respawn_at <= now ==> {
                        &&& is_back_to_life(after, was, now)
                        &&& b.creature_cells.contains_key(k) && b.creature_cells[k] == was.spawn_position.cell
                        &&& was.behavior is AggroChase ==> b.aggro.contains(k)
                        &&& was.behavior is RandomWander || was.behavior is Waypoint ==> b.walking.contains(k)
                        &&& a.reviving(now).contains(k)
                        &&& 0 <= at < near@.len() && a.reviving(now)[at] == k && a.clients.contains_key(c)
                            && near@[at]@.contains(c) && a.clients[c].character.map == was.map
                            ==> b.clients[c].visible.contains(was.guid)
                        &&& final(out)@.contains(
                            Outgoing {
                                to: Audience::Near { map: was.map, place: was.spawn_position },
                                what: Notice::ShowUnit { frame: after.frame() },
                            },
                        )
                    }
                },
            }
        }),
        final(m)@.clients.dom() == old(m)@.clients.dom(),
        old(m)@.clients.contains_key(c) ==> final(m)@.clients[c].character == old(m)@.clients[c].character,
{
    let (a, b) = (old(m)@, final(m)@);
    let was = a.creatures[k];
    let rot = a.decaying(now, despawn);
    let back = a.reviving(now);
    let fd = |j: usize| decays(a.creatures[j], now, despawn);
    let fr = |j: usize| revives(a.creatures[j], now);
    let all = slabs::ordered(a.creatures.dom());
    lemma_chosen(a, fd, rot);
    lemma_chosen(a, fr, back);
    lemma_filter_holds(all, fd, k);
    lemma_filter_holds(all, fr, k);
    assert(all.contains(k) <==> a.creatures.dom().contains(k));
    lemma_decayed_one(a, rot, now, k, c);
    let mid = a.all_decayed(rot, now);
    let lists = lists_of(near@);
    assert forall|j: int| 0 <= j < back.len() implies mid.creatures.contains_key(#[trigger] back[j])
        && mid.creatures[back[j]] == a.creatures[back[j]] && !mid.creature_cells.contains_key(back[j]) by {
        assert(a.creatures.contains_key(back[j]) && fr(back[j]));
        lemma_filter_holds(all, fd, back[j]);
        lemma_decayed_one(a, rot, now, back[j], c);
        lemma_untouched_by_decay(a, rot, now, back[j]);
        assert(!a.creature_cells.contains_key(back[j]));
    }
    let i = if back.contains(k) {
        choose|i: int| 0 <= i < back.len() && back[i] == k
    } else {
        -1
    };
    lemma_revived_one(mid, back, now, lists, i, k, c, was.guid);
    let told_rot = Seq::new(rot.len(), |n: int| a.told_of_decay(rot[n]));
    let told_back = Seq::new(back.len(), |n: int| a.told_of_revival(back[n], now));
    assert(final(out)@ == old(out)@ + told_rot + told_back);
    let n = old(out)@.len() as int;
    if rot.contains(k) {
        let j = choose|j: int| 0 <= j < rot.len() && rot[j] == k;
        assert(told_rot[j] == a.told_of_decay(k));
        assert(final(out)@[n + j] == told_rot[j]);
        assert forall|j: int| 0 <= j < back.len() implies back[j] != k by {
            assert(fr(back[j]));
        }
        if forall|j: usize| j != k && #[trigger] a.creatures.contains_key(j) ==> a.creatures[j].guid != was.guid {
            assert forall|j: int| 0 <= j < back.len() implies mid.creatures[#[trigger] back[j]].guid != was.guid by {
                assert(a.creatures.contains_key(back[j]));
            }
        }
    }
    if back.contains(k) {
        assert(told_back[i] == a.told_of_revival(k, now));
        assert(final(out)@[n + rot.len() + i] == told_back[i]);
        assert(lists[i] == near@[i]@);
        if 0 <= at < back.len() && back[at] == k {
            assert(at == i);
        }
        assert(reborn(was, now).frame() == b.creatures[k].frame());
        assert(back[i] == k);
    }
}

/// Nobody shows what is hidden, and everybody near on the map shows what is shown to them;
/// what else they show stays.
pub proof fn what_is_hidden_is_shown_by_nobody(
    a: &mut MapState,
    b: &mut MapState,
    near: &Vec<usize>,
    map: u32,
    guid: u64,
    u: (),
    v: (),
    k: usize,
    other: u64,
)
    requires
        old(a).wf(),
        old(b).wf(),
        call_ensures(MapState::hide_everywhere, (a, guid), u),
        call_ensures(MapState::show_to, (b, near, map, guid), v),
    ensures
        old(a)@.clients.contains_key(k) ==> final(a)@.clients.contains_key(k) && !final(a)@.clients[k].visible.contains(
            guid,
        ),
        old(a)@.clients.contains_key(k) && other != guid ==> (final(a)@.clients[k].visible.contains(other)
            <==> old(a)@.clients[k].visible.contains(other)),
        old(b)@.clients.contains_key(k) && near@.contains(k) && old(b)@.clients[k].character.map == map ==> final(b)@.clients[k].visible.contains(guid),
        old(b)@.clients.contains_key(k) && !(near@.contains(k) && old(b)@.clients[k].character.map == map) ==> final(b)@.clients[k] == old(b)@.clients[k],
        old(b)@.clients.contains_key(k) && other != guid ==> (final(b)@.clients[k].visible.contains(other)
            <==> old(b)@.clients[k].visible.contains(other)),
{
}

} // verus!

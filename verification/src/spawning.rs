//! Creatures that enter a map: those it starts with, and those that the
//! handlers of a tick asked for.
use crate::client::ClientView;
use crate::command::WorldCommand;
use crate::config::TickConfig;
use crate::corpses;
use crate::creature::{Creature, CreatureBehavior};
use crate::map_state::{MapState, MapView};
use crate::movement::{MovementInfo, Place};
use crate::notice::{Audience, Notice, Outgoing};
use crate::slabs;
use crate::tables;
use std::sync::Arc;
use vstd::prelude::*;

verus! {

/// The creature, put on ground of the height `z` where that is known. One that
/// wanders around wanders at that height.
pub open spec fn grounded(c: Creature, z: Option<u32>) -> Creature {
    match z {
        Some(z) => Creature {
            info: MovementInfo { position: Place { z, ..c.info.position }, ..c.info },
            behavior: match c.behavior {
                CreatureBehavior::RandomWander { anchor, radius, target, next_decision_at } =>
                    CreatureBehavior::RandomWander {
                        anchor: Place { z, ..anchor },
                        radius,
                        target,
                        next_decision_at,
                    },
                b => b,
            },
            ..c
        },
        None => c,
    }
}

impl MapView {
    /// With the creature `c` on the map; the clients of `near` on its map show
    /// it.
    pub open spec fn spawned(self, key: usize, c: Creature, near: Seq<usize>) -> MapView {
        let kept = Creature { cached_object: Some(Arc::new(c.served())), ..c };
        let v = (MapView { creatures: self.creatures.insert(key, kept), ..self }).registered(key);
        MapView { clients: corpses::shown(v.clients, near, c.map, c.guid), ..v }
    }

    /// After a command was carried out. A new creature gets the key `key`.
    #[verifier::opaque]
    pub open spec fn commanded(
        self,
        cmd: WorldCommand,
        z: Option<u32>,
        near: Seq<usize>,
        key: usize,
        now: u64,
    ) -> MapView {
        match cmd {
            WorldCommand::SpawnCreature(c) => self.spawned(key, grounded(c, z), near),
            WorldCommand::KillCreature(guid) => if self.creature_keys.contains_key(guid) {
                self.killed(self.creature_keys[guid] as usize, now)
            } else {
                self
            },
        }
    }

    /// What is told when a command is carried out.
    #[verifier::opaque]
    pub open spec fn told_of_command(self, cmd: WorldCommand, z: Option<u32>) -> Seq<Outgoing> {
        match cmd {
            WorldCommand::SpawnCreature(c) => {
                let g = grounded(c, z);
                seq![
                    Outgoing {
                        to: Audience::Near { map: g.map, place: g.info.position },
                        what: Notice::ShowUnit { frame: g.served() },
                    },
                ]
            },
            WorldCommand::KillCreature(guid) => if self.creature_keys.contains_key(guid) {
                self.told_of_kill(self.creature_keys[guid] as usize)
            } else {
                Seq::empty()
            },
        }
    }

    /// After the commands were carried out, one after the other.
    pub open spec fn all_commanded(
        self,
        cmds: Seq<WorldCommand>,
        heights: Seq<Option<u32>>,
        near: Seq<Seq<usize>>,
        keys: Seq<usize>,
        now: u64,
    ) -> MapView
        decreases cmds.len(),
    {
        if cmds.len() == 0 {
            self
        } else {
            let n = cmds.len() - 1;
            self.all_commanded(cmds.drop_last(), heights, near, keys, now).commanded(
                cmds.last(),
                heights[n],
                near[n],
                keys[n],
                now,
            )
        }
    }

    /// What is told when the commands are carried out.
    pub open spec fn told_of_all_commands(
        self,
        cmds: Seq<WorldCommand>,
        heights: Seq<Option<u32>>,
        near: Seq<Seq<usize>>,
        keys: Seq<usize>,
        now: u64,
    ) -> Seq<Outgoing>
        decreases cmds.len(),
    {
        if cmds.len() == 0 {
            Seq::empty()
        } else {
            let n = cmds.len() - 1;
            self.told_of_all_commands(cmds.drop_last(), heights, near, keys, now) + self.all_commanded(
                cmds.drop_last(),
                heights,
                near,
                keys,
                now,
            ).told_of_command(cmds.last(), heights[n])
        }
    }

    /// With all of `cs` on the map, under the keys `keys`.
    pub open spec fn populated(self, cs: Seq<Creature>, keys: Seq<usize>) -> MapView
        decreases cs.len(),
    {
        if cs.len() == 0 {
            self
        } else {
            let n = cs.len() - 1;
            let v = self.populated(cs.drop_last(), keys);
            (MapView { creatures: v.creatures.insert(keys[n], cs.last()), ..v }).registered(keys[n])
        }
    }
}

impl MapState {
    fn spawn(&mut self, creature: Creature, z: Option<u32>, near: &Vec<usize>, out: &mut Vec<Outgoing>) -> (key: usize)
        requires
            old(self).wf(),
        ensures
            final(self).wf(),
            old(self)@.index_is_live() ==> final(self)@.index_is_live(),
            !old(self)@.creatures.contains_key(key),
            final(self)@ == old(self)@.spawned(key, grounded(creature, z), near@),
            final(out)@ == old(out)@ + old(self)@.told_of_command(WorldCommand::SpawnCreature(creature), z),
    {
        let ghost was = self@;
        let ghost g = grounded(creature, z);
        let mut c = creature;
        if let Some(h) = z {
            c.info.position.z = h;
            match &mut c.behavior {
                CreatureBehavior::RandomWander { anchor, .. } => {
                    anchor.z = h;
                },
                _ => {},
            }
        }
        assert(c == g);
        let map: u32 = c.map;
        let place: Place = c.info.position;
        let guid: u64 = c.guid;
        let frame = c.to_create_object();
        let ghost kept = c;
        let key: usize = slabs::creatures_insert(&mut self.creatures, c);
        assert(self@ =~= MapView { creatures: was.creatures.insert(key, kept), ..was });
        self.register_creature(key);
        out.push(Outgoing { to: Audience::Near { map, place }, what: Notice::ShowUnit { frame } });
        self.show_to(near, map, guid);
        proof {
            reveal(MapView::told_of_command);
            assert(out@ =~= old(out)@ + was.told_of_command(WorldCommand::SpawnCreature(creature), z));
        }
        key
    }

    /// Carry out a command. A new creature is under the key that is returned.
    pub fn carry_out(
        &mut self,
        cmd: WorldCommand,
        z: Option<u32>,
        near: &Vec<usize>,
        now: u64,
        out: &mut Vec<Outgoing>,
    ) -> (key: usize)
        requires
            old(self).wf(),
        ensures
            final(self).wf(),
            old(self)@.index_is_live() ==> final(self)@.index_is_live(),
            cmd is SpawnCreature ==> !old(self)@.creatures.contains_key(key),
            final(self)@ == old(self)@.commanded(cmd, z, near@, key, now),
            final(out)@ == old(out)@ + old(self)@.told_of_command(cmd, z),
    {
        proof {
            reveal(MapView::commanded);
            reveal(MapView::told_of_command);
        }
        match cmd {
            WorldCommand::SpawnCreature(c) => self.spawn(c, z, near, out),
            WorldCommand::KillCreature(guid) => {
                match tables::numbers_get(&self.creature_by_guid, guid) {
                    Some(k) => {
                        self.kill_creature(k as usize, now, out);
                        0
                    },
                    None => {
                        assert(out@ =~= old(out)@ + old(self)@.told_of_command(cmd, z));
                        0
                    },
                }
            },
        }
    }

    /// Carry out the commands, one after the other. `heights` holds the height
    /// of the ground below each new creature, as far as it is known, and `near`
    /// the clients that are near it. The keys of new creatures are returned.
    pub fn apply_commands(
        &mut self,
        cmds: Vec<WorldCommand>,
        heights: &Vec<Option<u32>>,
        near: &Vec<Vec<usize>>,
        now: u64,
        out: &mut Vec<Outgoing>,
    ) -> (keys: Vec<usize>)
        requires
            old(self).wf(),
            heights@.len() == cmds@.len(),
            near@.len() == cmds@.len(),
        ensures
            final(self).wf(),
            old(self)@.index_is_live() ==> final(self)@.index_is_live(),
            keys@.len() == cmds@.len(),
            final(self)@ == old(self)@.all_commanded(cmds@, heights@, corpses::lists_of(near@), keys@, now),
            final(out)@ == old(out)@ + old(self)@.told_of_all_commands(
                cmds@,
                heights@,
                corpses::lists_of(near@),
                keys@,
                now,
            ),
            forall|i: int|
                0 <= i < cmds@.len() && (#[trigger] cmds@[i]) is SpawnCreature ==> !old(self)@.all_commanded(
                    cmds@.take(i),
                    heights@,
                    corpses::lists_of(near@),
                    keys@,
                    now,
                ).creatures.contains_key(keys@[i]),
    {
        let ghost was = self@;
        let ghost said = out@;
        let ghost input = cmds@;
        let ghost nears = corpses::lists_of(near@);
        let mut rest = cmds;
        let mut keys: Vec<usize> = Vec::new();
        let mut i: usize = 0;
        assert(input.take(0) =~= Seq::<WorldCommand>::empty());
        assert(out@ =~= said + was.told_of_all_commands(input.take(0), heights@, nears, keys@, now));
        while rest.len() > 0
            invariant
                i <= input.len(),
                heights@.len() == input.len(),
                near@.len() == input.len(),
                nears == corpses::lists_of(near@),
                rest@ == input.skip(i as int),
                keys@.len() == i,
                self.wf(),
                old(self)@.index_is_live() ==> self@.index_is_live(),
                self@ == was.all_commanded(input.take(i as int), heights@, nears, keys@, now),
                out@ == said + was.told_of_all_commands(input.take(i as int), heights@, nears, keys@, now),
                forall|j: int|
                    0 <= j < i && (#[trigger] input[j]) is SpawnCreature ==> !was.all_commanded(
                        input.take(j),
                        heights@,
                        nears,
                        keys@,
                        now,
                    ).creatures.contains_key(keys@[j]),
            decreases rest.len(),
        {
            assert(i < heights.len());
            let cmd = rest.remove(0);
            let ghost before = self@;
            let ghost had = keys@;
            assert(cmd == input[i as int]);
            assert(nears[i as int] == near@[i as int]@);
            let key: usize = self.carry_out(cmd, heights[i], &near[i], now, out);
            keys.push(key);
            proof {
                assert(input.take(i + 1).drop_last() =~= input.take(i as int));
                assert(input.take(i + 1).last() == cmd);
                lemma_more_keys(was, input.take(i as int), heights@, nears, had, keys@, now);
                assert(self@ == was.all_commanded(input.take(i + 1), heights@, nears, keys@, now));
                assert(out@ =~= said + was.told_of_all_commands(input.take(i + 1), heights@, nears, keys@, now));
                assert(rest@ =~= input.skip(i + 1));
                assert forall|j: int| 0 <= j < i + 1 && (#[trigger] input[j]) is SpawnCreature implies !was.all_commanded(
                    input.take(j),
                    heights@,
                    nears,
                    keys@,
                    now,
                ).creatures.contains_key(keys@[j]) by {
                    lemma_more_keys(was, input.take(j), heights@, nears, had, keys@, now);
                }
            }
            i += 1;
        }
        proof {
            assert(input.take(i as int) =~= input);
            assert forall|j: int| 0 <= j < cmds@.len() && (#[trigger] cmds@[j]) is SpawnCreature implies !was.all_commanded(
                cmds@.take(j),
                heights@,
                nears,
                keys@,
                now,
            ).creatures.contains_key(keys@[j]) by {
                assert(input[j] is SpawnCreature);
            }
        }
        keys
    }

    /// A map with those creatures on it, under the keys that are returned.
    pub fn build_map_state_with_creatures(map: u32, creatures: Vec<Creature>, tick: &TickConfig) -> (r: (
        MapState,
        Vec<usize>,
    ))
        ensures
            r.0.wf(),
            r.1@.len() == creatures@.len(),
            r.1@.no_duplicates(),
            exists|empty: MapState|
                #![trigger empty@]
                call_ensures(MapState::new_empty, (map, tick), empty) && r.0@ == empty@.populated(
                    creatures@,
                    r.1@,
                ),
    {
        let mut state = MapState::new_empty(map, tick);
        let ghost empty = state;
        let ghost was = state@;
        let ghost input = creatures@;
        let mut rest = creatures;
        let mut keys: Vec<usize> = Vec::new();
        let ghost mut done: int = 0;
        assert(input.take(0) =~= Seq::<Creature>::empty());
        while rest.len() > 0
            invariant
                state.wf(),
                0 <= done <= input.len(),
                rest@ == input.skip(done),
                keys@.len() == done,
                keys@.no_duplicates(),
                forall|j: int| 0 <= j < done ==> state@.creatures.contains_key(#[trigger] keys@[j]),
                state@ == was.populated(input.take(done), keys@),
            decreases rest.len(),
        {
            let c = rest.remove(0);
            let ghost before = state@;
            let ghost had = keys@;
            let key: usize = slabs::creatures_insert(&mut state.creatures, c);
            assert(state@ =~= MapView { creatures: before.creatures.insert(key, c), ..before });
            state.register_creature(key);
            keys.push(key);
            proof {
                assert(input.take(done + 1).drop_last() =~= input.take(done));
                assert(input.take(done + 1).last() == c);
                lemma_more_places(was, input.take(done), had, keys@);
                assert(!had.contains(key)) by {
                    if had.contains(key) {
                        let j = choose|j: int| 0 <= j < had.len() && had[j] == key;
                        assert(before.creatures.contains_key(had[j]));
                    }
                }
                crate::aoi::lemma_push_unique(had, key);
                assert forall|j: int| 0 <= j < done + 1 implies state@.creatures.contains_key(#[trigger] keys@[j]) by {
                    if j < done {
                        assert(keys@[j] == had[j]);
                    }
                }
                done = done + 1;
                assert(rest@ =~= input.skip(done));
            }
        }
        assert(input.take(done) =~= input);
        assert(empty@ == was);
        (state, keys)
    }
}

proof fn lemma_more_places(v: MapView, cs: Seq<Creature>, some: Seq<usize>, more: Seq<usize>)
    requires
        cs.len() <= some.len(),
        some.len() <= more.len(),
        forall|j: int| 0 <= j < some.len() ==> some[j] == more[j],
    ensures
        v.populated(cs, some) == v.populated(cs, more),
    decreases cs.len(),
{
    if cs.len() > 0 {
        lemma_more_places(v, cs.drop_last(), some, more);
    }
}

proof fn lemma_more_keys(
    v: MapView,
    cmds: Seq<WorldCommand>,
    heights: Seq<Option<u32>>,
    near: Seq<Seq<usize>>,
    some: Seq<usize>,
    more: Seq<usize>,
    now: u64,
)
    requires
        cmds.len() <= some.len(),
        some.len() <= more.len(),
        forall|j: int| 0 <= j < some.len() ==> some[j] == more[j],
    ensures
        v.all_commanded(cmds, heights, near, some, now) == v.all_commanded(cmds, heights, near, more, now),
        v.told_of_all_commands(cmds, heights, near, some, now) == v.told_of_all_commands(
            cmds,
            heights,
            near,
            more,
            now,
        ),
    decreases cmds.len(),
{
    if cmds.len() > 0 {
        lemma_more_keys(v, cmds.drop_last(), heights, near, some, more, now);
    }
}

/// A creature that was asked for is on the map, where it stands on the ground,
/// and is found by its guid.
pub proof fn who_spawns_is_found(v: MapView, key: usize, c: Creature, z: Option<u32>, near: Seq<usize>)
    requires
        !v.creature_cells.contains_key(key),
    ensures
        ({
            let after = v.spawned(key, grounded(c, z), near);
            &&& after.creature_keys.contains_key(c.guid)
            &&& after.creature_keys[c.guid] == key
            &&& after.creatures.contains_key(key)
            &&& after.creatures[key].guid == c.guid
            &&& after.creatures[key].map == c.map
            &&& !(c.life_state is Respawning) ==> after.creature_cells.contains_key(key)
                && after.creature_cells[key] == c.info.position.cell
        }),
{
}

/// A creature that enters stands on the ground, where its height is known, at the place and
/// on the map that it was made for; it is found by its guid, and everybody near on its map
/// shows it and is told of it.
pub proof fn a_spawned_creature_is_on_the_map(
    m: &mut MapState,
    creature: Creature,
    z: Option<u32>,
    near: &Vec<usize>,
    now: u64,
    out: &mut Vec<Outgoing>,
    key: usize,
    k: usize,
)
    requires
        old(m).wf(),
        call_ensures(
            MapState::carry_out,
            (m, WorldCommand::SpawnCreature(creature), z, near, now, out),
            key,
        ),
    ensures
        !old(m)@.creatures.contains_key(key),
        final(m)@.creatures.contains_key(key),
        final(m)@.creature_keys.contains_key(creature.guid) && final(m)@.creature_keys[creature.guid] == key,
        ({
            let c = final(m)@.creatures[key];
            &&& c.guid == creature.guid && c.map == creature.map && c.name == creature.name && c.health
                == creature.health && c.life_state == creature.life_state && c.level == creature.level
            &&& c.info.position.x == creature.info.position.x && c.info.position.y == creature.info.position.y
            &&& c.info.position.z == (if z is Some {
                z->0
            } else {
                creature.info.position.z
            })
            &&& c.info.position.cell == creature.info.position.cell
            &&& c.info.orientation == creature.info.orientation
            &&& c.behavior is RandomWander <==> creature.behavior is RandomWander
            &&& c.behavior is RandomWander && z is Some ==> c.behavior->anchor.z == z->0 && c.behavior->anchor.x
                == creature.behavior->anchor.x && c.behavior->anchor.y == creature.behavior->anchor.y
                && c.behavior->radius == creature.behavior->radius
            &&& !(c.behavior is RandomWander) || z is None ==> c.behavior == creature.behavior
        }),
        k != key ==> final(m)@.creatures[k] == old(m)@.creatures[k] && (final(m)@.creatures.contains_key(k) <==> old(m)@.creatures.contains_key(k)),
        final(m)@.clients.dom() == old(m)@.clients.dom(),
        old(m)@.clients.contains_key(k) && near@.contains(k) && old(m)@.clients[k].character.map == creature.map
            ==> final(m)@.clients[k] == (ClientView {
            visible: old(m)@.clients[k].visible.insert(creature.guid),
            ..old(m)@.clients[k]
        }),
        old(m)@.clients.contains_key(k) && !(near@.contains(k) && old(m)@.clients[k].character.map == creature.map)
            ==> final(m)@.clients[k] == old(m)@.clients[k],
        final(out)@.len() == old(out)@.len() + 1,
        final(out)@.last().to == (Audience::Near { map: creature.map, place: final(m)@.creatures[key].info.position }),
        final(out)@.last().what is ShowUnit,
        creature.cached_object is None ==> final(out)@.last().what->ShowUnit_frame.guid == creature.guid,
{
    reveal(MapView::commanded);
    reveal(MapView::told_of_command);
    assert(final(m)@.clients.dom() =~= old(m)@.clients.dom());
}

/// A creature that is to be killed is a corpse with nothing left, if it lived; those near are
/// told. Nobody else dies, and a guid that nobody has changes nothing.
pub proof fn a_condemned_creature_dies(
    m: &mut MapState,
    guid: u64,
    z: Option<u32>,
    near: &Vec<usize>,
    now: u64,
    out: &mut Vec<Outgoing>,
    key: usize,
    k: usize,
)
    requires
        old(m).wf(),
        call_ensures(MapState::carry_out, (m, WorldCommand::KillCreature(guid), z, near, now, out), key),
    ensures
        old(m)@.creature(guid) == Some(k) && old(m)@.creatures[k].life_state is Alive ==> {
            &&& final(m)@.creatures[k].life_state is Corpse
            &&& final(m)@.creatures[k].health == 0
            &&& final(out)@ == old(out)@.push(
                Outgoing {
                    to: Audience::Near {
                        map: old(m)@.creatures[k].map,
                        place: old(m)@.creatures[k].info.position,
                    },
                    what: Notice::UnitDied { guid: old(m)@.creatures[k].guid },
                },
            )
        },
        old(m)@.creature(guid) == Some(k) && !(old(m)@.creatures[k].life_state is Alive) ==> final(m)@ == old(m)@
            && final(out)@ == old(out)@,
        !old(m)@.creature_keys.contains_key(guid) ==> final(m)@ == old(m)@ && final(out)@ == old(out)@,
        old(m)@.creature(guid) != Some(k) && old(m)@.creature(guid) is Some ==> final(m)@.creatures[k] == old(m)@.creatures[k],
        final(m)@.clients == old(m)@.clients,
{
    reveal(MapView::commanded);
    reveal(MapView::told_of_command);
    assert(old(out)@ + Seq::<Outgoing>::empty() =~= old(out)@);
}

/// Every creature that is asked for is on the map afterwards, under the key that is
/// returned, unless a later one took its guid; nobody leaves the map.
pub proof fn every_command_is_carried_out(
    m: &mut MapState,
    cmds: Vec<WorldCommand>,
    heights: &Vec<Option<u32>>,
    near: &Vec<Vec<usize>>,
    now: u64,
    out: &mut Vec<Outgoing>,
    keys: Vec<usize>,
    i: int,
    k: usize,
)
    requires
        old(m).wf(),
        heights@.len() == cmds@.len(),
        near@.len() == cmds@.len(),
        call_ensures(MapState::apply_commands, (m, cmds, heights, near, now, out), keys),
        0 <= i < cmds@.len(),
    ensures
        cmds@[i] is SpawnCreature ==> final(m)@.creatures.contains_key(keys@[i]) && !old(m)@.creatures.contains_key(
            keys@[i],
        ) && final(m)@.creatures[keys@[i]].guid == cmds@[i]->SpawnCreature_0.guid && final(m)@.creatures[keys@[i]].map
            == cmds@[i]->SpawnCreature_0.map && final(m)@.creatures[keys@[i]].info.position.x
            == cmds@[i]->SpawnCreature_0.info.position.x && final(m)@.creatures[keys@[i]].info.position.y
            == cmds@[i]->SpawnCreature_0.info.position.y,
        old(m)@.creatures.contains_key(k) ==> final(m)@.creatures.contains_key(k) && final(m)@.creatures[k].guid
            == old(m)@.creatures[k].guid && final(m)@.creatures[k].info.position == old(m)@.creatures[k].info.position,
        final(m)@.clients.dom() == old(m)@.clients.dom(),
{
    let l = corpses::lists_of(near@);
    let n = cmds@.len() as int;
    assert(cmds@.take(n) =~= cmds@);
    lemma_kept(old(m)@, cmds@, heights@, l, keys@, now, 0, n, k);
    assert(cmds@.take(0) =~= Seq::<WorldCommand>::empty());
    if cmds@[i] is SpawnCreature {
        let mid = old(m)@.all_commanded(cmds@.take(i), heights@, l, keys@, now);
        let then = old(m)@.all_commanded(cmds@.take(i + 1), heights@, l, keys@, now);
        assert(cmds@.take(i + 1).drop_last() =~= cmds@.take(i));
        assert(cmds@.take(i + 1).last() == cmds@[i]);
        reveal(MapView::commanded);
        lemma_kept(old(m)@, cmds@, heights@, l, keys@, now, 0, i, keys@[i]);
        lemma_kept(old(m)@, cmds@, heights@, l, keys@, now, i + 1, n, keys@[i]);
        assert(then.creatures.contains_key(keys@[i]));
    }
}

proof fn lemma_kept(
    v: MapView,
    cmds: Seq<WorldCommand>,
    heights: Seq<Option<u32>>,
    near: Seq<Seq<usize>>,
    keys: Seq<usize>,
    now: u64,
    i: int,
    j: int,
    k: usize,
)
    requires
        0 <= i <= j <= cmds.len(),
        forall|i: int|
            0 <= i < cmds.len() && (#[trigger] cmds[i]) is SpawnCreature ==> !v.all_commanded(
                cmds.take(i),
                heights,
                near,
                keys,
                now,
            ).creatures.contains_key(keys[i]),
    ensures
        ({
            let a = v.all_commanded(cmds.take(i), heights, near, keys, now);
            let b = v.all_commanded(cmds.take(j), heights, near, keys, now);
            &&& a.creatures.contains_key(k) ==> b.creatures.contains_key(k) && b.creatures[k].guid
                == a.creatures[k].guid && b.creatures[k].map == a.creatures[k].map && b.creatures[k].info.position
                == a.creatures[k].info.position
            &&& b.clients.dom() == a.clients.dom()
        }),
    decreases j - i,
{
    if i < j {
        lemma_kept(v, cmds, heights, near, keys, now, i, j - 1, k);
        assert(cmds.take(j).drop_last() =~= cmds.take(j - 1));
        assert(cmds.take(j).last() == cmds[j - 1]);
        reveal(MapView::commanded);
        let mid = v.all_commanded(cmds.take(j - 1), heights, near, keys, now);
        let b = v.all_commanded(cmds.take(j), heights, near, keys, now);
        if cmds[j - 1] is SpawnCreature {
            assert(!mid.creatures.contains_key(keys[j - 1]));
        }
        assert(b.clients.dom() =~= mid.clients.dom());
    }
}

pub(crate) proof fn lemma_populated(v: MapView, cs: Seq<Creature>, keys: Seq<usize>, i: int, k: usize)
    requires
        keys.no_duplicates(),
        cs.len() <= keys.len(),
    ensures
        ({
            let w = v.populated(cs, keys);
            &&& 0 <= i < cs.len() ==> w.creatures.contains_key(keys[i]) && w.creatures[keys[i]] == cs[i]
            &&& (forall|j: int| 0 <= j < cs.len() ==> #[trigger] keys[j] != k) ==> (w.creatures.contains_key(k)
                <==> v.creatures.contains_key(k))
            &&& 0 <= i < cs.len() && (forall|j: int|
                i < j < cs.len() ==> (#[trigger] cs[j]).guid != cs[i].guid) ==> w.creature_keys.contains_key(cs[i].guid)
                && w.creature_keys[cs[i].guid] == keys[i]
            &&& w.clients == v.clients && w.map == v.map
        }),
    decreases cs.len(),
{
    if cs.len() > 0 {
        let n = cs.len() - 1;
        let init = cs.drop_last();
        lemma_populated(v, init, keys, i, k);
        assert(cs[n] == cs.last());
        if 0 <= i < n {
            assert(init[i] == cs[i]);
            if forall|j: int| i < j < cs.len() ==> (#[trigger] cs[j]).guid != cs[i].guid {
                assert(cs[n].guid != cs[i].guid);
                assert forall|j: int| i < j < init.len() implies (#[trigger] init[j]).guid != cs[i].guid by {
                    assert(init[j] == cs[j]);
                }
            }
        }
        if forall|j: int| 0 <= j < cs.len() ==> #[trigger] keys[j] != k {
            assert(keys[n] != k);
        }
    }
}

/// A map starts with all its creatures as they are, each under its key, and with nothing
/// else; whoever is the last with a guid is found by it.
pub proof fn a_map_starts_with_its_creatures(
    map: u32,
    creatures: Vec<Creature>,
    tick: &TickConfig,
    r: (MapState, Vec<usize>),
    i: int,
    k: usize,
)
    requires
        call_ensures(MapState::build_map_state_with_creatures, (map, creatures, tick), r),
    ensures
        r.0@.map == map,
        r.0@.clients.dom() =~= Set::<usize>::empty(),
        r.1@.len() == creatures@.len(),
        0 <= i < creatures@.len() ==> r.0@.creatures.contains_key(r.1@[i]) && r.0@.creatures[r.1@[i]] == creatures@[i],
        r.0@.creatures.contains_key(k) ==> r.1@.contains(k),
        0 <= i < creatures@.len() && (forall|j: int|
            i < j < creatures@.len() ==> (#[trigger] creatures@[j]).guid != creatures@[i].guid)
            ==> r.0@.creature_keys.contains_key(creatures@[i].guid) && r.0@.creature_keys[creatures@[i].guid] == r.1@[i],
{
    let empty = choose|empty: MapState|
        #![trigger empty@]
        call_ensures(MapState::new_empty, (map, tick), empty) && r.0@ == empty@.populated(creatures@, r.1@);
    lemma_populated(empty@, creatures@, r.1@, i, k);
    if r.0@.creatures.contains_key(k) && !r.1@.contains(k) {
        assert forall|j: int| 0 <= j < creatures@.len() implies #[trigger] r.1@[j] != k by {}
    }
}

} // verus!

//! Spells that hit everybody around the caster.
//!
//! Distances come in as squares, by the bit patterns of their values.
use crate::aoi::EntityView;
use crate::character::Character;
use crate::client::ClientView;
use crate::clock;
use crate::command::{CommandQueue, UnitEffect, WorldCommand};
use crate::creature::{Creature, CreatureBehavior};
use crate::map_state::{MapState, MapView};
use crate::movement;
use crate::movement::{MovementInfo, FORWARD};
use crate::slabs;
use crate::swing;
use vstd::prelude::*;

verus! {

pub const SPELL_ARCANE_EXPLOSION: u32 = 1449;

/// What an arcane explosion takes from everybody it hits.
pub const BOOM_DAMAGE: u32 = 1332;

/// The square of ten yards.
pub const BOOM_RADIUS_SQ: u32 = 0x42c8_0000;

pub const SPELL_FROST_NOVA: u32 = 122;

/// The square of fourteen yards.
pub const NOVA_RADIUS_SQ: u32 = 0x4344_0000;

/// How long a frost nova roots: six seconds.
pub const ROOT_DURATION: u64 = 6_000_000_000;

impl MapView {
    /// Whether the explosion reaches the creature of the entry `d`.
    pub open spec fn boom_reaches(self, d: (usize, u32), map: u32) -> bool {
        self.creatures.contains_key(d.0) && self.creatures[d.0].map == map && d.1 <= BOOM_RADIUS_SQ
    }

    /// After an explosion on `map`; `dists` holds creatures with their distance.
    pub open spec fn boomed(self, dists: Seq<(usize, u32)>, map: u32) -> MapView
        decreases dists.len(),
    {
        if dists.len() == 0 {
            self
        } else {
            let v = self.boomed(dists.drop_last(), map);
            let d = dists.last();
            if v.boom_reaches(d, map) {
                MapView {
                    creatures: v.creatures.insert(
                        d.0,
                        Creature { health: swing::left_of(v.creatures[d.0].health, BOOM_DAMAGE), ..v.creatures[d.0] },
                    ),
                    ..v
                }
            } else {
                v
            }
        }
    }

    /// Whom the explosion hits, with what they have left.
    pub open spec fn boom_hits(self, dists: Seq<(usize, u32)>, map: u32) -> Seq<(u64, u32)>
        decreases dists.len(),
    {
        if dists.len() == 0 {
            Seq::empty()
        } else {
            let v = self.boomed(dists.drop_last(), map);
            let d = dists.last();
            let before = self.boom_hits(dists.drop_last(), map);
            if v.boom_reaches(d, map) {
                before.push((v.creatures[d.0].guid, swing::left_of(v.creatures[d.0].health, BOOM_DAMAGE)))
            } else {
                before
            }
        }
    }
}

/// Those who have nothing left are to be killed.
pub open spec fn kills(hits: Seq<(u64, u32)>) -> Seq<WorldCommand>
    decreases hits.len(),
{
    if hits.len() == 0 {
        Seq::empty()
    } else if hits.last().1 == 0 {
        kills(hits.drop_last()).push(WorldCommand::KillCreature(hits.last().0))
    } else {
        kills(hits.drop_last())
    }
}

impl MapState {
    /// An arcane explosion on `map`. Returned is whom it hits, with what they
    /// have left.
    pub fn boom(&mut self, dists: &Vec<(usize, u32)>, map: u32, commands: &mut CommandQueue) -> (r: Vec<(u64, u32)>)
        requires
            old(self).wf(),
        ensures
            final(self).wf(),
            final(self)@.keeps_clients_of(old(self)@),
            final(self)@ == old(self)@.boomed(dists@, map),
            r@ == old(self)@.boom_hits(dists@, map),
            final(commands)@ == old(commands)@ + kills(old(self)@.boom_hits(dists@, map)),
    {
        let ghost was = self@;
        let mut hits: Vec<(u64, u32)> = Vec::new();
        let mut i: usize = 0;
        assert(dists@.take(0) =~= Seq::<(usize, u32)>::empty());
        assert(commands@ =~= commands@ + kills(hits@));
        while i < dists.len()
            invariant
                i <= dists@.len(),
                self.wf(),
                self@.keeps_clients_of(old(self)@),
                self@ == was.boomed(dists@.take(i as int), map),
                hits@ == was.boom_hits(dists@.take(i as int), map),
                commands@ == old(commands)@ + kills(hits@),
            decreases dists.len() - i,
        {
            let d: (usize, u32) = dists[i];
            let ghost before = self@;
            let ghost had = hits@;
            proof {
                assert(dists@.take(i + 1).drop_last() =~= dists@.take(i as int));
                assert(dists@.take(i + 1).last() == d);
            }
            let mut hit: Option<(u64, u32)> = None;
            match slabs::creatures_get_mut(&mut self.creatures, d.0) {
                Some(c) => {
                    if c.map == map && d.1 <= BOOM_RADIUS_SQ {
                        c.health = c.health.saturating_sub(BOOM_DAMAGE);
                        hit = Some((c.guid, c.health));
                    }
                },
                None => {},
            }
            match hit {
                Some(h) => {
                    hits.push(h);
                    assert(hits@.drop_last() =~= had);
                    if h.1 == 0 {
                        commands.push(WorldCommand::KillCreature(h.0));
                    }
                    assert(commands@ =~= old(commands)@ + kills(hits@));
                },
                None => {
                    assert(self@.creatures =~= before.creatures);
                },
            }
            assert(self@ =~= was.boomed(dists@.take(i + 1), map));
            i += 1;
        }
        assert(dists@.take(i as int) =~= dists@);
        hits
    }
}

/// Whom a frost nova hits, and who is made to stop.
#[derive(Debug)]
pub struct NovaOutcome {
    pub creature_hits: Vec<u64>,
    pub creature_stops: Vec<(u64, MovementInfo)>,
    pub client_hits: Vec<(u64, MovementInfo)>,
}

/// A creature in a frost nova: rooted, and stopped if it walks.
pub open spec fn frozen(c: Creature, until: u64) -> Creature {
    let info = if walks_forward(c) {
        MovementInfo { flags: 0, ..c.info }
    } else {
        c.info
    };
    Creature { root_until: Some(until), info, ..c }
}

/// Whether the creature is one that walks around, and does.
pub open spec fn walks_forward(c: Creature) -> bool {
    c.behavior.walks() && movement::has_flag(c.info.flags, FORWARD)
}

/// A player in a frost nova: rooted and stopped.
pub open spec fn frozen_player(c: ClientView, until: u64) -> ClientView {
    ClientView {
        character: Character {
            root_until: Some(until),
            info: MovementInfo { flags: 0, ..c.character.info },
            ..c.character
        },
        ..c
    }
}

impl MapView {
    /// Whether the nova reaches the creature of the entry `d`.
    pub open spec fn nova_reaches(self, d: (usize, u32), map: u32) -> bool {
        self.creatures.contains_key(d.0) && self.creatures[d.0].map == map && d.1 <= NOVA_RADIUS_SQ
    }

    /// Whether the nova reaches the player of the entry `d`, who is not the
    /// caster.
    pub open spec fn nova_reaches_player(self, d: (usize, u32), map: u32, caster: u64) -> bool {
        self.clients.contains_key(d.0) && self.clients[d.0].character.map == map
            && self.clients[d.0].character.guid != caster && d.1 <= NOVA_RADIUS_SQ
    }

    /// The creatures after a nova.
    pub open spec fn creatures_frozen(self, dists: Seq<(usize, u32)>, map: u32, until: u64) -> MapView
        decreases dists.len(),
    {
        if dists.len() == 0 {
            self
        } else {
            let v = self.creatures_frozen(dists.drop_last(), map, until);
            let d = dists.last();
            if v.nova_reaches(d, map) {
                MapView { creatures: v.creatures.insert(d.0, frozen(v.creatures[d.0], until)), ..v }
            } else {
                v
            }
        }
    }

    pub open spec fn nova_hits(self, dists: Seq<(usize, u32)>, map: u32, until: u64) -> Seq<u64>
        decreases dists.len(),
    {
        if dists.len() == 0 {
            Seq::empty()
        } else {
            let v = self.creatures_frozen(dists.drop_last(), map, until);
            let d = dists.last();
            let before = self.nova_hits(dists.drop_last(), map, until);
            if v.nova_reaches(d, map) {
                before.push(v.creatures[d.0].guid)
            } else {
                before
            }
        }
    }

    pub open spec fn nova_stops(self, dists: Seq<(usize, u32)>, map: u32, until: u64) -> Seq<(u64, MovementInfo)>
        decreases dists.len(),
    {
        if dists.len() == 0 {
            Seq::empty()
        } else {
            let v = self.creatures_frozen(dists.drop_last(), map, until);
            let d = dists.last();
            let before = self.nova_stops(dists.drop_last(), map, until);
            if v.nova_reaches(d, map) && walks_forward(v.creatures[d.0]) {
                before.push((v.creatures[d.0].guid, frozen(v.creatures[d.0], until).info))
            } else {
                before
            }
        }
    }

    /// The players after a nova.
    pub open spec fn players_frozen(self, dists: Seq<(usize, u32)>, map: u32, caster: u64, until: u64) -> MapView
        decreases dists.len(),
    {
        if dists.len() == 0 {
            self
        } else {
            let v = self.players_frozen(dists.drop_last(), map, caster, until);
            let d = dists.last();
            if v.nova_reaches_player(d, map, caster) {
                MapView { clients: v.clients.insert(d.0, frozen_player(v.clients[d.0], until)), ..v }
            } else {
                v
            }
        }
    }

    pub open spec fn player_hits(self, dists: Seq<(usize, u32)>, map: u32, caster: u64, until: u64) -> Seq<
        (u64, MovementInfo),
    >
        decreases dists.len(),
    {
        if dists.len() == 0 {
            Seq::empty()
        } else {
            let v = self.players_frozen(dists.drop_last(), map, caster, until);
            let d = dists.last();
            let before = self.player_hits(dists.drop_last(), map, caster, until);
            if v.nova_reaches_player(d, map, caster) {
                let c = frozen_player(v.clients[d.0], until).character;
                before.push((c.guid, c.info))
            } else {
                before
            }
        }
    }
}

impl MapState {
    fn freeze_creatures(
        &mut self,
        dists: &Vec<(usize, u32)>,
        map: u32,
        until: u64,
        hits: &mut Vec<u64>,
        stops: &mut Vec<(u64, MovementInfo)>,
    )
        requires
            old(self).wf(),
            old(hits)@.len() == 0,
            old(stops)@.len() == 0,
        ensures
            final(self).wf(),
            final(self)@.keeps_clients_of(old(self)@),
            final(self)@ == old(self)@.creatures_frozen(dists@, map, until),
            final(hits)@ == old(self)@.nova_hits(dists@, map, until),
            final(stops)@ == old(self)@.nova_stops(dists@, map, until),
    {
        let ghost was = self@;
        let mut i: usize = 0;
        assert(dists@.take(0) =~= Seq::<(usize, u32)>::empty());
        assert(hits@ =~= was.nova_hits(dists@.take(0), map, until));
        assert(stops@ =~= was.nova_stops(dists@.take(0), map, until));
        while i < dists.len()
            invariant
                i <= dists@.len(),
                self.wf(),
                self@.keeps_clients_of(old(self)@),
                self@ == was.creatures_frozen(dists@.take(i as int), map, until),
                hits@ == was.nova_hits(dists@.take(i as int), map, until),
                stops@ == was.nova_stops(dists@.take(i as int), map, until),
            decreases dists.len() - i,
        {
            let d: (usize, u32) = dists[i];
            let ghost before = self@;
            proof {
                assert(dists@.take(i + 1).drop_last() =~= dists@.take(i as int));
                assert(dists@.take(i + 1).last() == d);
            }
            match slabs::creatures_get_mut(&mut self.creatures, d.0) {
                Some(c) => {
                    if c.map == map && d.1 <= NOVA_RADIUS_SQ {
                        c.root_until = Some(until);
                        let walks: bool = match &c.behavior {
                            CreatureBehavior::RandomWander { .. } => true,
                            CreatureBehavior::Waypoint { .. } => true,
                            _ => false,
                        };
                        if walks && c.info.flags & FORWARD != 0 {
                            c.info.flags = 0;
                            stops.push((c.guid, c.info));
                        }
                        hits.push(c.guid);
                    }
                },
                None => {},
            }
            proof {
                if before.nova_reaches(d, map) {
                    assert(self@.creatures =~= before.creatures.insert(d.0, frozen(before.creatures[d.0], until)));
                } else {
                    assert(self@.creatures =~= before.creatures);
                }
                assert(self@ =~= was.creatures_frozen(dists@.take(i + 1), map, until));
            }
            i += 1;
        }
        assert(dists@.take(i as int) =~= dists@);
    }

    fn freeze_players(
        &mut self,
        dists: &Vec<(usize, u32)>,
        map: u32,
        caster: u64,
        until: u64,
        hits: &mut Vec<(u64, MovementInfo)>,
    )
        requires
            old(self).wf(),
            old(hits)@.len() == 0,
        ensures
            final(self).wf(),
            final(self)@.keeps_clients_of(old(self)@),
            final(self)@ == old(self)@.players_frozen(dists@, map, caster, until),
            final(hits)@ == old(self)@.player_hits(dists@, map, caster, until),
    {
        let ghost was = self@;
        let mut i: usize = 0;
        assert(dists@.take(0) =~= Seq::<(usize, u32)>::empty());
        assert(hits@ =~= was.player_hits(dists@.take(0), map, caster, until));
        while i < dists.len()
            invariant
                i <= dists@.len(),
                self.wf(),
                self@.keeps_clients_of(old(self)@),
                self@ == was.players_frozen(dists@.take(i as int), map, caster, until),
                hits@ == was.player_hits(dists@.take(i as int), map, caster, until),
            decreases dists.len() - i,
        {
            let d: (usize, u32) = dists[i];
            let ghost before = self@;
            proof {
                assert(dists@.take(i + 1).drop_last() =~= dists@.take(i as int));
                assert(dists@.take(i + 1).last() == d);
            }
            match slabs::clients_get_mut(&mut self.clients, d.0) {
                Some(c) => {
                    assert(c@ == before.clients[d.0]);
                    if c.character.map == map && c.character.guid != caster && d.1 <= NOVA_RADIUS_SQ {
                        c.character.info.flags = 0;
                        c.character.root_until = Some(until);
                        hits.push((c.character.guid, c.character.info));
                    }
                },
                None => {},
            }
            proof {
                if before.nova_reaches_player(d, map, caster) {
                    assert(self@.clients =~= before.clients.insert(d.0, frozen_player(before.clients[d.0], until)));
                } else {
                    assert(self@.clients =~= before.clients);
                }
                assert(self@.clients.dom() =~= before.clients.dom());
                assert(self@ =~= was.players_frozen(dists@.take(i + 1), map, caster, until));
            }
            i += 1;
        }
        assert(dists@.take(i as int) =~= dists@);
    }

    /// A frost nova of `caster` at `now`: everybody in reach is rooted for six
    /// seconds, but for the caster.
    pub fn nova(
        &mut self,
        caster: &Character,
        creature_dists: &Vec<(usize, u32)>,
        client_dists: &Vec<(usize, u32)>,
        now: u64,
    ) -> (r: NovaOutcome)
        requires
            old(self).wf(),
        ensures
            final(self).wf(),
            final(self)@.keeps_clients_of(old(self)@),
            ({
                let until = clock::later_spec(now, ROOT_DURATION);
                let mid = old(self)@.creatures_frozen(creature_dists@, caster.map, until);
                &&& final(self)@ == mid.players_frozen(client_dists@, caster.map, caster.guid, until)
                &&& r.creature_hits@ == old(self)@.nova_hits(creature_dists@, caster.map, until)
                &&& r.creature_stops@ == old(self)@.nova_stops(creature_dists@, caster.map, until)
                &&& r.client_hits@ == mid.player_hits(client_dists@, caster.map, caster.guid, until)
            }),
    {
        let until: u64 = clock::later(now, ROOT_DURATION);
        let mut creature_hits: Vec<u64> = Vec::new();
        let mut creature_stops: Vec<(u64, MovementInfo)> = Vec::new();
        let mut client_hits: Vec<(u64, MovementInfo)> = Vec::new();
        self.freeze_creatures(creature_dists, caster.map, until, &mut creature_hits, &mut creature_stops);
        self.freeze_players(client_dists, caster.map, caster.guid, until, &mut client_hits);
        NovaOutcome { creature_hits, creature_stops, client_hits }
    }
}

/// The guids of those of `seen` whom a nova of `caster` reaches, creatures or
/// players.
pub open spec fn caught(seen: Seq<EntityView>, dists: Seq<u32>, players: bool, caster: u64) -> Seq<u64>
    decreases seen.len(),
{
    if seen.len() == 0 {
        Seq::empty()
    } else {
        let n = seen.len() - 1;
        let before = caught(seen.drop_last(), dists, players, caster);
        if seen.last().is_client == players && dists[n] <= NOVA_RADIUS_SQ && !(players && seen.last().guid == caster) {
            before.push(seen.last().guid)
        } else {
            before
        }
    }
}

fn catch(seen: &Vec<EntityView>, dists: &Vec<u32>, players: bool, caster: u64) -> (r: Vec<u64>)
    requires
        seen@.len() == dists@.len(),
    ensures
        r@ == caught(seen@, dists@, players, caster),
{
    let mut r: Vec<u64> = Vec::new();
    let mut i: usize = 0;
    assert(seen@.take(0) =~= Seq::<EntityView>::empty());
    assert(r@ =~= caught(seen@.take(0), dists@, players, caster));
    while i < seen.len()
        invariant
            i <= seen@.len(),
            seen@.len() == dists@.len(),
            r@ == caught(seen@.take(i as int), dists@, players, caster),
        decreases seen.len() - i,
    {
        let v: EntityView = seen[i];
        proof {
            assert(seen@.take(i + 1).drop_last() =~= seen@.take(i as int));
            assert(seen@.take(i + 1).last() == v);
        }
        if v.is_client == players && dists[i] <= NOVA_RADIUS_SQ && !(players && v.guid == caster) {
            r.push(v.guid);
        }
        i += 1;
    }
    assert(seen@.take(i as int) =~= seen@);
    r
}

/// What a cast frost nova does.
#[derive(Debug)]
pub struct FrostNova {
    pub creature_hits: Vec<u64>,
    pub client_hits: Vec<u64>,
    /// Whom others are told to show standing still.
    pub stops: Vec<(u64, MovementInfo)>,
    /// The players who are told that they are rooted.
    pub rooted: Vec<u64>,
}

impl MapView {
    /// After an effect on each of `guids`, one after the other.
    pub open spec fn all_affected(self, guids: Seq<u64>, effect: UnitEffect) -> MapView
        decreases guids.len(),
    {
        if guids.len() == 0 {
            self
        } else {
            self.all_affected(guids.drop_last(), effect).affected(guids.last(), effect)
        }
    }

    /// How those creatures of `guids` that there are move.
    pub open spec fn creature_infos(self, guids: Seq<u64>) -> Seq<(u64, MovementInfo)>
        decreases guids.len(),
    {
        if guids.len() == 0 {
            Seq::empty()
        } else {
            let before = self.creature_infos(guids.drop_last());
            match self.creature(guids.last()) {
                Some(k) => before.push((guids.last(), self.creatures[k].info)),
                None => before,
            }
        }
    }

    /// How those players of `guids` that there are move.
    pub open spec fn player_infos(self, guids: Seq<u64>) -> Seq<(u64, MovementInfo)>
        decreases guids.len(),
    {
        if guids.len() == 0 {
            Seq::empty()
        } else {
            let before = self.player_infos(guids.drop_last());
            match self.player(guids.last()) {
                Some(k) => before.push((guids.last(), self.clients[k].character.info)),
                None => before,
            }
        }
    }
}

/// The guids of a list of movements.
pub open spec fn whose(s: Seq<(u64, MovementInfo)>) -> Seq<u64> {
    s.map_values(|m: (u64, MovementInfo)| m.0)
}

pub(crate) fn guids_of(s: &Vec<(u64, MovementInfo)>) -> (r: Vec<u64>)
    ensures
        r@ == whose(s@),
{
    let mut r: Vec<u64> = Vec::new();
    let mut i: usize = 0;
    assert(r@ =~= whose(s@.take(0)));
    while i < s.len()
        invariant
            i <= s@.len(),
            r@ == whose(s@.take(i as int)),
        decreases s.len() - i,
    {
        r.push(s[i].0);
        i += 1;
        assert(r@ =~= whose(s@.take(i as int)));
    }
    assert(s@.take(i as int) =~= s@);
    r
}

impl MapState {
    fn affect_all(&mut self, guids: &Vec<u64>, effect: UnitEffect)
        requires
            old(self).wf(),
        ensures
            final(self).wf(),
            final(self)@.keeps_clients_of(old(self)@),
            final(self)@ == old(self)@.all_affected(guids@, effect),
    {
        let ghost was = self@;
        let mut i: usize = 0;
        assert(guids@.take(0) =~= Seq::<u64>::empty());
        while i < guids.len()
            invariant
                i <= guids@.len(),
                self.wf(),
                self@.keeps_clients_of(old(self)@),
                self@ == was.all_affected(guids@.take(i as int), effect),
            decreases guids.len() - i,
        {
            self.apply_effect(guids[i], effect);
            assert(guids@.take(i + 1).drop_last() =~= guids@.take(i as int));
            assert(guids@.take(i + 1).last() == guids@[i as int]);
            i += 1;
        }
        assert(guids@.take(i as int) =~= guids@);
    }

    fn infos_of_creatures(&self, guids: &Vec<u64>) -> (r: Vec<(u64, MovementInfo)>)
        ensures
            r@ == self@.creature_infos(guids@),
    {
        let mut r: Vec<(u64, MovementInfo)> = Vec::new();
        let mut i: usize = 0;
        assert(guids@.take(0) =~= Seq::<u64>::empty());
        assert(r@ =~= self@.creature_infos(guids@.take(0)));
        while i < guids.len()
            invariant
                i <= guids@.len(),
                r@ == self@.creature_infos(guids@.take(i as int)),
            decreases guids.len() - i,
        {
            let g: u64 = guids[i];
            assert(guids@.take(i + 1).drop_last() =~= guids@.take(i as int));
            assert(guids@.take(i + 1).last() == g);
            if let Some(k) = self.find_creature(g) {
                if let Some(c) = slabs::creatures_get(&self.creatures, k) {
                    r.push((g, c.info));
                }
            }
            i += 1;
        }
        assert(guids@.take(i as int) =~= guids@);
        r
    }

    fn infos_of_players(&self, guids: &Vec<u64>) -> (r: Vec<(u64, MovementInfo)>)
        ensures
            r@ == self@.player_infos(guids@),
    {
        let mut r: Vec<(u64, MovementInfo)> = Vec::new();
        let mut i: usize = 0;
        assert(guids@.take(0) =~= Seq::<u64>::empty());
        assert(r@ =~= self@.player_infos(guids@.take(0)));
        while i < guids.len()
            invariant
                i <= guids@.len(),
                r@ == self@.player_infos(guids@.take(i as int)),
            decreases guids.len() - i,
        {
            let g: u64 = guids[i];
            assert(guids@.take(i + 1).drop_last() =~= guids@.take(i as int));
            assert(guids@.take(i + 1).last() == g);
            if let Some(k) = self.find_player(g) {
                if let Some(c) = slabs::clients_get(&self.clients, k) {
                    assert(c@ == self@.clients[k]);
                    r.push((g, c.character.info));
                }
            }
            i += 1;
        }
        assert(guids@.take(i as int) =~= guids@);
        r
    }

    /// A frost nova that a player casts at `now`. `seen` holds who stood around
    /// the caster when the tick began, and `dists` how far away. Whoever is in
    /// reach is rooted for six seconds, but for the caster.
    pub fn cast_frost_nova(&mut self, caster: &Character, seen: &Vec<EntityView>, dists: &Vec<u32>, now: u64) -> (r:
        FrostNova)
        requires
            old(self).wf(),
            seen@.len() == dists@.len(),
        ensures
            final(self).wf(),
            final(self)@.keeps_clients_of(old(self)@),
            r.creature_hits@ == caught(seen@, dists@, false, caster.guid),
            r.client_hits@ == caught(seen@, dists@, true, caster.guid),
            ({
                let root = UnitEffect::Root { until: clock::later_spec(now, ROOT_DURATION) };
                final(self)@ == old(self)@.all_affected(r.creature_hits@, root).all_affected(r.client_hits@, root)
            }),
            r.stops@ == final(self)@.creature_infos(r.creature_hits@) + final(self)@.player_infos(r.client_hits@),
            r.rooted@ == whose(final(self)@.player_infos(r.client_hits@)),
    {
        let root = UnitEffect::Root { until: clock::later(now, ROOT_DURATION) };
        let creature_hits = catch(seen, dists, false, caster.guid);
        let client_hits = catch(seen, dists, true, caster.guid);
        self.affect_all(&creature_hits, root);
        self.affect_all(&client_hits, root);
        let mut stops = self.infos_of_creatures(&creature_hits);
        let mut players = self.infos_of_players(&client_hits);
        let rooted: Vec<u64> = guids_of(&players);
        stops.append(&mut players);
        FrostNova { creature_hits, client_hits, stops, rooted }
    }
}

/// An explosion kills nobody who has more health than it takes.
pub proof fn the_hardy_survive(v: MapView, d: (usize, u32), map: u32)
    requires
        v.boom_reaches(d, map),
        v.creatures[d.0].health > BOOM_DAMAGE,
    ensures
        kills(v.boom_hits(seq![d], map)).len() == 0,
        v.boomed(seq![d], map).creatures[d.0].health == v.creatures[d.0].health - BOOM_DAMAGE,
{
    reveal_with_fuel(MapView::boomed, 2);
    reveal_with_fuel(MapView::boom_hits, 2);
    reveal_with_fuel(kills, 2);
    assert(seq![d].drop_last() =~= Seq::<(usize, u32)>::empty());
}

/// Whoever a nova catches is rooted when it is over and stands still.
pub proof fn the_caught_are_rooted(v: MapView, guid: u64, until: u64)
    ensures
        ({
            let after = v.affected(guid, UnitEffect::Root { until });
            match v.creature(guid) {
                Some(k) => after.creatures[k].root_until == Some(until) && after.creatures[k].info.flags == 0,
                None => match v.player(guid) {
                    Some(k) => after.clients[k].character.root_until == Some(until)
                        && after.clients[k].character.info.flags == 0,
                    None => after == v,
                },
            }
        }),
{
}

proof fn lemma_boomed(v: MapView, dists: Seq<(usize, u32)>, map: u32, k: usize)
    ensures
        ({
            let w = v.boomed(dists, map);
            &&& w == (MapView { creatures: w.creatures, ..v })
            &&& w.creatures.dom() == v.creatures.dom()
            &&& v.creatures.contains_key(k) ==> w.creatures[k].map == v.creatures[k].map && w.creatures[k].guid
                == v.creatures[k].guid
            &&& (forall|i: int| 0 <= i < dists.len() ==> (#[trigger] dists[i]).0 != k) ==> w.creatures[k]
                == v.creatures[k]
        }),
    decreases dists.len(),
{
    if dists.len() > 0 {
        let init = dists.drop_last();
        lemma_boomed(v, init, map, k);
        assert(dists[dists.len() - 1] == dists.last());
        if forall|i: int| 0 <= i < dists.len() ==> (#[trigger] dists[i]).0 != k {
            assert forall|i: int| 0 <= i < init.len() implies (#[trigger] init[i]).0 != k by {
                assert(init[i] == dists[i]);
            }
        }
        assert(v.boomed(dists, map).creatures.dom() =~= v.creatures.dom());
    }
}

/// Whether no entry is about the same one as another.
pub open spec fn once_each(dists: Seq<(usize, u32)>) -> bool {
    forall|i: int, j: int| 0 <= i < j < dists.len() ==> (#[trigger] dists[i]).0 != (#[trigger] dists[j]).0
}

proof fn lemma_once(dists: Seq<(usize, u32)>)
    requires
        once_each(dists),
        dists.len() > 0,
    ensures
        once_each(dists.drop_last()),
        forall|i: int|
            0 <= i < dists.drop_last().len() ==> (#[trigger] dists.drop_last()[i]).0 != dists.last().0,
{
    let init = dists.drop_last();
    assert forall|i: int, j: int| 0 <= i < j < init.len() implies (#[trigger] init[i]).0 != (#[trigger] init[j]).0 by {
        assert(init[i] == dists[i] && init[j] == dists[j]);
    }
    assert forall|i: int| 0 <= i < init.len() implies (#[trigger] init[i]).0 != dists.last().0 by {
        assert(init[i] == dists[i]);
        assert(dists[dists.len() - 1] == dists.last());
    }
}

pub(crate) proof fn lemma_boom_at(v: MapView, dists: Seq<(usize, u32)>, map: u32, i: int)
    requires
        once_each(dists),
        0 <= i < dists.len(),
        v.creatures.contains_key(dists[i].0),
    ensures
        ({
            let c = v.creatures[dists[i].0];
            let after = v.boomed(dists, map).creatures[dists[i].0];
            let left: int = if c.health > 1332 {
                c.health - 1332
            } else {
                0
            };
            let hits = v.boom_hits(dists, map);
            &&& c.map == map && dists[i].1 <= 0x42c8_0000 ==> after == (Creature { health: left as u32, ..c })
                && hits.contains((c.guid, left as u32))
            &&& !(c.map == map && dists[i].1 <= 0x42c8_0000) ==> after == c
        }),
    decreases dists.len(),
{
    let init = dists.drop_last();
    lemma_once(dists);
    let d = dists.last();
    let k = dists[i].0;
    lemma_boomed(v, init, map, d.0);
    let before = v.boom_hits(init, map);
    let w = v.boomed(init, map);
    let told = (w.creatures[d.0].guid, swing::left_of(w.creatures[d.0].health, BOOM_DAMAGE));
    let c = v.creatures[k];
    let left: int = if c.health > 1332 {
        c.health - 1332
    } else {
        0
    };
    if i == dists.len() - 1 {
        crate::aoi::lemma_push_contains(before, told, told);
    } else {
        assert(init[i] == dists[i]);
        lemma_boom_at(v, init, map, i);
        assert(k != d.0);
        crate::aoi::lemma_push_contains(before, told, (c.guid, left as u32));
    }
}

proof fn lemma_boom_hit(v: MapView, dists: Seq<(usize, u32)>, map: u32, h: (u64, u32))
    requires
        once_each(dists),
        v.boom_hits(dists, map).contains(h),
    ensures
        exists|i: int|
            0 <= i < dists.len() && v.creatures.contains_key((#[trigger] dists[i]).0) && v.creatures[dists[i].0].map
                == map && dists[i].1 <= 0x42c8_0000 && v.creatures[dists[i].0].guid == h.0,
        v.boom_hits(dists, map).len() <= dists.len(),
    decreases dists.len(),
{
    if dists.len() == 0 {
        assert(false);
    }
    let init = dists.drop_last();
    lemma_once(dists);
    let d = dists.last();
    assert(dists[dists.len() - 1] == d);
    lemma_boomed(v, init, map, d.0);
    lemma_boom_len(v, init, map);
    let before = v.boom_hits(init, map);
    let w = v.boomed(init, map);
    let told = (w.creatures[d.0].guid, swing::left_of(w.creatures[d.0].health, BOOM_DAMAGE));
    if w.boom_reaches(d, map) {
        crate::aoi::lemma_push_contains(before, told, h);
    }
    if before.contains(h) {
        lemma_boom_hit(v, init, map, h);
        let i = choose|i: int|
            0 <= i < init.len() && v.creatures.contains_key((#[trigger] init[i]).0) && v.creatures[init[i].0].map
                == map && init[i].1 <= 0x42c8_0000 && v.creatures[init[i].0].guid == h.0;
        assert(dists[i] == init[i]);
    }
}

proof fn lemma_boom_len(v: MapView, dists: Seq<(usize, u32)>, map: u32)
    ensures
        v.boom_hits(dists, map).len() <= dists.len(),
    decreases dists.len(),
{
    if dists.len() > 0 {
        lemma_boom_len(v, dists.drop_last(), map);
    }
}

pub(crate) proof fn lemma_kills(hits: Seq<(u64, u32)>, guid: u64)
    ensures
        kills(hits).contains(WorldCommand::KillCreature(guid)) <==> hits.contains((guid, 0u32)),
        forall|i: int| 0 <= i < kills(hits).len() ==> (#[trigger] kills(hits)[i]) is KillCreature,
    decreases hits.len(),
{
    if hits.len() > 0 {
        let init = hits.drop_last();
        lemma_kills(init, guid);
        assert(hits =~= init.push(hits.last()));
        crate::aoi::lemma_push_contains(init, hits.last(), (guid, 0u32));
        crate::aoi::lemma_push_contains(
            kills(init),
            WorldCommand::KillCreature(hits.last().0),
            WorldCommand::KillCreature(guid),
        );
    }
}

/// An explosion takes 1332 health, or all that is left, from every creature on the map of
/// the caster within ten yards, and nothing from anybody else. Those who have nothing left
/// are to be killed, and nobody else is.
pub proof fn an_explosion_hits_everybody_near(
    m: &mut MapState,
    dists: &Vec<(usize, u32)>,
    map: u32,
    commands: &mut CommandQueue,
    r: Vec<(u64, u32)>,
    i: int,
    k: usize,
)
    requires
        old(m).wf(),
        call_ensures(MapState::boom, (m, dists, map, commands), r),
        once_each(dists@),
        0 <= i < dists@.len(),
        old(m)@.creatures.contains_key(dists@[i].0),
    ensures
        ({
            let c = old(m)@.creatures[dists@[i].0];
            let after = final(m)@.creatures[dists@[i].0];
            &&& c.map == map && dists@[i].1 <= 0x42c8_0000 ==> {
                &&& c.health > 1332 ==> after == (Creature { health: (c.health - 1332) as u32, ..c }) && r@.contains(
                    (c.guid, (c.health - 1332) as u32),
                )
                &&& c.health <= 1332 ==> after == (Creature { health: 0, ..c }) && r@.contains((c.guid, 0u32))
                    && final(commands)@.contains(WorldCommand::KillCreature(c.guid))
            }
            &&& !(c.map == map && dists@[i].1 <= 0x42c8_0000) ==> after == c
        }),
        (forall|j: int| 0 <= j < dists@.len() ==> (#[trigger] dists@[j]).0 != k) ==> final(m)@.creatures[k] == old(m)@.creatures[k],
        final(m)@.creatures.dom() == old(m)@.creatures.dom(),
        final(m)@ == (MapView { creatures: final(m)@.creatures, ..old(m)@ }),
{
    lemma_boom_at(old(m)@, dists@, map, i);
    lemma_boomed(old(m)@, dists@, map, k);
    let hits = old(m)@.boom_hits(dists@, map);
    let guid = old(m)@.creatures[dists@[i].0].guid;
    lemma_kills(hits, guid);
    let cmd = WorldCommand::KillCreature(guid);
    if kills(hits).contains(cmd) {
        let j = choose|j: int| 0 <= j < kills(hits).len() && kills(hits)[j] == cmd;
        assert(final(commands)@[old(commands)@.len() + j] == cmd);
    }
}

/// Nobody is told to have been hit by an explosion who was not near, and nobody is to be
/// killed who has something left.
pub proof fn an_explosion_hits_nobody_else(
    m: &mut MapState,
    dists: &Vec<(usize, u32)>,
    map: u32,
    commands: &mut CommandQueue,
    r: Vec<(u64, u32)>,
    guid: u64,
    left: u32,
)
    requires
        old(m).wf(),
        call_ensures(MapState::boom, (m, dists, map, commands), r),
        once_each(dists@),
    ensures
        r@.contains((guid, left)) ==> exists|i: int|
            0 <= i < dists@.len() && old(m)@.creatures.contains_key((#[trigger] dists@[i]).0) && old(m)@.creatures[dists@[i].0].map == map && dists@[i].1 <= 0x42c8_0000 && old(m)@.creatures[dists@[i].0].guid
                == guid,
        final(commands)@.contains(WorldCommand::KillCreature(guid)) && !old(commands)@.contains(
            WorldCommand::KillCreature(guid),
        ) ==> r@.contains((guid, 0u32)),
        r@.len() <= dists@.len(),
        old(commands)@ == final(commands)@.take(old(commands)@.len() as int),
{
    let hits = old(m)@.boom_hits(dists@, map);
    if hits.contains((guid, left)) {
        lemma_boom_hit(old(m)@, dists@, map, (guid, left));
    }
    lemma_boom_len(old(m)@, dists@, map);
    lemma_kills(hits, guid);
    let cmd = WorldCommand::KillCreature(guid);
    if final(commands)@.contains(cmd) && !old(commands)@.contains(cmd) {
        let j = choose|j: int| 0 <= j < final(commands)@.len() && final(commands)@[j] == cmd;
        let n = old(commands)@.len();
        if j < n {
            assert(old(commands)@[j] == cmd);
        } else {
            assert(kills(hits)[j - n] == cmd);
        }
    }
    assert(final(commands)@.take(old(commands)@.len() as int) =~= old(commands)@);
}

pub(crate) proof fn lemma_frozen_creatures(v: MapView, dists: Seq<(usize, u32)>, map: u32, until: u64, k: usize)
    ensures
        ({
            let w = v.creatures_frozen(dists, map, until);
            &&& w == (MapView { creatures: w.creatures, ..v })
            &&& w.creatures.dom() == v.creatures.dom()
            &&& (forall|i: int| 0 <= i < dists.len() ==> (#[trigger] dists[i]).0 != k) ==> w.creatures[k]
                == v.creatures[k]
        }),
    decreases dists.len(),
{
    if dists.len() > 0 {
        let init = dists.drop_last();
        lemma_frozen_creatures(v, init, map, until, k);
        assert(dists[dists.len() - 1] == dists.last());
        if forall|i: int| 0 <= i < dists.len() ==> (#[trigger] dists[i]).0 != k {
            assert forall|i: int| 0 <= i < init.len() implies (#[trigger] init[i]).0 != k by {
                assert(init[i] == dists[i]);
            }
        }
        assert(v.creatures_frozen(dists, map, until).creatures.dom() =~= v.creatures.dom());
    }
}

/// Whether the creature is one that wanders around or walks a path, and is on its way.
pub open spec fn is_walking(c: Creature) -> bool {
    (c.behavior is RandomWander || c.behavior is Waypoint) && c.info.flags & 1 == 1
}

proof fn lemma_walks(c: Creature)
    ensures
        walks_forward(c) == is_walking(c),
{
    let f = c.info.flags;
    assert(f & 1 == 1 <==> f & 1 != 0) by (bit_vector);
}

pub(crate) proof fn lemma_nova_at(v: MapView, dists: Seq<(usize, u32)>, map: u32, until: u64, i: int)
    requires
        once_each(dists),
        0 <= i < dists.len(),
        v.creatures.contains_key(dists[i].0),
    ensures
        ({
            let c = v.creatures[dists[i].0];
            let after = v.creatures_frozen(dists, map, until).creatures[dists[i].0];
            let hits = v.nova_hits(dists, map, until);
            let stops = v.nova_stops(dists, map, until);
            &&& c.map == map && dists[i].1 <= 0x4344_0000 ==> {
                &&& hits.contains(c.guid)
                &&& is_walking(c) ==> after == (Creature {
                    root_until: Some(until),
                    info: MovementInfo { flags: 0, ..c.info },
                    ..c
                }) && stops.contains((c.guid, MovementInfo { flags: 0, ..c.info }))
                &&& !is_walking(c) ==> after == (Creature { root_until: Some(until), ..c })
            }
            &&& !(c.map == map && dists[i].1 <= 0x4344_0000) ==> after == c
        }),
    decreases dists.len(),
{
    let init = dists.drop_last();
    lemma_once(dists);
    let d = dists.last();
    let k = dists[i].0;
    lemma_frozen_creatures(v, init, map, until, d.0);
    lemma_walks(v.creatures[k]);
    let w = v.creatures_frozen(init, map, until);
    let before = v.nova_hits(init, map, until);
    let stops = v.nova_stops(init, map, until);
    let c = v.creatures[k];
    crate::aoi::lemma_push_contains(before, w.creatures[d.0].guid, c.guid);
    crate::aoi::lemma_push_contains(
        stops,
        (w.creatures[d.0].guid, frozen(w.creatures[d.0], until).info),
        (c.guid, MovementInfo { flags: 0, ..c.info }),
    );
    if i < dists.len() - 1 {
        assert(init[i] == dists[i]);
        lemma_nova_at(v, init, map, until, i);
        assert(k != d.0);
    }
}

proof fn lemma_nova_hit(v: MapView, dists: Seq<(usize, u32)>, map: u32, until: u64, guid: u64)
    requires
        once_each(dists),
    ensures
        v.nova_hits(dists, map, until).contains(guid) ==> exists|i: int|
            0 <= i < dists.len() && v.creatures.contains_key((#[trigger] dists[i]).0) && v.creatures[dists[i].0].map
                == map && dists[i].1 <= 0x4344_0000 && v.creatures[dists[i].0].guid == guid,
        v.nova_hits(dists, map, until).len() <= dists.len(),
        v.nova_stops(dists, map, until).len() <= v.nova_hits(dists, map, until).len(),
    decreases dists.len(),
{
    if dists.len() > 0 {
        let init = dists.drop_last();
        lemma_once(dists);
        let d = dists.last();
        assert(dists[dists.len() - 1] == d);
        lemma_frozen_creatures(v, init, map, until, d.0);
        lemma_nova_hit(v, init, map, until, guid);
        let before = v.nova_hits(init, map, until);
        let w = v.creatures_frozen(init, map, until);
        crate::aoi::lemma_push_contains(before, w.creatures[d.0].guid, guid);
        if before.contains(guid) {
            let i = choose|i: int|
                0 <= i < init.len() && v.creatures.contains_key((#[trigger] init[i]).0) && v.creatures[init[i].0].map
                    == map && init[i].1 <= 0x4344_0000 && v.creatures[init[i].0].guid == guid;
            assert(dists[i] == init[i]);
        }
    }
}

pub(crate) proof fn lemma_frozen_players(v: MapView, dists: Seq<(usize, u32)>, map: u32, caster: u64, until: u64, k: usize)
    ensures
        ({
            let w = v.players_frozen(dists, map, caster, until);
            &&& w == (MapView { clients: w.clients, ..v })
            &&& w.clients.dom() == v.clients.dom()
            &&& v.clients.contains_key(k) && v.clients[k].character.guid == caster ==> w.clients[k] == v.clients[k]
            &&& (forall|i: int| 0 <= i < dists.len() ==> (#[trigger] dists[i]).0 != k) ==> w.clients[k] == v.clients[k]
        }),
    decreases dists.len(),
{
    if dists.len() > 0 {
        let init = dists.drop_last();
        lemma_frozen_players(v, init, map, caster, until, k);
        assert(dists[dists.len() - 1] == dists.last());
        if forall|i: int| 0 <= i < dists.len() ==> (#[trigger] dists[i]).0 != k {
            assert forall|i: int| 0 <= i < init.len() implies (#[trigger] init[i]).0 != k by {
                assert(init[i] == dists[i]);
            }
        }
        assert(v.players_frozen(dists, map, caster, until).clients.dom() =~= v.clients.dom());
    }
}

proof fn lemma_nova_player_at(v: MapView, dists: Seq<(usize, u32)>, map: u32, caster: u64, until: u64, i: int)
    requires
        once_each(dists),
        0 <= i < dists.len(),
        v.clients.contains_key(dists[i].0),
    ensures
        ({
            let c = v.clients[dists[i].0];
            let after = v.players_frozen(dists, map, caster, until).clients[dists[i].0];
            let reached = c.character.map == map && c.character.guid != caster && dists[i].1 <= 0x4344_0000;
            let still = MovementInfo { flags: 0, ..c.character.info };
            &&& reached ==> after == (ClientView {
                character: Character { root_until: Some(until), info: still, ..c.character },
                ..c
            }) && v.player_hits(dists, map, caster, until).contains((c.character.guid, still))
            &&& !reached ==> after == c
        }),
    decreases dists.len(),
{
    let init = dists.drop_last();
    lemma_once(dists);
    let d = dists.last();
    let k = dists[i].0;
    lemma_frozen_players(v, init, map, caster, until, d.0);
    let w = v.players_frozen(init, map, caster, until);
    let before = v.player_hits(init, map, caster, until);
    let c = v.clients[k];
    let f = frozen_player(w.clients[d.0], until).character;
    crate::aoi::lemma_push_contains(
        before,
        (f.guid, f.info),
        (c.character.guid, MovementInfo { flags: 0, ..c.character.info }),
    );
    if i < dists.len() - 1 {
        assert(init[i] == dists[i]);
        lemma_nova_player_at(v, init, map, caster, until, i);
        assert(k != d.0);
    }
}

proof fn lemma_nova_player_hit(v: MapView, dists: Seq<(usize, u32)>, map: u32, caster: u64, until: u64, h: (u64, MovementInfo))
    requires
        once_each(dists),
    ensures
        v.player_hits(dists, map, caster, until).contains(h) ==> h.0 != caster && exists|i: int|
            0 <= i < dists.len() && v.clients.contains_key((#[trigger] dists[i]).0)
                && v.clients[dists[i].0].character.map == map && dists[i].1 <= 0x4344_0000
                && v.clients[dists[i].0].character.guid == h.0,
    decreases dists.len(),
{
    if dists.len() > 0 {
        let init = dists.drop_last();
        lemma_once(dists);
        let d = dists.last();
        assert(dists[dists.len() - 1] == d);
        lemma_frozen_players(v, init, map, caster, until, d.0);
        lemma_nova_player_hit(v, init, map, caster, until, h);
        let before = v.player_hits(init, map, caster, until);
        let w = v.players_frozen(init, map, caster, until);
        let f = frozen_player(w.clients[d.0], until).character;
        crate::aoi::lemma_push_contains(before, (f.guid, f.info), h);
        if before.contains(h) {
            let i = choose|i: int|
                0 <= i < init.len() && v.clients.contains_key((#[trigger] init[i]).0)
                    && v.clients[init[i].0].character.map == map && init[i].1 <= 0x4344_0000
                    && v.clients[init[i].0].character.guid == h.0;
            assert(dists[i] == init[i]);
        }
    }
}

/// A nova roots every creature on the map of the caster within fourteen yards for six
/// seconds, and stops it if it walks; it does nothing to those farther away.
pub proof fn a_nova_roots_the_creatures_near(
    m: &mut MapState,
    caster: &Character,
    creature_dists: &Vec<(usize, u32)>,
    client_dists: &Vec<(usize, u32)>,
    now: u64,
    r: NovaOutcome,
    i: int,
)
    requires
        old(m).wf(),
        call_ensures(MapState::nova, (m, caster, creature_dists, client_dists, now), r),
        once_each(creature_dists@),
        0 <= i < creature_dists@.len(),
        old(m)@.creatures.contains_key(creature_dists@[i].0),
        now + 6_000_000_000 <= u64::MAX,
    ensures
        ({
            let until = (now + 6_000_000_000) as u64;
            let d = creature_dists@[i];
            let c = old(m)@.creatures[d.0];
            let after = final(m)@.creatures[d.0];
            &&& c.map == caster.map && d.1 <= 0x4344_0000 ==> {
                &&& r.creature_hits@.contains(c.guid)
                &&& is_walking(c) ==> after == (Creature {
                    root_until: Some(until),
                    info: MovementInfo { flags: 0, ..c.info },
                    ..c
                }) && r.creature_stops@.contains((c.guid, MovementInfo { flags: 0, ..c.info }))
                &&& !is_walking(c) ==> after == (Creature { root_until: Some(until), ..c })
            }
            &&& !(c.map == caster.map && d.1 <= 0x4344_0000) ==> after == c
        }),
        final(m)@.creatures.dom() == old(m)@.creatures.dom(),
{
    let until = (now + 6_000_000_000) as u64;
    lemma_nova_at(old(m)@, creature_dists@, caster.map, until, i);
    lemma_frozen_creatures(old(m)@, creature_dists@, caster.map, until, 0);
    let mid = old(m)@.creatures_frozen(creature_dists@, caster.map, until);
    lemma_frozen_players(mid, client_dists@, caster.map, caster.guid, until, 0);
}

/// A nova roots every player on the map of the caster within fourteen yards for six seconds
/// and stops them, but for the caster; it does nothing to those farther away.
pub proof fn a_nova_roots_the_players_near(
    m: &mut MapState,
    caster: &Character,
    creature_dists: &Vec<(usize, u32)>,
    client_dists: &Vec<(usize, u32)>,
    now: u64,
    r: NovaOutcome,
    i: int,
)
    requires
        old(m).wf(),
        call_ensures(MapState::nova, (m, caster, creature_dists, client_dists, now), r),
        once_each(client_dists@),
        0 <= i < client_dists@.len(),
        old(m)@.clients.contains_key(client_dists@[i].0),
        now + 6_000_000_000 <= u64::MAX,
    ensures
        ({
            let until = (now + 6_000_000_000) as u64;
            let d = client_dists@[i];
            let c = old(m)@.clients[d.0];
            let after = final(m)@.clients[d.0];
            let still = MovementInfo { flags: 0, ..c.character.info };
            let reached = c.character.map == caster.map && c.character.guid != caster.guid && d.1 <= 0x4344_0000;
            &&& reached ==> after == (ClientView {
                character: Character { root_until: Some(until), info: still, ..c.character },
                ..c
            }) && r.client_hits@.contains((c.character.guid, still))
            &&& !reached ==> after == c
        }),
{
    let until = (now + 6_000_000_000) as u64;
    lemma_frozen_creatures(old(m)@, creature_dists@, caster.map, until, 0);
    let mid = old(m)@.creatures_frozen(creature_dists@, caster.map, until);
    lemma_nova_player_at(mid, client_dists@, caster.map, caster.guid, until, i);
}

/// A nova touches nobody who was not near, and nothing else on the map.
pub proof fn a_nova_touches_nobody_else(
    m: &mut MapState,
    caster: &Character,
    creature_dists: &Vec<(usize, u32)>,
    client_dists: &Vec<(usize, u32)>,
    now: u64,
    r: NovaOutcome,
    k: usize,
    guid: u64,
    info: MovementInfo,
)
    requires
        old(m).wf(),
        call_ensures(MapState::nova, (m, caster, creature_dists, client_dists, now), r),
        once_each(creature_dists@),
        once_each(client_dists@),
    ensures
        (forall|j: int| 0 <= j < creature_dists@.len() ==> (#[trigger] creature_dists@[j]).0 != k) ==> final(m)@.creatures[k] == old(m)@.creatures[k],
        (forall|j: int| 0 <= j < client_dists@.len() ==> (#[trigger] client_dists@[j]).0 != k) ==> final(m)@.clients[k]
            == old(m)@.clients[k],
        r.creature_hits@.contains(guid) ==> exists|i: int|
            0 <= i < creature_dists@.len() && old(m)@.creatures.contains_key((#[trigger] creature_dists@[i]).0) && old(m)@.creatures[creature_dists@[i].0].map == caster.map && creature_dists@[i].1 <= 0x4344_0000 && old(m)@.creatures[creature_dists@[i].0].guid == guid,
        r.client_hits@.contains((guid, info)) ==> guid != caster.guid && exists|i: int|
            0 <= i < client_dists@.len() && old(m)@.clients.contains_key((#[trigger] client_dists@[i]).0) && old(m)@.clients[client_dists@[i].0].character.map == caster.map && client_dists@[i].1 <= 0x4344_0000 && old(m)@.clients[client_dists@[i].0].character.guid == guid,
        final(m)@ == (MapView { creatures: final(m)@.creatures, clients: final(m)@.clients, ..old(m)@ }),
{
    let until = clock::later_spec(now, ROOT_DURATION);
    lemma_frozen_creatures(old(m)@, creature_dists@, caster.map, until, k);
    let mid = old(m)@.creatures_frozen(creature_dists@, caster.map, until);
    lemma_frozen_players(mid, client_dists@, caster.map, caster.guid, until, k);
    lemma_nova_hit(old(m)@, creature_dists@, caster.map, until, guid);
    lemma_nova_player_hit(mid, client_dists@, caster.map, caster.guid, until, (guid, info));
}

proof fn lemma_caught(seen: Seq<EntityView>, dists: Seq<u32>, players: bool, caster: u64, guid: u64)
    requires
        seen.len() <= dists.len(),
    ensures
        caught(seen, dists, players, caster).contains(guid) <==> exists|i: int|
            0 <= i < seen.len() && (#[trigger] seen[i]).guid == guid && seen[i].is_client == players && dists[i]
                <= 0x4344_0000 && !(players && guid == caster),
    decreases seen.len(),
{
    if seen.len() > 0 {
        let init = seen.drop_last();
        lemma_caught(init, dists, players, caster, guid);
        let before = caught(init, dists, players, caster);
        crate::aoi::lemma_push_contains(before, seen.last().guid, guid);
        let n = seen.len() - 1;
        assert(seen[n] == seen.last());
        assert forall|i: int| 0 <= i < n implies #[trigger] seen[i] == init[i] by {}
        if caught(seen, dists, players, caster).contains(guid) {
            if before.contains(guid) {
                let i = choose|i: int|
                    0 <= i < init.len() && (#[trigger] init[i]).guid == guid && init[i].is_client == players && dists[i]
                        <= 0x4344_0000 && !(players && guid == caster);
                assert(seen[i] == init[i]);
            } else {
                assert(seen[n].guid == guid);
            }
        }
        if exists|i: int|
            0 <= i < seen.len() && (#[trigger] seen[i]).guid == guid && seen[i].is_client == players && dists[i]
                <= 0x4344_0000 && !(players && guid == caster) {
            let i = choose|i: int|
                0 <= i < seen.len() && (#[trigger] seen[i]).guid == guid && seen[i].is_client == players && dists[i]
                    <= 0x4344_0000 && !(players && guid == caster);
            if i < n {
                assert(init[i] == seen[i]);
            }
        }
    }
}

/// Whoever stood within fourteen yards when a frost nova is cast is hit by it, and nobody
/// else is; the caster is not.
pub proof fn a_frost_nova_hits_who_stood_near(
    m: &mut MapState,
    caster: &Character,
    seen: &Vec<EntityView>,
    dists: &Vec<u32>,
    now: u64,
    r: FrostNova,
    guid: u64,
)
    requires
        old(m).wf(),
        seen@.len() == dists@.len(),
        call_ensures(MapState::cast_frost_nova, (m, caster, seen, dists, now), r),
    ensures
        r.creature_hits@.contains(guid) <==> exists|i: int|
            0 <= i < seen@.len() && (#[trigger] seen@[i]).guid == guid && !seen@[i].is_client && dists@[i]
                <= 0x4344_0000,
        r.client_hits@.contains(guid) <==> guid != caster.guid && exists|i: int|
            0 <= i < seen@.len() && (#[trigger] seen@[i]).guid == guid && seen@[i].is_client && dists@[i]
                <= 0x4344_0000,
{
    lemma_caught(seen@, dists@, false, caster.guid, guid);
    lemma_caught(seen@, dists@, true, caster.guid, guid);
    if r.creature_hits@.contains(guid) {
        let i = choose|i: int|
            0 <= i < seen@.len() && (#[trigger] seen@[i]).guid == guid && seen@[i].is_client == false && dists@[i]
                <= 0x4344_0000 && !(false && guid == caster.guid);
        assert(seen@[i].guid == guid && !seen@[i].is_client);
    }
}

/// Whether nothing of the map differs but who is rooted, and how they move.
pub open spec fn only_roots_differ(v: MapView, w: MapView) -> bool {
    &&& w == (MapView { clients: w.clients, creatures: w.creatures, ..v })
    &&& w.clients.dom() == v.clients.dom()
    &&& w.creatures.dom() == v.creatures.dom()
}

proof fn lemma_all_affected(v: MapView, guids: Seq<u64>, until: u64, guid: u64)
    ensures
        ({
            let w = v.all_affected(guids, UnitEffect::Root { until });
            &&& only_roots_differ(v, w)
            &&& v.creature(guid) is Some && guids.contains(guid) ==> w.creatures[v.creature(guid)->0].root_until
                == Some(until) && w.creatures[v.creature(guid)->0].info.flags == 0
            &&& v.creature(guid) is None && v.player(guid) is Some && guids.contains(guid)
                ==> w.clients[v.player(guid)->0].character.root_until == Some(until)
                && w.clients[v.player(guid)->0].character.info.flags == 0
            &&& forall|k: usize| #[trigger]
                w.creatures.contains_key(k) ==> w.creatures[k] == v.creatures[k] || (w.creatures[k].root_until == Some(
                    until,
                ) && w.creatures[k] == (Creature {
                    root_until: Some(until),
                    info: MovementInfo { flags: 0, ..v.creatures[k].info },
                    ..v.creatures[k]
                }))
            &&& forall|k: usize| #[trigger]
                w.clients.contains_key(k) ==> w.clients[k] == v.clients[k] || w.clients[k] == (ClientView {
                    character: Character {
                        root_until: Some(until),
                        info: MovementInfo { flags: 0, ..v.clients[k].character.info },
                        ..v.clients[k].character
                    },
                    ..v.clients[k]
                })
        }),
    decreases guids.len(),
{
    let e = UnitEffect::Root { until };
    if guids.len() > 0 {
        let init = guids.drop_last();
        lemma_all_affected(v, init, until, guid);
        assert(guids =~= init.push(guids.last()));
        crate::aoi::lemma_push_contains(init, guids.last(), guid);
        let w = v.all_affected(guids, e);
        assert(w.clients.dom() =~= v.clients.dom());
        assert(w.creatures.dom() =~= v.creatures.dom());
    }
}

/// Whoever a frost nova hits is rooted until six seconds from now and stands still. Nobody
/// else is: whoever it does not hit is as before, and nothing else changes.
pub proof fn who_is_hit_is_rooted(
    m: &mut MapState,
    caster: &Character,
    seen: &Vec<EntityView>,
    dists: &Vec<u32>,
    now: u64,
    r: FrostNova,
    guid: u64,
    k: usize,
)
    requires
        old(m).wf(),
        seen@.len() == dists@.len(),
        call_ensures(MapState::cast_frost_nova, (m, caster, seen, dists, now), r),
        now + 6_000_000_000 <= u64::MAX,
    ensures
        r.creature_hits@.contains(guid) && old(m)@.creature(guid) == Some(k) ==> final(m)@.creatures[k] == (Creature {
            root_until: Some((now + 6_000_000_000) as u64),
            info: MovementInfo { flags: 0, ..old(m)@.creatures[k].info },
            ..old(m)@.creatures[k]
        }) && r.stops@.contains((guid, final(m)@.creatures[k].info)),
        r.client_hits@.contains(guid) && old(m)@.creature(guid) is None && old(m)@.player(guid) == Some(k) ==> final(m)@.clients[k] == (ClientView {
            character: Character {
                root_until: Some((now + 6_000_000_000) as u64),
                info: MovementInfo { flags: 0, ..old(m)@.clients[k].character.info },
                ..old(m)@.clients[k].character
            },
            ..old(m)@.clients[k]
        }) && r.rooted@.contains(guid) && r.stops@.contains((guid, final(m)@.clients[k].character.info)),
        only_roots_differ(old(m)@, final(m)@),
{
    let until = (now + 6_000_000_000) as u64;
    let v = old(m)@;
    let e = UnitEffect::Root { until };
    let mid = v.all_affected(r.creature_hits@, e);
    lemma_all_affected(v, r.creature_hits@, until, guid);
    lemma_all_affected(mid, r.client_hits@, until, guid);
    let w = final(m)@;
    lemma_infos(w, r.creature_hits@, guid);
    lemma_infos(w, r.client_hits@, guid);
    let a = w.creature_infos(r.creature_hits@);
    let b = w.player_infos(r.client_hits@);
    if r.creature_hits@.contains(guid) && v.creature(guid) == Some(k) {
        assert(w.creature(guid) == Some(k));
        assert(mid.creatures.contains_key(k) && w.creatures.contains_key(k));
        let x = (guid, w.creatures[k].info);
        let j = choose|j: int| 0 <= j < a.len() && a[j] == x;
        assert(r.stops@[j] == x);
    }
    if r.client_hits@.contains(guid) && v.creature(guid) is None && v.player(guid) == Some(k) {
        assert(w.player(guid) == Some(k));
        assert(mid.clients.contains_key(k) && w.clients.contains_key(k));
        let x = (guid, w.clients[k].character.info);
        let j = choose|j: int| 0 <= j < b.len() && b[j] == x;
        assert(r.stops@[a.len() + j] == x);
        assert(r.rooted@[j] == guid);
    }
}

proof fn lemma_infos(v: MapView, guids: Seq<u64>, guid: u64)
    ensures
        guids.contains(guid) && v.creature(guid) is Some ==> v.creature_infos(guids).contains(
            (guid, v.creatures[v.creature(guid)->0].info),
        ),
        guids.contains(guid) && v.player(guid) is Some ==> v.player_infos(guids).contains(
            (guid, v.clients[v.player(guid)->0].character.info),
        ),
    decreases guids.len(),
{
    if guids.len() > 0 {
        let init = guids.drop_last();
        lemma_infos(v, init, guid);
        assert(guids =~= init.push(guids.last()));
        crate::aoi::lemma_push_contains(init, guids.last(), guid);
        let l = guids.last();
        crate::aoi::lemma_push_contains(
            v.creature_infos(init),
            (l, v.creatures[v.creature(l)->0].info),
            (guid, v.creatures[v.creature(guid)->0].info),
        );
        crate::aoi::lemma_push_contains(
            v.player_infos(init),
            (l, v.clients[v.player(l)->0].character.info),
            (guid, v.clients[v.player(guid)->0].character.info),
        );
    }
}

/// A frost nova leaves those alone whom it does not hit.
pub proof fn who_is_not_hit_is_left_alone(
    m: &mut MapState,
    caster: &Character,
    seen: &Vec<EntityView>,
    dists: &Vec<u32>,
    now: u64,
    r: FrostNova,
    k: usize,
)
    requires
        old(m).wf(),
        seen@.len() == dists@.len(),
        call_ensures(MapState::cast_frost_nova, (m, caster, seen, dists, now), r),
    ensures
        (forall|guid: u64| #[trigger]
            old(m)@.creature(guid) == Some(k) ==> !r.creature_hits@.contains(guid) && !r.client_hits@.contains(guid))
            ==> final(m)@.creatures[k] == old(m)@.creatures[k],
        (forall|guid: u64| #[trigger]
            old(m)@.player(guid) == Some(k) ==> !r.creature_hits@.contains(guid) && !r.client_hits@.contains(guid))
            ==> final(m)@.clients[k] == old(m)@.clients[k],
{
    let e = UnitEffect::Root { until: clock::later_spec(now, ROOT_DURATION) };
    let v = old(m)@;
    let mid = v.all_affected(r.creature_hits@, e);
    lemma_unaffected(v, r.creature_hits@, e, k);
    lemma_unaffected(mid, r.client_hits@, e, k);
    assert forall|guid: u64| #[trigger] mid.creature(guid) == v.creature(guid) by {}
    assert forall|guid: u64| #[trigger] mid.player(guid) == v.player(guid) by {}
}

proof fn lemma_unaffected(v: MapView, guids: Seq<u64>, e: UnitEffect, k: usize)
    ensures
        ({
            let w = v.all_affected(guids, e);
            &&& only_roots_differ(v, w)
            &&& (forall|guid: u64| #[trigger] v.creature(guid) == Some(k) ==> !guids.contains(guid)) ==> w.creatures[k]
                == v.creatures[k]
            &&& (forall|guid: u64| #[trigger] v.player(guid) == Some(k) ==> !guids.contains(guid)) ==> w.clients[k]
                == v.clients[k]
        }),
    decreases guids.len(),
{
    if guids.len() > 0 {
        let init = guids.drop_last();
        lemma_unaffected(v, init, e, k);
        assert(guids =~= init.push(guids.last()));
        assert forall|guid: u64| init.contains(guid) implies #[trigger] guids.contains(guid) by {
            crate::aoi::lemma_push_contains(init, guids.last(), guid);
        }
        crate::aoi::lemma_push_contains(init, guids.last(), guids.last());
        let mid = v.all_affected(init, e);
        let w = v.all_affected(guids, e);
        assert(mid.creature(guids.last()) == v.creature(guids.last()));
        assert(mid.player(guids.last()) == v.player(guids.last()));
        assert(w.clients.dom() =~= v.clients.dom());
        assert(w.creatures.dom() =~= v.creatures.dom());
    }
}

} // verus!

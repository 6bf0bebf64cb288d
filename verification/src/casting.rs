//! What is told of spells.
use crate::character::Character;
use crate::creature;
use crate::map_state::{MapState, MapView};
use crate::movement::{MovementInfo, Place};
use crate::notice::{Audience, Notice, Outgoing};
use crate::spells;
use crate::spells::{FrostNova, NovaOutcome};
use vstd::prelude::*;

verus! {

/// The caster, who is held out of the map, is told, and then the others.
pub open spec fn both(to: Audience, what: Notice) -> Seq<Outgoing> {
    seq![Outgoing { to: Audience::Handled, what }, Outgoing { to, what }]
}

/// What is told of those whom an explosion hit, and what it left of each: what it
/// took from them, and of the survivors how they are.
pub open spec fn wounds_told(to: Audience, caster: u64, hits: Seq<(u64, u32)>) -> Seq<Outgoing>
    decreases hits.len(),
{
    if hits.len() == 0 {
        Seq::empty()
    } else {
        let (guid, health) = hits.last();
        let taken = wounds_told(to, caster, hits.drop_last()) + both(
            to,
            Notice::SpellDamage {
                target: guid,
                attacker: caster,
                spell: spells::SPELL_ARCANE_EXPLOSION,
                damage: spells::BOOM_DAMAGE,
            },
        );
        if health == 0 {
            taken
        } else {
            taken + both(to, Notice::UnitHealth { guid, health: creature::shown_health(health) })
        }
    }
}

/// What is told of an explosion, to everybody on the map.
pub open spec fn boom_told(caster: u64, map: u32, hits: Seq<(u64, u32)>) -> Seq<Outgoing> {
    let to = Audience::OnMap { map };
    both(to, Notice::SpellGo { caster, spell: spells::SPELL_ARCANE_EXPLOSION }) + wounds_told(to, caster, hits)
}

/// What is told of those on whom a frost nova lies.
pub open spec fn auras_told(to: Audience, guids: Seq<u64>, player: bool) -> Seq<Outgoing>
    decreases guids.len(),
{
    if guids.len() == 0 {
        Seq::empty()
    } else {
        auras_told(to, guids.drop_last(), player) + both(
            to,
            Notice::Aura { guid: guids.last(), spell: spells::SPELL_FROST_NOVA, player },
        )
    }
}

/// Where one hears of a unit that stands still: around the given place, or else
/// around the unit.
pub open spec fn around(map: u32, place: Option<Place>, info: MovementInfo) -> Audience {
    Audience::Near {
        map,
        place: match place {
            Some(p) => p,
            None => info.position,
        },
    }
}

/// What is told of those who stand still.
pub open spec fn stops_told(map: u32, place: Option<Place>, stops: Seq<(u64, MovementInfo)>) -> Seq<Outgoing>
    decreases stops.len(),
{
    if stops.len() == 0 {
        Seq::empty()
    } else {
        let (guid, info) = stops.last();
        stops_told(map, place, stops.drop_last()) + both(around(map, place, info), Notice::Stop { guid, info })
    }
}

/// The players of the map among `guids` are told that they cannot move.
pub open spec fn roots_told(v: MapView, guids: Seq<u64>) -> Seq<Outgoing>
    decreases guids.len(),
{
    if guids.len() == 0 {
        Seq::empty()
    } else {
        let before = roots_told(v, guids.drop_last());
        match v.player(guids.last()) {
            Some(key) => before.push(Outgoing { to: Audience::One { key }, what: Notice::Root { guid: guids.last() } }),
            None => before,
        }
    }
}

/// What is told of a nova of a game master, near the caster: that it went off, on
/// whom it lies, who stands still, and who cannot move.
pub open spec fn nova_told(
    v: MapView,
    caster: Character,
    creature_hits: Seq<u64>,
    creature_stops: Seq<(u64, MovementInfo)>,
    client_hits: Seq<(u64, MovementInfo)>,
) -> Seq<Outgoing> {
    let place = caster.info.position;
    let to = Audience::Near { map: caster.map, place };
    let players = spells::whose(client_hits);
    both(to, Notice::SpellGo { caster: caster.guid, spell: spells::SPELL_FROST_NOVA }) + auras_told(
        to,
        creature_hits,
        false,
    ) + auras_told(to, players, true) + stops_told(caster.map, Some(place), creature_stops + client_hits) + roots_told(
        v,
        players,
    )
}

/// What is told of a nova of a player: who stands still, near to each of them, and
/// then as of that of a game master.
pub open spec fn frost_nova_told(
    v: MapView,
    caster: Character,
    creature_hits: Seq<u64>,
    client_hits: Seq<u64>,
    stops: Seq<(u64, MovementInfo)>,
) -> Seq<Outgoing> {
    let to = Audience::Near { map: caster.map, place: caster.info.position };
    stops_told(caster.map, None, stops) + both(
        to,
        Notice::SpellGo { caster: caster.guid, spell: spells::SPELL_FROST_NOVA },
    ) + auras_told(to, creature_hits, false) + auras_told(to, client_hits, true) + roots_told(v, client_hits)
}

fn tell_of_wounds(to: Audience, caster: u64, hits: &Vec<(u64, u32)>, out: &mut Vec<Outgoing>)
    ensures
        final(out)@ == old(out)@ + wounds_told(to, caster, hits@),
{
    let ghost said = out@;
    let mut i: usize = 0;
    assert(hits@.take(0) =~= Seq::<(u64, u32)>::empty());
    assert(out@ =~= said + wounds_told(to, caster, hits@.take(0)));
    while i < hits.len()
        invariant
            i <= hits@.len(),
            out@ == said + wounds_told(to, caster, hits@.take(i as int)),
        decreases hits.len() - i,
    {
        let (guid, health): (u64, u32) = hits[i];
        let spell: u32 = spells::SPELL_ARCANE_EXPLOSION;
        let damage: u32 = spells::BOOM_DAMAGE;
        assert(hits@.take(i + 1).drop_last() =~= hits@.take(i as int));
        assert(hits@.take(i + 1).last() == hits@[i as int]);
        out.push(
            Outgoing {
                to: Audience::Handled,
                what: Notice::SpellDamage { target: guid, attacker: caster, spell, damage },
            },
        );
        out.push(Outgoing { to, what: Notice::SpellDamage { target: guid, attacker: caster, spell, damage } });
        if health != 0 {
            let health: i32 = creature::health_on_the_wire(health);
            out.push(Outgoing { to: Audience::Handled, what: Notice::UnitHealth { guid, health } });
            out.push(Outgoing { to, what: Notice::UnitHealth { guid, health } });
        }
        assert(out@ =~= said + wounds_told(to, caster, hits@.take(i + 1)));
        i += 1;
    }
    assert(hits@.take(i as int) =~= hits@);
}

/// Tell of an explosion: `hits` holds whom it hit, and what it left of each.
pub fn tell_of_boom(caster: &Character, hits: &Vec<(u64, u32)>, out: &mut Vec<Outgoing>)
    ensures
        final(out)@ == old(out)@ + boom_told(caster.guid, caster.map, hits@),
{
    let ghost said = out@;
    let to = Audience::OnMap { map: caster.map };
    let spell: u32 = spells::SPELL_ARCANE_EXPLOSION;
    out.push(Outgoing { to: Audience::Handled, what: Notice::SpellGo { caster: caster.guid, spell } });
    out.push(Outgoing { to, what: Notice::SpellGo { caster: caster.guid, spell } });
    tell_of_wounds(to, caster.guid, hits, out);
    assert(out@ =~= said + boom_told(caster.guid, caster.map, hits@));
}

fn tell_of_auras(to: Audience, guids: &Vec<u64>, player: bool, out: &mut Vec<Outgoing>)
    ensures
        final(out)@ == old(out)@ + auras_told(to, guids@, player),
{
    let ghost said = out@;
    let mut i: usize = 0;
    assert(guids@.take(0) =~= Seq::<u64>::empty());
    assert(out@ =~= said + auras_told(to, guids@.take(0), player));
    while i < guids.len()
        invariant
            i <= guids@.len(),
            out@ == said + auras_told(to, guids@.take(i as int), player),
        decreases guids.len() - i,
    {
        let guid: u64 = guids[i];
        let spell: u32 = spells::SPELL_FROST_NOVA;
        assert(guids@.take(i + 1).drop_last() =~= guids@.take(i as int));
        assert(guids@.take(i + 1).last() == guid);
        out.push(Outgoing { to: Audience::Handled, what: Notice::Aura { guid, spell, player } });
        out.push(Outgoing { to, what: Notice::Aura { guid, spell, player } });
        assert(out@ =~= said + auras_told(to, guids@.take(i + 1), player));
        i += 1;
    }
    assert(guids@.take(i as int) =~= guids@);
}

fn tell_of_stops(map: u32, place: Option<Place>, stops: &Vec<(u64, MovementInfo)>, out: &mut Vec<Outgoing>)
    ensures
        final(out)@ == old(out)@ + stops_told(map, place, stops@),
{
    let ghost said = out@;
    let mut i: usize = 0;
    assert(stops@.take(0) =~= Seq::<(u64, MovementInfo)>::empty());
    assert(out@ =~= said + stops_told(map, place, stops@.take(0)));
    while i < stops.len()
        invariant
            i <= stops@.len(),
            out@ == said + stops_told(map, place, stops@.take(i as int)),
        decreases stops.len() - i,
    {
        let (guid, info): (u64, MovementInfo) = stops[i];
        assert(stops@.take(i + 1).drop_last() =~= stops@.take(i as int));
        assert(stops@.take(i + 1).last() == stops@[i as int]);
        let at: Place = match place {
            Some(p) => p,
            None => info.position,
        };
        out.push(Outgoing { to: Audience::Handled, what: Notice::Stop { guid, info } });
        out.push(Outgoing { to: Audience::Near { map, place: at }, what: Notice::Stop { guid, info } });
        assert(out@ =~= said + stops_told(map, place, stops@.take(i + 1)));
        i += 1;
    }
    assert(stops@.take(i as int) =~= stops@);
}

impl MapState {
    fn tell_of_roots(&self, guids: &Vec<u64>, out: &mut Vec<Outgoing>)
        ensures
            final(out)@ == old(out)@ + roots_told(self@, guids@),
    {
        let ghost said = out@;
        let mut i: usize = 0;
        assert(guids@.take(0) =~= Seq::<u64>::empty());
        assert(out@ =~= said + roots_told(self@, guids@.take(0)));
        while i < guids.len()
            invariant
                i <= guids@.len(),
                out@ == said + roots_told(self@, guids@.take(i as int)),
            decreases guids.len() - i,
        {
            let guid: u64 = guids[i];
            assert(guids@.take(i + 1).drop_last() =~= guids@.take(i as int));
            assert(guids@.take(i + 1).last() == guid);
            if let Some(key) = self.find_player(guid) {
                out.push(Outgoing { to: Audience::One { key }, what: Notice::Root { guid } });
            }
            assert(out@ =~= said + roots_told(self@, guids@.take(i + 1)));
            i += 1;
        }
        assert(guids@.take(i as int) =~= guids@);
    }

    /// Tell of a nova of a game master.
    pub fn tell_of_nova(&self, caster: &Character, nova: &NovaOutcome, out: &mut Vec<Outgoing>)
        ensures
            final(out)@ == old(out)@ + nova_told(
                self@,
                *caster,
                nova.creature_hits@,
                nova.creature_stops@,
                nova.client_hits@,
            ),
    {
        let ghost said = out@;
        let place = caster.info.position;
        let to = Audience::Near { map: caster.map, place };
        let spell: u32 = spells::SPELL_FROST_NOVA;
        let players: Vec<u64> = spells::guids_of(&nova.client_hits);
        out.push(Outgoing { to: Audience::Handled, what: Notice::SpellGo { caster: caster.guid, spell } });
        out.push(Outgoing { to, what: Notice::SpellGo { caster: caster.guid, spell } });
        tell_of_auras(to, &nova.creature_hits, false, out);
        tell_of_auras(to, &players, true, out);
        tell_of_stops(caster.map, Some(place), &nova.creature_stops, out);
        tell_of_stops(caster.map, Some(place), &nova.client_hits, out);
        self.tell_of_roots(&players, out);
        proof {
            lemma_stops_add(caster.map, Some(place), nova.creature_stops@, nova.client_hits@);
            assert(out@ =~= said + nova_told(
                self@,
                *caster,
                nova.creature_hits@,
                nova.creature_stops@,
                nova.client_hits@,
            ));
        }
    }

    /// Tell of a nova of a player.
    pub fn tell_of_frost_nova(&self, caster: &Character, nova: &FrostNova, out: &mut Vec<Outgoing>)
        ensures
            final(out)@ == old(out)@ + frost_nova_told(
                self@,
                *caster,
                nova.creature_hits@,
                nova.client_hits@,
                nova.stops@,
            ),
    {
        let ghost said = out@;
        let to = Audience::Near { map: caster.map, place: caster.info.position };
        let spell: u32 = spells::SPELL_FROST_NOVA;
        tell_of_stops(caster.map, None, &nova.stops, out);
        out.push(Outgoing { to: Audience::Handled, what: Notice::SpellGo { caster: caster.guid, spell } });
        out.push(Outgoing { to, what: Notice::SpellGo { caster: caster.guid, spell } });
        tell_of_auras(to, &nova.creature_hits, false, out);
        tell_of_auras(to, &nova.client_hits, true, out);
        self.tell_of_roots(&nova.client_hits, out);
        assert(out@ =~= said + frost_nova_told(
            self@,
            *caster,
            nova.creature_hits@,
            nova.client_hits@,
            nova.stops@,
        ));
    }
}

proof fn lemma_stops_add(
    map: u32,
    place: Option<Place>,
    a: Seq<(u64, MovementInfo)>,
    b: Seq<(u64, MovementInfo)>,
)
    ensures
        stops_told(map, place, a + b) == stops_told(map, place, a) + stops_told(map, place, b),
    decreases b.len(),
{
    if b.len() == 0 {
        assert(a + b =~= a);
        assert(stops_told(map, place, a) =~= stops_told(map, place, a) + stops_told(map, place, b));
    } else {
        lemma_stops_add(map, place, a, b.drop_last());
        assert((a + b).drop_last() =~= a + b.drop_last());
        assert((a + b).last() == b.last());
        assert(stops_told(map, place, a + b) =~= stops_told(map, place, a) + stops_told(map, place, b));
    }
}

/// Of those whom an explosion killed nobody is told how they are: that they died
/// is told when they do.
pub proof fn the_dead_have_no_health_to_tell(to: Audience, caster: u64, hits: Seq<(u64, u32)>, i: int)
    requires
        0 <= i < wounds_told(to, caster, hits).len(),
    ensures
        wounds_told(to, caster, hits)[i].what matches Notice::UnitHealth { guid, health } ==> health > 0,
    decreases hits.len(),
{
    let before = wounds_told(to, caster, hits.drop_last());
    if i < before.len() {
        the_dead_have_no_health_to_tell(to, caster, hits.drop_last(), i);
    }
}

/// Whether one of the notices is for them and says that.
pub open spec fn is_told(out: Seq<Outgoing>, to: Audience, what: Notice) -> bool {
    exists|i: int| 0 <= i < out.len() && (#[trigger] out[i]).to == to && out[i].what == what
}

proof fn lemma_told_more(a: Seq<Outgoing>, b: Seq<Outgoing>, to: Audience, what: Notice)
    ensures
        is_told(a, to, what) ==> is_told(a + b, to, what) && is_told(b + a, to, what),
        is_told(both(to, what), to, what),
        is_told(both(to, what), Audience::Handled, what),
{
    if is_told(a, to, what) {
        let i = choose|i: int| 0 <= i < a.len() && (#[trigger] a[i]).to == to && a[i].what == what;
        assert((a + b)[i] == a[i]);
        assert((b + a)[b.len() + i] == a[i]);
    }
    assert(both(to, what)[0].what == what);
    assert(both(to, what)[1].what == what);
}

proof fn lemma_wounds(to: Audience, caster: u64, hits: Seq<(u64, u32)>, i: int)
    requires
        0 <= i < hits.len(),
    ensures
        is_told(
            wounds_told(to, caster, hits),
            to,
            Notice::SpellDamage { target: hits[i].0, attacker: caster, spell: 1449, damage: 1332 },
        ),
        0 < hits[i].1 <= i32::MAX ==> is_told(
            wounds_told(to, caster, hits),
            to,
            Notice::UnitHealth { guid: hits[i].0, health: hits[i].1 as i32 },
        ),
    decreases hits.len(),
{
    let init = hits.drop_last();
    let before = wounds_told(to, caster, init);
    let (guid, health) = hits.last();
    let a = Notice::SpellDamage { target: guid, attacker: caster, spell: 1449, damage: 1332 };
    let h = Notice::UnitHealth { guid, health: creature::shown_health(health) };
    let mine = Notice::SpellDamage { target: hits[i].0, attacker: caster, spell: 1449, damage: 1332 };
    let healthy = Notice::UnitHealth { guid: hits[i].0, health: hits[i].1 as i32 };
    lemma_told_more(both(to, a), before, to, a);
    lemma_told_more(both(to, h), before + both(to, a), to, h);
    if i < init.len() {
        assert(init[i] == hits[i]);
        lemma_wounds(to, caster, init, i);
    }
    lemma_told_more(before, both(to, a), to, mine);
    lemma_told_more(before, both(to, a), to, healthy);
    lemma_told_more(before + both(to, a), both(to, h), to, mine);
    lemma_told_more(before + both(to, a), both(to, h), to, healthy);
}

/// Everybody on the map of the caster is told that the explosion went off, what it took from
/// each whom it hit, and how the survivors are.
pub proof fn an_explosion_is_told(caster: &Character, hits: &Vec<(u64, u32)>, out: &mut Vec<Outgoing>, u: (), i: int)
    requires
        call_ensures(tell_of_boom, (caster, hits, out), u),
    ensures
        ({
            let to = Audience::OnMap { map: caster.map };
            &&& is_told(final(out)@, to, Notice::SpellGo { caster: caster.guid, spell: 1449 })
            &&& is_told(final(out)@, Audience::Handled, Notice::SpellGo { caster: caster.guid, spell: 1449 })
            &&& 0 <= i < hits@.len() ==> is_told(
                final(out)@,
                to,
                Notice::SpellDamage { target: hits@[i].0, attacker: caster.guid, spell: 1449, damage: 1332 },
            )
            &&& 0 <= i < hits@.len() && 0 < hits@[i].1 <= i32::MAX ==> is_told(
                final(out)@,
                to,
                Notice::UnitHealth { guid: hits@[i].0, health: hits@[i].1 as i32 },
            )
        }),
{
    let to = Audience::OnMap { map: caster.map };
    let go = Notice::SpellGo { caster: caster.guid, spell: 1449 };
    let w = wounds_told(to, caster.guid, hits@);
    let all = both(to, go) + w;
    lemma_told_more(both(to, go), w, to, go);
    lemma_told_more(both(to, go), w, Audience::Handled, go);
    lemma_told_more(all, old(out)@, to, go);
    lemma_told_more(all, old(out)@, Audience::Handled, go);
    if 0 <= i < hits@.len() {
        lemma_wounds(to, caster.guid, hits@, i);
        let mine = Notice::SpellDamage { target: hits@[i].0, attacker: caster.guid, spell: 1449, damage: 1332 };
        let healthy = Notice::UnitHealth { guid: hits@[i].0, health: hits@[i].1 as i32 };
        lemma_told_more(w, both(to, go), to, mine);
        lemma_told_more(w, both(to, go), to, healthy);
        lemma_told_more(all, old(out)@, to, mine);
        lemma_told_more(all, old(out)@, to, healthy);
    }
}

proof fn lemma_auras(to: Audience, guids: Seq<u64>, player: bool, i: int)
    requires
        0 <= i < guids.len(),
    ensures
        is_told(auras_told(to, guids, player), to, Notice::Aura { guid: guids[i], spell: 122, player }),
    decreases guids.len(),
{
    let init = guids.drop_last();
    let before = auras_told(to, init, player);
    let a = Notice::Aura { guid: guids.last(), spell: 122, player };
    let mine = Notice::Aura { guid: guids[i], spell: 122, player };
    lemma_told_more(both(to, a), before, to, a);
    if i < init.len() {
        assert(init[i] == guids[i]);
        lemma_auras(to, init, player, i);
    }
    lemma_told_more(before, both(to, a), to, mine);
}

proof fn lemma_stops(map: u32, place: Option<Place>, stops: Seq<(u64, MovementInfo)>, i: int)
    requires
        0 <= i < stops.len(),
    ensures
        is_told(
            stops_told(map, place, stops),
            Audience::Near {
                map,
                place: if place is Some {
                    place->0
                } else {
                    stops[i].1.position
                },
            },
            Notice::Stop { guid: stops[i].0, info: stops[i].1 },
        ),
    decreases stops.len(),
{
    let init = stops.drop_last();
    let before = stops_told(map, place, init);
    let (guid, info) = stops.last();
    let a = Notice::Stop { guid, info };
    let to = around(map, place, info);
    let mine = Notice::Stop { guid: stops[i].0, info: stops[i].1 };
    let there = around(map, place, stops[i].1);
    lemma_told_more(both(to, a), before, to, a);
    if i < init.len() {
        assert(init[i] == stops[i]);
        lemma_stops(map, place, init, i);
    }
    lemma_told_more(before, both(to, a), there, mine);
}

proof fn lemma_roots(v: MapView, guids: Seq<u64>, i: int)
    requires
        0 <= i < guids.len(),
    ensures
        v.player(guids[i]) is Some ==> is_told(
            roots_told(v, guids),
            Audience::One { key: v.player(guids[i])->0 },
            Notice::Root { guid: guids[i] },
        ),
    decreases guids.len(),
{
    let init = guids.drop_last();
    let before = roots_told(v, init);
    let all = roots_told(v, guids);
    if v.player(guids[i]) is Some {
        let to = Audience::One { key: v.player(guids[i])->0 };
        let mine = Notice::Root { guid: guids[i] };
        if i < init.len() {
            assert(init[i] == guids[i]);
            lemma_roots(v, init, i);
            let j = choose|j: int| 0 <= j < before.len() && (#[trigger] before[j]).to == to && before[j].what == mine;
            assert(all[j] == before[j]);
        } else {
            assert(all[all.len() - 1].what == mine);
        }
    }
}

/// Those near the caster are told that a nova went off and on whom it lies; who stands still
/// is told of, and every player whom it hits is told that they cannot move.
pub proof fn a_nova_is_told(
    m: &MapState,
    caster: &Character,
    nova: &NovaOutcome,
    out: &mut Vec<Outgoing>,
    u: (),
    i: int,
)
    requires
        call_ensures(MapState::tell_of_nova, (m, caster, nova, out), u),
    ensures
        ({
            let to = Audience::Near { map: caster.map, place: caster.info.position };
            let all = final(out)@;
            &&& is_told(all, to, Notice::SpellGo { caster: caster.guid, spell: 122 })
            &&& 0 <= i < nova.creature_hits@.len() ==> is_told(
                all,
                to,
                Notice::Aura { guid: nova.creature_hits@[i], spell: 122, player: false },
            )
            &&& 0 <= i < nova.client_hits@.len() ==> is_told(
                all,
                to,
                Notice::Aura { guid: nova.client_hits@[i].0, spell: 122, player: true },
            )
            &&& 0 <= i < nova.creature_stops@.len() ==> is_told(
                all,
                to,
                Notice::Stop { guid: nova.creature_stops@[i].0, info: nova.creature_stops@[i].1 },
            )
            &&& 0 <= i < nova.client_hits@.len() ==> is_told(
                all,
                to,
                Notice::Stop { guid: nova.client_hits@[i].0, info: nova.client_hits@[i].1 },
            )
            &&& 0 <= i < nova.client_hits@.len() && m@.player(nova.client_hits@[i].0) is Some ==> is_told(
                all,
                Audience::One { key: m@.player(nova.client_hits@[i].0)->0 },
                Notice::Root { guid: nova.client_hits@[i].0 },
            )
        }),
{
    let to = Audience::Near { map: caster.map, place: caster.info.position };
    let go = Notice::SpellGo { caster: caster.guid, spell: 122 };
    let players = spells::whose(nova.client_hits@);
    let a = both(to, go);
    let b = auras_told(to, nova.creature_hits@, false);
    let c = auras_told(to, players, true);
    let stops = nova.creature_stops@ + nova.client_hits@;
    let d = stops_told(caster.map, Some(caster.info.position), stops);
    let e = roots_told(m@, players);
    lemma_told_more(a, b, to, go);
    lemma_parts(old(out)@, a, b, c, d, e, to, go);
    if 0 <= i < nova.creature_hits@.len() {
        lemma_auras(to, nova.creature_hits@, false, i);
        lemma_parts(old(out)@, a, b, c, d, e, to, Notice::Aura { guid: nova.creature_hits@[i], spell: 122, player: false });
    }
    if 0 <= i < nova.creature_stops@.len() {
        assert(stops[i] == nova.creature_stops@[i]);
        lemma_stops(caster.map, Some(caster.info.position), stops, i);
        lemma_parts(
            old(out)@,
            a,
            b,
            c,
            d,
            e,
            to,
            Notice::Stop { guid: nova.creature_stops@[i].0, info: nova.creature_stops@[i].1 },
        );
    }
    if 0 <= i < nova.client_hits@.len() {
        let h = nova.client_hits@[i];
        assert(players[i] == h.0);
        lemma_auras(to, players, true, i);
        lemma_parts(old(out)@, a, b, c, d, e, to, Notice::Aura { guid: h.0, spell: 122, player: true });
        let n = nova.creature_stops@.len() + i;
        assert(stops[n] == h);
        lemma_stops(caster.map, Some(caster.info.position), stops, n);
        lemma_parts(old(out)@, a, b, c, d, e, to, Notice::Stop { guid: h.0, info: h.1 });
        lemma_roots(m@, players, i);
        lemma_parts(
            old(out)@,
            a,
            b,
            c,
            d,
            e,
            Audience::One { key: m@.player(h.0)->0 },
            Notice::Root { guid: h.0 },
        );
    }
}

proof fn lemma_parts(
    s: Seq<Outgoing>,
    a: Seq<Outgoing>,
    b: Seq<Outgoing>,
    c: Seq<Outgoing>,
    d: Seq<Outgoing>,
    e: Seq<Outgoing>,
    to: Audience,
    what: Notice,
)
    ensures
        is_told(a, to, what) || is_told(b, to, what) || is_told(c, to, what) || is_told(d, to, what) || is_told(
            e,
            to,
            what,
        ) ==> is_told(s + (a + b + c + d + e), to, what),
{
    lemma_told_more(a, b, to, what);
    lemma_told_more(b, a, to, what);
    lemma_told_more(a + b, c, to, what);
    lemma_told_more(c, a + b, to, what);
    lemma_told_more(a + b + c, d, to, what);
    lemma_told_more(d, a + b + c, to, what);
    lemma_told_more(a + b + c + d, e, to, what);
    lemma_told_more(e, a + b + c + d, to, what);
    lemma_told_more(a + b + c + d + e, s, to, what);
}

/// Of a frost nova that a player casts, those near each who stands still are told so; those
/// near the caster that it went off and on whom it lies; and the players whom it hits that
/// they cannot move.
pub proof fn a_frost_nova_is_told(
    m: &MapState,
    caster: &Character,
    nova: &FrostNova,
    out: &mut Vec<Outgoing>,
    u: (),
    i: int,
)
    requires
        call_ensures(MapState::tell_of_frost_nova, (m, caster, nova, out), u),
    ensures
        ({
            let to = Audience::Near { map: caster.map, place: caster.info.position };
            let all = final(out)@;
            &&& is_told(all, to, Notice::SpellGo { caster: caster.guid, spell: 122 })
            &&& 0 <= i < nova.creature_hits@.len() ==> is_told(
                all,
                to,
                Notice::Aura { guid: nova.creature_hits@[i], spell: 122, player: false },
            )
            &&& 0 <= i < nova.client_hits@.len() ==> is_told(
                all,
                to,
                Notice::Aura { guid: nova.client_hits@[i], spell: 122, player: true },
            )
            &&& 0 <= i < nova.stops@.len() ==> is_told(
                all,
                Audience::Near { map: caster.map, place: nova.stops@[i].1.position },
                Notice::Stop { guid: nova.stops@[i].0, info: nova.stops@[i].1 },
            )
            &&& 0 <= i < nova.client_hits@.len() && m@.player(nova.client_hits@[i]) is Some ==> is_told(
                all,
                Audience::One { key: m@.player(nova.client_hits@[i])->0 },
                Notice::Root { guid: nova.client_hits@[i] },
            )
        }),
{
    let to = Audience::Near { map: caster.map, place: caster.info.position };
    let go = Notice::SpellGo { caster: caster.guid, spell: 122 };
    let a = stops_told(caster.map, None, nova.stops@);
    let b = both(to, go);
    let c = auras_told(to, nova.creature_hits@, false);
    let d = auras_told(to, nova.client_hits@, true);
    let e = roots_told(m@, nova.client_hits@);
    lemma_told_more(b, a, to, go);
    lemma_parts(old(out)@, a, b, c, d, e, to, go);
    if 0 <= i < nova.creature_hits@.len() {
        lemma_auras(to, nova.creature_hits@, false, i);
        lemma_parts(old(out)@, a, b, c, d, e, to, Notice::Aura { guid: nova.creature_hits@[i], spell: 122, player: false });
    }
    if 0 <= i < nova.client_hits@.len() {
        lemma_auras(to, nova.client_hits@, true, i);
        lemma_parts(old(out)@, a, b, c, d, e, to, Notice::Aura { guid: nova.client_hits@[i], spell: 122, player: true });
        lemma_roots(m@, nova.client_hits@, i);
        lemma_parts(
            old(out)@,
            a,
            b,
            c,
            d,
            e,
            Audience::One { key: m@.player(nova.client_hits@[i])->0 },
            Notice::Root { guid: nova.client_hits@[i] },
        );
    }
    if 0 <= i < nova.stops@.len() {
        lemma_stops(caster.map, None, nova.stops@, i);
        lemma_parts(
            old(out)@,
            a,
            b,
            c,
            d,
            e,
            Audience::Near { map: caster.map, place: nova.stops@[i].1.position },
            Notice::Stop { guid: nova.stops@[i].0, info: nova.stops@[i].1 },
        );
    }
}

} // verus!

//! What players are told of who moved, of what they see, and of who left.
use crate::aoi::AoiChange;
use crate::creature::Creature;
use crate::departures::MapGuids;
use crate::map_state::{MapState, MapView, PendingMovement};
use crate::notice;
use crate::notice::{Audience, Bystander, Notice, Outgoing};
use crate::slabs;
use vstd::prelude::*;

verus! {

/// A notice as contracts speak of it.
#[verifier::ext_equal]
pub enum Told {
    /// These objects are out of sight.
    Withdrawn { guids: Seq<u64> },
    Other(Notice),
}

pub open spec fn told_what(n: Notice) -> Told {
    match n {
        Notice::OutOfRange { guids } => Told::Withdrawn { guids: guids@ },
        _ => Told::Other(n),
    }
}

/// Who is told, and what.
pub open spec fn told(o: Outgoing) -> (Audience, Told) {
    (o.to, told_what(o.what))
}

pub open spec fn all_told(out: Seq<Outgoing>) -> Seq<(Audience, Told)> {
    out.map_values(|o: Outgoing| told(o))
}

/// What is told of a movement: those near the player hear of it, but not the player.
pub open spec fn told_of_move(b: (u64, PendingMovement)) -> Outgoing {
    Outgoing {
        to: Audience::NearBut { map: b.1.map, place: b.1.anchor, guid: b.0 },
        what: Notice::Moved { guid: b.0, opcode: b.1.opcode, info: b.1.info },
    }
}

/// Tell of the movements that others are told of.
pub fn tell_of_moves(broadcasts: &Vec<(u64, PendingMovement)>, out: &mut Vec<Outgoing>)
    ensures
        final(out)@ == old(out)@ + broadcasts@.map_values(|b: (u64, PendingMovement)| told_of_move(b)),
{
    let ghost said = out@;
    let ghost all = broadcasts@.map_values(|b: (u64, PendingMovement)| told_of_move(b));
    let mut i: usize = 0;
    while i < broadcasts.len()
        invariant
            i <= broadcasts@.len(),
            all == broadcasts@.map_values(|b: (u64, PendingMovement)| told_of_move(b)),
            out@ == said + all.take(i as int),
        decreases broadcasts.len() - i,
    {
        let b = &broadcasts[i];
        let m = &b.1;
        out.push(
            Outgoing {
                to: Audience::NearBut { map: m.map, place: m.anchor, guid: b.0 },
                what: Notice::Moved { guid: b.0, opcode: m.opcode, info: m.info },
            },
        );
        proof {
            assert(all.take(i + 1) =~= all.take(i as int).push(all[i as int]));
            assert(out@ =~= said + all.take(i + 1));
        }
        i += 1;
    }
    assert(all.take(i as int) =~= all);
}

fn copied(v: &Vec<u64>) -> (r: Vec<u64>)
    ensures
        r@ == v@,
{
    let mut r: Vec<u64> = Vec::new();
    let mut i: usize = 0;
    while i < v.len()
        invariant
            i <= v@.len(),
            r@ == v@.take(i as int),
        decreases v.len() - i,
    {
        r.push(v[i]);
        assert(v@.take(i + 1) =~= v@.take(i as int).push(v@[i as int]));
        i += 1;
    }
    assert(v@.take(i as int) =~= v@);
    r
}

proof fn lemma_told_more(out: Seq<Outgoing>, o: Outgoing)
    ensures
        all_told(out.push(o)) == all_told(out).push(told(o)),
{
    assert(all_told(out.push(o)) =~= all_told(out).push(told(o)));
}

/// What is told of those who left a map: everybody on it stops showing them.
pub open spec fn told_of_departure(g: MapGuids) -> (Audience, Told) {
    (Audience::OnMap { map: g.map }, Told::Withdrawn { guids: g.guids@ })
}

/// Tell everybody who is left who is gone, map by map.
pub fn tell_of_departures(gone: &Vec<MapGuids>, out: &mut Vec<Outgoing>)
    ensures
        all_told(final(out)@) == all_told(old(out)@) + gone@.map_values(|g: MapGuids| told_of_departure(g)),
{
    let ghost said = all_told(out@);
    let ghost all = gone@.map_values(|g: MapGuids| told_of_departure(g));
    let mut i: usize = 0;
    assert(said + all.take(0) =~= said);
    while i < gone.len()
        invariant
            i <= gone@.len(),
            all == gone@.map_values(|g: MapGuids| told_of_departure(g)),
            all_told(out@) == said + all.take(i as int),
        decreases gone.len() - i,
    {
        let ghost before = out@;
        let g = &gone[i];
        let o = Outgoing {
            to: Audience::OnMap { map: g.map },
            what: Notice::OutOfRange { guids: copied(&g.guids) },
        };
        proof {
            lemma_told_more(before, o);
            assert(told(o) == all[i as int]);
            assert(all.take(i + 1) =~= all.take(i as int).push(all[i as int]));
            assert((said + all.take(i as int)).push(all[i as int]) =~= said + all.take(i + 1));
        }
        out.push(o);
        i += 1;
    }
    assert(all.take(i as int) =~= all);
}

impl MapState {
    /// What the client under `key` is shown of the entities `guids`: those that are
    /// known on this map, one after the other.
    pub open spec fn shown(&self, key: usize, guids: Seq<u64>) -> Seq<(Audience, Told)>
        decreases guids.len(),
    {
        if guids.len() == 0 {
            Seq::empty()
        } else {
            let before = self.shown(key, guids.drop_last());
            match self.announced(guids.last()) {
                Some(n) => before.push((Audience::One { key }, told_what(n))),
                None => before,
            }
        }
    }

    /// What the client under `key` is told of a change of what it sees: what went out
    /// of sight is withdrawn, then what came into sight is shown.
    pub open spec fn told_of_change(&self, key: usize, c: AoiChange) -> Seq<(Audience, Told)> {
        (if c.departed@.len() == 0 {
            Seq::empty()
        } else {
            seq![(Audience::One { key }, Told::Withdrawn { guids: c.departed@ })]
        }) + self.shown(key, c.entered@)
    }

    /// What the clients under `keys` are told of the changes, one after the other.
    pub open spec fn told_of_changes(&self, keys: Seq<usize>, changes: Seq<AoiChange>) -> Seq<(Audience, Told)>
        decreases changes.len(),
    {
        if changes.len() == 0 {
            Seq::empty()
        } else {
            self.told_of_changes(keys, changes.drop_last()) + self.told_of_change(
                keys[changes.len() - 1],
                changes.last(),
            )
        }
    }

    /// Whether `is` differs from this map only in the frames that creatures keep.
    pub open spec fn differs_in_frames(&self, is: MapView) -> bool {
        let was = self@;
        &&& is == (MapView { creatures: is.creatures, ..was })
        &&& is.creatures.dom() == was.creatures.dom()
        &&& forall|k: usize| #[trigger]
            is.creatures.contains_key(k) ==> is.creatures[k] == (Creature {
                cached_object: is.creatures[k].cached_object,
                ..was.creatures[k]
            }) && is.creatures[k].served() == was.creatures[k].served()
    }

    /// Show the client under `key` the entities `guids`.
    fn show(&mut self, key: usize, guids: &Vec<u64>, out: &mut Vec<Outgoing>)
        requires
            old(self).wf(),
        ensures
            final(self).wf(),
            old(self).differs_in_frames(final(self)@),
            all_told(final(out)@) == all_told(old(out)@) + old(self).shown(key, guids@),
    {
        let ghost said = all_told(out@);
        let ghost start = *self;
        let mut i: usize = 0;
        proof {
            assert(guids@.take(0) =~= Seq::<u64>::empty());
            assert(said + start.shown(key, guids@.take(0)) =~= said);
        }
        while i < guids.len()
            invariant
                i <= guids@.len(),
                self.wf(),
                start.differs_in_frames(self@),
                all_told(out@) == said + start.shown(key, guids@.take(i as int)),
            decreases guids.len() - i,
        {
            let guid: u64 = guids[i];
            let ghost before = out@;
            let ghost shown = start.shown(key, guids@.take(i as int));
            proof {
                assert(guids@.take(i + 1).drop_last() =~= guids@.take(i as int));
                assert(guids@.take(i + 1).last() == guid);
                assert(self.announced(guid) == start.announced(guid));
            }
            match self.announce(guid) {
                Some(n) => {
                    let o = Outgoing { to: Audience::One { key }, what: n };
                    proof {
                        lemma_told_more(before, o);
                        assert((said + shown).push(told(o)) =~= said + shown.push(told(o)));
                    }
                    out.push(o);
                },
                None => {},
            }
            i += 1;
        }
        assert(guids@.take(i as int) =~= guids@);
    }

    /// Tell every client of the change of what it sees. `changes` holds those of the
    /// clients by ascending slab key.
    pub fn tell_of_sight(&mut self, changes: &Vec<AoiChange>, out: &mut Vec<Outgoing>)
        requires
            old(self).wf(),
            changes@.len() == slabs::ordered(old(self)@.clients.dom()).len(),
        ensures
            final(self).wf(),
            old(self)@.index_is_live() ==> final(self)@.index_is_live(),
            old(self).differs_in_frames(final(self)@),
            all_told(final(out)@) == all_told(old(out)@) + old(self).told_of_changes(
                slabs::ordered(old(self)@.clients.dom()),
                changes@,
            ),
    {
        let ghost said = all_told(out@);
        let ghost start = *self;
        let keys = slabs::clients_keys(&self.clients);
        proof {
            slabs::ordered_is(keys@, self@.clients.dom());
        }
        let mut i: usize = 0;
        proof {
            assert(changes@.take(0) =~= Seq::<AoiChange>::empty());
            assert(said + start.told_of_changes(keys@, changes@.take(0)) =~= said);
        }
        while i < changes.len()
            invariant
                i <= changes@.len(),
                changes@.len() == keys@.len(),
                self.wf(),
                start.differs_in_frames(self@),
                all_told(out@) == said + start.told_of_changes(keys@, changes@.take(i as int)),
            decreases changes.len() - i,
        {
            let c = &changes[i];
            let key: usize = keys[i];
            let ghost earlier = start.told_of_changes(keys@, changes@.take(i as int));
            let ghost gone: Seq<(Audience, Told)> = if c.departed@.len() == 0 {
                Seq::empty()
            } else {
                seq![(Audience::One { key }, Told::Withdrawn { guids: c.departed@ })]
            };
            if c.departed.len() > 0 {
                let ghost before = out@;
                let o = Outgoing {
                    to: Audience::One { key },
                    what: Notice::OutOfRange { guids: copied(&c.departed) },
                };
                proof {
                    lemma_told_more(before, o);
                    assert((said + earlier).push(told(o)) =~= said + earlier + gone);
                }
                out.push(o);
            } else {
                assert(said + earlier + gone =~= said + earlier);
            }
            let ghost mid = *self;
            self.show(key, &c.entered, out);
            proof {
                lemma_same_frames(start, mid, key, c.entered@);
                assert(changes@.take(i + 1).drop_last() =~= changes@.take(i as int));
                assert(changes@.take(i + 1).last() == *c);
                assert(said + earlier + gone + start.shown(key, c.entered@) =~= said + (earlier + (gone + start.shown(
                    key,
                    c.entered@,
                ))));
            }
            i += 1;
        }
        assert(changes@.take(i as int) =~= changes@);
    }
}

/// What is shown does not depend on the frames that creatures keep.
proof fn lemma_same_frames(a: MapState, b: MapState, key: usize, guids: Seq<u64>)
    requires
        a.differs_in_frames(b@),
    ensures
        a.shown(key, guids) == b.shown(key, guids),
    decreases guids.len(),
{
    if guids.len() > 0 {
        lemma_same_frames(a, b, key, guids.drop_last());
        assert(a.announced(guids.last()) == b.announced(guids.last()));
    }
}

/// Nobody is told of their own movement.
pub proof fn nobody_is_told_of_their_own_movement(b: (u64, PendingMovement), who: Bystander, radius_sq: u32)
    requires
        who.guid == b.0,
    ensures
        !notice::hears(told_of_move(b).to, who, radius_sq),
{
}

/// Of every movement that others are told of, those near the player are told, on the map
/// where the player was: who moved, how, and where to.
pub proof fn every_move_is_told(broadcasts: &Vec<(u64, PendingMovement)>, out: &mut Vec<Outgoing>, u: (), i: int)
    requires
        call_ensures(tell_of_moves, (broadcasts, out), u),
        0 <= i < broadcasts@.len(),
    ensures
        final(out)@.len() == old(out)@.len() + broadcasts@.len(),
        ({
            let (guid, m) = broadcasts@[i];
            final(out)@[old(out)@.len() + i] == (Outgoing {
                to: Audience::NearBut { map: m.map, place: m.anchor, guid },
                what: Notice::Moved { guid, opcode: m.opcode, info: m.info },
            })
        }),
{
}

/// Everybody on a map that somebody left is told to withdraw those who are gone from it.
pub proof fn every_departure_is_told(gone: &Vec<MapGuids>, out: &mut Vec<Outgoing>, u: (), i: int)
    requires
        call_ensures(tell_of_departures, (gone, out), u),
        0 <= i < gone@.len(),
    ensures
        final(out)@.len() == old(out)@.len() + gone@.len(),
        ({
            let o = final(out)@[old(out)@.len() + i];
            &&& o.to == (Audience::OnMap { map: gone@[i].map })
            &&& o.what is OutOfRange
            &&& o.what->guids@ == gone@[i].guids@
        }),
{
    let s = all_told(final(out)@);
    assert(s.len() == final(out)@.len());
    assert(all_told(old(out)@).len() == old(out)@.len());
    let n = old(out)@.len() + i;
    assert(s[n] == told(final(out)@[n]));
    assert(s[n] == told_of_departure(gone@[i]));
}

proof fn lemma_shown(m: MapState, key: usize, guids: Seq<u64>, i: int)
    requires
        0 <= i < guids.len(),
        m.announced(guids[i]) is Some,
    ensures
        m.shown(key, guids).contains((Audience::One { key }, told_what(m.announced(guids[i])->0))),
    decreases guids.len(),
{
    let init = guids.drop_last();
    let x = (Audience::One { key }, told_what(m.announced(guids[i])->0));
    let before = m.shown(key, init);
    if i < init.len() {
        assert(init[i] == guids[i]);
        lemma_shown(m, key, init, i);
    }
    if let Some(n) = m.announced(guids.last()) {
        crate::aoi::lemma_push_contains(before, (Audience::One { key }, told_what(n)), x);
    }
}

proof fn lemma_changes(m: MapState, keys: Seq<usize>, changes: Seq<AoiChange>, i: int, x: (Audience, Told))
    requires
        0 <= i < changes.len(),
        m.told_of_change(keys[i], changes[i]).contains(x),
    ensures
        m.told_of_changes(keys, changes).contains(x),
    decreases changes.len(),
{
    let init = changes.drop_last();
    let a = m.told_of_changes(keys, init);
    let b = m.told_of_change(keys[changes.len() - 1], changes.last());
    if i < init.len() {
        assert(init[i] == changes[i]);
        lemma_changes(m, keys, init, i, x);
        let j = choose|j: int| 0 <= j < a.len() && a[j] == x;
        assert((a + b)[j] == x);
    } else {
        let j = choose|j: int| 0 <= j < b.len() && b[j] == x;
        assert((a + b)[a.len() + j] == x);
    }
}

/// Every client is told to withdraw what went out of its sight, all at once, and is shown
/// everything that came into it and is known on the map.
pub proof fn every_change_of_sight_is_told(
    m: &mut MapState,
    changes: &Vec<AoiChange>,
    out: &mut Vec<Outgoing>,
    u: (),
    i: int,
    j: int,
)
    requires
        old(m).wf(),
        changes@.len() == slabs::ordered(old(m)@.clients.dom()).len(),
        call_ensures(MapState::tell_of_sight, (m, changes, out), u),
        0 <= i < changes@.len(),
    ensures
        ({
            let key = slabs::ordered(old(m)@.clients.dom())[i];
            let c = changes@[i];
            &&& c.departed@.len() > 0 ==> exists|n: int|
                0 <= n < final(out)@.len() && (#[trigger] final(out)@[n]).to == (Audience::One { key })
                    && final(out)@[n].what is OutOfRange && final(out)@[n].what->guids@ == c.departed@
            &&& 0 <= j < c.entered@.len() && old(m).announced(c.entered@[j]) is Some && !(old(m).announced(
                c.entered@[j],
            )->0 is OutOfRange) ==> exists|n: int|
                0 <= n < final(out)@.len() && (#[trigger] final(out)@[n]).to == (Audience::One { key })
                    && final(out)@[n].what == old(m).announced(c.entered@[j])->0
        }),
        old(m).differs_in_frames(final(m)@),
{
    let keys = slabs::ordered(old(m)@.clients.dom());
    let key = keys[i];
    let c = changes@[i];
    let one = old(m).told_of_change(key, c);
    let all = old(m).told_of_changes(keys, changes@);
    let s = all_told(final(out)@);
    let was = all_told(old(out)@);
    assert(s.len() == final(out)@.len());
    if c.departed@.len() > 0 {
        let x = (Audience::One { key }, Told::Withdrawn { guids: c.departed@ });
        assert(one[0] == x);
        lemma_changes(*old(m), keys, changes@, i, x);
        let k = choose|k: int| 0 <= k < all.len() && all[k] == x;
        let n = was.len() + k;
        assert(s[n] == x);
        assert(s[n] == told(final(out)@[n]));
        assert(final(out)@[n].to == (Audience::One { key }));
    }
    if 0 <= j < c.entered@.len() && old(m).announced(c.entered@[j]) is Some && !(old(m).announced(
        c.entered@[j],
    )->0 is OutOfRange) {
        let x = (Audience::One { key }, told_what(old(m).announced(c.entered@[j])->0));
        lemma_shown(*old(m), key, c.entered@, j);
        let sh = old(m).shown(key, c.entered@);
        let k0 = choose|k: int| 0 <= k < sh.len() && sh[k] == x;
        let pre = one.len() - sh.len();
        assert(one[pre + k0] == x);
        lemma_changes(*old(m), keys, changes@, i, x);
        let k = choose|k: int| 0 <= k < all.len() && all[k] == x;
        let n = was.len() + k;
        assert(s[n] == x);
        assert(s[n] == told(final(out)@[n]));
        assert(final(out)@[n].to == (Audience::One { key }));
    }
}

} // verus!

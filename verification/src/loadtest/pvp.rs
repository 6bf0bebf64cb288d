//! What a fighting bot knows: who it saw where, whom it fights, and whether it is
//! dead.
use crate::clock;
use crate::keyed::KeyedTable;
use crate::movement::Place;
use crate::tables;
use rand::seq::IteratorRandom;
use vstd::prelude::*;

verus! {

/// Who was not seen for half a minute is forgotten.
pub const STALE_AFTER: u64 = 30_000_000_000;

/// The health that everybody has.
pub const PVP_MAX_HEALTH: u32 = 100;

/// A bot that fights.
pub struct PvpState {
    seen: KeyedTable<(Place, u64)>,
    /// The damage that the bot took.
    damage_taken: u32,
    /// When the bot died, if it did.
    last_death_at: Option<u64>,
    /// Whom it fights.
    current_target: Option<u64>,
    /// The damage that the target was seen to take.
    damage_dealt_to_target: u32,
}

#[verifier::ext_equal]
pub struct PvpView {
    pub seen: Map<u64, (Place, u64)>,
    pub damage_taken: u32,
    pub last_death_at: Option<u64>,
    pub current_target: Option<u64>,
    pub damage_dealt_to_target: u32,
}

impl View for PvpState {
    type V = PvpView;

    closed spec fn view(&self) -> PvpView {
        PvpView {
            seen: self.seen@,
            damage_taken: self.damage_taken,
            last_death_at: self.last_death_at,
            current_target: self.current_target,
            damage_dealt_to_target: self.damage_dealt_to_target,
        }
    }
}

/// Who was seen lately.
pub open spec fn recent(seen: Map<u64, (Place, u64)>, now: u64) -> Map<u64, (Place, u64)> {
    seen.restrict(Set::new(|g: u64| seen.contains_key(g) && clock::since_spec(now, seen[g].1) < STALE_AFTER))
}

/// A sum that stops at the largest number.
pub open spec fn harm(a: u32, b: u32) -> u32 {
    if a + b > u32::MAX {
        u32::MAX
    } else {
        (a + b) as u32
    }
}

impl PvpView {
    /// The bot that saw somebody.
    pub open spec fn observed(self, guid: u64, pos: Place, now: u64) -> PvpView {
        PvpView { seen: self.seen.insert(guid, (pos, now)), ..self }
    }

    /// The bot without a target.
    pub open spec fn dropped(self) -> PvpView {
        PvpView { current_target: None, damage_dealt_to_target: 0, ..self }
    }

    /// The bot that lets go of a target that it did not see lately.
    pub open spec fn released(self, now: u64) -> PvpView {
        if self.current_target is Some && !recent(self.seen, now).contains_key(self.current_target->0) {
            self.dropped()
        } else {
            self
        }
    }

    /// The bot that chose whom it fights, or nobody. A bot with a target keeps it; one
    /// without forgets who was not seen lately.
    pub open spec fn acquired(self, choice: Option<u64>, now: u64) -> PvpView {
        if self.current_target is Some {
            self
        } else {
            let seen = recent(self.seen, now);
            match choice {
                Some(g) => PvpView { seen, current_target: Some(g), damage_dealt_to_target: 0, ..self },
                None => PvpView { seen, ..self },
            }
        }
    }

    /// Whether the bot may choose `choice`: somebody else who was seen lately, and
    /// nobody only if there is nobody.
    pub open spec fn may_choose(self, exclude: u64, choice: Option<u64>, now: u64) -> bool {
        match choice {
            Some(g) => g != exclude && recent(self.seen, now).contains_key(g),
            None => forall|g: u64| #[trigger] recent(self.seen, now).contains_key(g) ==> g == exclude,
        }
    }

    /// The bot that was hit. The dead are not hurt any further.
    pub open spec fn hurt(self, amount: u32, now: u64) -> PvpView {
        if self.last_death_at is Some {
            self
        } else {
            let taken = harm(self.damage_taken, amount);
            if taken >= PVP_MAX_HEALTH {
                PvpView {
                    damage_taken: taken,
                    last_death_at: Some(now),
                    current_target: None,
                    damage_dealt_to_target: 0,
                    ..self
                }
            } else {
                PvpView { damage_taken: taken, ..self }
            }
        }
    }

    /// The bot that saw a hit: on itself, on its target, which it lets go of when that
    /// is dead, or on somebody else.
    pub open spec fn witnessed(self, target: u64, damage: u32, own_guid: u64, now: u64) -> PvpView {
        if target == own_guid {
            self.hurt(damage, now)
        } else if self.current_target == Some(target) {
            let dealt = harm(self.damage_dealt_to_target, damage);
            if dealt >= PVP_MAX_HEALTH {
                self.dropped()
            } else {
                PvpView { damage_dealt_to_target: dealt, ..self }
            }
        } else {
            self
        }
    }

    /// What holds of every bot: it is dead exactly if it took all the damage it can
    /// take, the dead fight nobody, and a target is alive as far as the bot saw.
    pub open spec fn sound(self) -> bool {
        &&& (self.last_death_at is Some <==> self.damage_taken >= PVP_MAX_HEALTH)
        &&& (self.last_death_at is Some ==> self.current_target is None)
        &&& (self.current_target is None ==> self.damage_dealt_to_target == 0)
        &&& self.damage_dealt_to_target < PVP_MAX_HEALTH
    }
}

/// `IteratorRandom::choose` of `rand`: one of them by chance, or nothing of nothing.
#[verifier::external_body]
fn choose_one(v: &Vec<u64>) -> (r: Option<u64>)
    ensures
        r is None <==> v@.len() == 0,
        r is Some ==> v@.contains(r->0),
{
    v.iter().copied().choose(&mut rand::rng())
}

impl PvpState {
    pub closed spec fn wf(&self) -> bool {
        self.seen.wf()
    }

    pub fn new() -> (r: Self)
        ensures
            r.wf(),
            r@.sound(),
            r@ == (PvpView {
                seen: Map::empty(),
                damage_taken: 0,
                last_death_at: None,
                current_target: None,
                damage_dealt_to_target: 0,
            }),
    {
        PvpState {
            seen: KeyedTable::new(),
            damage_taken: 0,
            last_death_at: None,
            current_target: None,
            damage_dealt_to_target: 0,
        }
    }

    pub fn observe(&mut self, guid: u64, pos: Place, now: u64)
        requires
            old(self).wf(),
        ensures
            final(self).wf(),
            final(self)@ == old(self)@.observed(guid, pos, now),
    {
        self.seen.insert(guid, (pos, now));
    }

    pub fn position_of(&self, guid: u64) -> (r: Option<Place>)
        requires
            self.wf(),
        ensures
            r == (if self@.seen.contains_key(guid) {
                Some(self@.seen[guid].0)
            } else {
                None
            }),
    {
        match self.seen.get(guid) {
            Some(s) => Some(s.0),
            None => None,
        }
    }

    pub fn is_dead(&self) -> (r: bool)
        ensures
            r == self@.last_death_at is Some,
    {
        self.last_death_at.is_some()
    }

    pub fn target(&self) -> (r: Option<u64>)
        ensures
            r == self@.current_target,
    {
        self.current_target
    }

    /// Forget who was not seen lately.
    fn prune(&mut self, now: u64)
        requires
            old(self).wf(),
        ensures
            final(self).wf(),
            final(self)@ == (PvpView { seen: recent(old(self)@.seen, now), ..old(self)@ }),
    {
        let ghost was = self@.seen;
        let keys = self.seen.keys();
        let mut i: usize = 0;
        while i < keys.len()
            invariant
                i <= keys@.len(),
                self.wf(),
                tables::lists(keys@, was.dom()),
                self@ == (PvpView { seen: self@.seen, ..old(self)@ }),
                forall|g: u64| #[trigger]
                    self@.seen.contains_key(g) <==> was.contains_key(g) && (clock::since_spec(now, was[g].1) < STALE_AFTER
                        || !keys@.take(i as int).contains(g)),
                forall|g: u64| #[trigger] self@.seen.contains_key(g) ==> self@.seen[g] == was[g],
            decreases keys.len() - i,
        {
            let g: u64 = keys[i];
            assert(keys@.contains(g));
            let old_enough: bool = match self.seen.get(g) {
                Some(s) => clock::since(now, s.1) >= STALE_AFTER,
                None => false,
            };
            let ghost before = self@.seen;
            if old_enough {
                self.seen.remove(g);
            }
            proof {
                assert(!keys@.take(i as int).contains(g)) by {
                    if keys@.take(i as int).contains(g) {
                        let j = choose|j: int| 0 <= j < i && keys@.take(i as int)[j] == g;
                        assert(keys@[j] == keys@[i as int]);
                    }
                }
                assert(keys@.take(i + 1) =~= keys@.take(i as int).push(g));
                assert forall|h: u64| #[trigger] self@.seen.contains_key(h) <==> was.contains_key(h) && (
                clock::since_spec(now, was[h].1) < STALE_AFTER || !keys@.take(i + 1).contains(h)) by {
                    assert(before.contains_key(h) <==> was.contains_key(h) && (clock::since_spec(now, was[h].1)
                        < STALE_AFTER || !keys@.take(i as int).contains(h)));
                    crate::aoi::lemma_push_contains(keys@.take(i as int), g, h);
                }
            }
            i += 1;
        }
        proof {
            assert(keys@.take(i as int) =~= keys@);
            assert forall|g: u64| was.contains_key(g) implies #[trigger] keys@.contains(g) by {}
            assert(self@.seen =~= recent(was, now));
        }
    }

    fn candidates(&self, exclude: u64) -> (r: Vec<u64>)
        ensures
            forall|g: u64| #[trigger] r@.contains(g) <==> self@.seen.contains_key(g) && g != exclude,
    {
        let keys = self.seen.keys();
        let mut r: Vec<u64> = Vec::new();
        let mut i: usize = 0;
        while i < keys.len()
            invariant
                i <= keys@.len(),
                forall|g: u64| #[trigger] r@.contains(g) <==> keys@.take(i as int).contains(g) && g != exclude,
            decreases keys.len() - i,
        {
            let g: u64 = keys[i];
            let ghost before = r@;
            if g != exclude {
                r.push(g);
            }
            proof {
                assert(keys@.take(i + 1) =~= keys@.take(i as int).push(g));
                assert forall|h: u64| #[trigger] r@.contains(h) <==> keys@.take(i + 1).contains(h) && h != exclude by {
                    assert(before.contains(h) <==> keys@.take(i as int).contains(h) && h != exclude);
                    crate::aoi::lemma_push_contains(before, g, h);
                    crate::aoi::lemma_push_contains(keys@.take(i as int), g, h);
                }
            }
            i += 1;
        }
        assert(keys@.take(i as int) =~= keys@);
        r
    }

    /// Fight whom is chosen.
    pub fn engage(&mut self, choice: Option<u64>, now: u64)
        requires
            old(self).wf(),
        ensures
            final(self).wf(),
            final(self)@ == old(self)@.acquired(choice, now),
    {
        if self.current_target.is_some() {
            return;
        }
        self.prune(now);
        if let Some(g) = choice {
            self.current_target = Some(g);
            self.damage_dealt_to_target = 0;
        }
    }

    /// Without a target, choose one by chance of those who were seen lately. The
    /// choice is `exclude` never.
    pub fn acquire_target_if_needed(&mut self, exclude: u64, now: u64)
        requires
            old(self).wf(),
        ensures
            final(self).wf(),
            old(self)@.current_target is Some ==> final(self)@ == old(self)@,
            old(self)@.current_target is None ==> old(self)@.may_choose(
                exclude,
                final(self)@.current_target,
                now,
            ) && final(self)@ == old(self)@.acquired(final(self)@.current_target, now),
    {
        if self.current_target.is_some() {
            return;
        }
        self.prune(now);
        let among = self.candidates(exclude);
        let choice = choose_one(&among);
        proof {
            if choice is None {
                assert forall|g: u64| #[trigger] recent(old(self)@.seen, now).contains_key(g) implies g == exclude by {
                    assert(!among@.contains(g));
                }
            }
        }
        if let Some(g) = choice {
            self.current_target = Some(g);
            self.damage_dealt_to_target = 0;
        }
    }

    /// Let go of a target that was not seen lately: the dead are not seen to move any
    /// more.
    pub fn release_stale_target(&mut self, now: u64)
        requires
            old(self).wf(),
        ensures
            final(self).wf(),
            final(self)@ == old(self)@.released(now),
    {
        if let Some(g) = self.current_target {
            let stale: bool = match self.seen.get(g) {
                Some(entry) => clock::since(now, entry.1) >= STALE_AFTER,
                None => true,
            };
            if stale {
                self.current_target = None;
                self.damage_dealt_to_target = 0;
            }
        }
    }

    pub fn record_attack_seen(&mut self, target: u64, damage: u32, own_guid: u64, now: u64)
        requires
            old(self).wf(),
        ensures
            final(self).wf(),
            final(self)@ == old(self)@.witnessed(target, damage, own_guid, now),
    {
        if target == own_guid {
            self.take_damage(damage, now);
            return;
        }
        if let Some(g) = self.current_target {
            if g == target {
                self.damage_dealt_to_target = self.damage_dealt_to_target.saturating_add(damage);
                if self.damage_dealt_to_target >= PVP_MAX_HEALTH {
                    self.current_target = None;
                    self.damage_dealt_to_target = 0;
                }
            }
        }
    }

    fn take_damage(&mut self, amount: u32, now: u64)
        requires
            old(self).wf(),
        ensures
            final(self).wf(),
            final(self)@ == old(self)@.hurt(amount, now),
    {
        if self.last_death_at.is_some() {
            return;
        }
        self.damage_taken = self.damage_taken.saturating_add(amount);
        if self.damage_taken >= PVP_MAX_HEALTH {
            self.last_death_at = Some(now);
            self.current_target = None;
            self.damage_dealt_to_target = 0;
        }
    }

    pub fn drop_target(&mut self)
        requires
            old(self).wf(),
        ensures
            final(self).wf(),
            final(self)@ == old(self)@.dropped(),
    {
        self.current_target = None;
        self.damage_dealt_to_target = 0;
    }
}

/// Whatever a bot sees, suffers or decides, what holds of every bot goes on to hold.
pub proof fn bots_stay_sound(
    b: PvpView,
    guid: u64,
    pos: Place,
    amount: u32,
    own_guid: u64,
    choice: Option<u64>,
    now: u64,
)
    requires
        b.sound(),
    ensures
        b.observed(guid, pos, now).sound(),
        b.dropped().sound(),
        b.released(now).sound(),
        b.witnessed(guid, amount, own_guid, now).sound(),
        b.last_death_at is None ==> b.acquired(choice, now).sound(),
{
}

/// Nothing brings a dead bot back, nor does it take or deal any further damage.
pub proof fn the_dead_stay_dead(b: PvpView, target: u64, amount: u32, own_guid: u64, now: u64)
    requires
        b.sound(),
        b.last_death_at is Some,
    ensures
        b.witnessed(target, amount, own_guid, now) == b,
        b.released(now) == b,
{
}

/// A bot that was hit has that much more damage, and at a hundred it is dead and fights
/// nobody; hits on others do not hurt it, and the dead are not hurt further.
pub proof fn a_bot_dies_of_a_hundred(s: &mut PvpState, target: u64, damage: u32, own_guid: u64, now: u64, u: ())
    requires
        old(s).wf(),
        call_ensures(PvpState::record_attack_seen, (s, target, damage, own_guid, now), u),
        old(s)@.damage_taken + damage <= u32::MAX,
        old(s)@.damage_dealt_to_target + damage <= u32::MAX,
    ensures
        target == own_guid && old(s)@.last_death_at is None ==> final(s)@.damage_taken == old(s)@.damage_taken + damage,
        target == own_guid && old(s)@.last_death_at is None && old(s)@.damage_taken + damage >= 100
            ==> final(s)@.last_death_at == Some(now) && final(s)@.current_target is None,
        target == own_guid && old(s)@.last_death_at is None && old(s)@.damage_taken + damage < 100
            ==> final(s)@.last_death_at is None && final(s)@.current_target == old(s)@.current_target,
        target == own_guid && old(s)@.last_death_at is Some ==> final(s)@ == old(s)@,
        target != own_guid ==> final(s)@.damage_taken == old(s)@.damage_taken && final(s)@.last_death_at
            == old(s)@.last_death_at,
        target != own_guid && old(s)@.current_target == Some(target) && old(s)@.damage_dealt_to_target + damage < 100
            ==> final(s)@.damage_dealt_to_target == old(s)@.damage_dealt_to_target + damage && final(s)@.current_target == Some(target),
        target != own_guid && old(s)@.current_target == Some(target) && old(s)@.damage_dealt_to_target + damage >= 100
            ==> final(s)@.current_target is None && final(s)@.damage_dealt_to_target == 0,
        target != own_guid && old(s)@.current_target != Some(target) ==> final(s)@ == old(s)@,
        final(s)@.seen == old(s)@.seen,
{
}

/// Who was seen is known to be where they were seen last, and a bot without a target finds
/// one among those who were seen in the last half minute, but for itself; one with a target
/// keeps it.
pub proof fn a_bot_fights_whom_it_saw(
    a: &mut PvpState,
    guid: u64,
    pos: Place,
    now: u64,
    u: (),
    after: &PvpState,
    other: u64,
    at: Option<Place>,
    b: &mut PvpState,
    exclude: u64,
    v: (),
)
    requires
        old(a).wf(),
        old(b).wf(),
        call_ensures(PvpState::observe, (a, guid, pos, now), u),
        *after == *final(a),
        call_ensures(PvpState::position_of, (after, other), at),
        call_ensures(PvpState::acquire_target_if_needed, (b, exclude, now), v),
    ensures
        other == guid ==> at == Some(pos),
        other != guid && old(a)@.seen.contains_key(other) ==> at == Some(old(a)@.seen[other].0),
        other != guid && !old(a)@.seen.contains_key(other) ==> at is None,
        final(a)@.seen[guid].1 == now,
        old(b)@.current_target is Some ==> final(b)@ == old(b)@,
        old(b)@.current_target is None && final(b)@.current_target is Some ==> {
            let g = final(b)@.current_target->0;
            g != exclude && old(b)@.seen.contains_key(g) && (now >= old(b)@.seen[g].1 ==> now - old(b)@.seen[g].1
                < 30_000_000_000)
        },
        old(b)@.current_target is None && final(b)@.current_target is None && other != exclude
            && old(b)@.seen.contains_key(other) ==> now >= old(b)@.seen[other].1 + 30_000_000_000,
{
    if old(b)@.current_target is None && final(b)@.current_target is None && other != exclude
        && old(b)@.seen.contains_key(other) {
        if now < old(b)@.seen[other].1 + 30_000_000_000 {
            assert(recent(old(b)@.seen, now).contains_key(other));
        }
    }
}

/// A bot lets go of a target that it did not see for half a minute, and of no other.
pub proof fn stale_targets_are_let_go(s: &mut PvpState, now: u64, u: (), g: u64)
    requires
        old(s).wf(),
        call_ensures(PvpState::release_stale_target, (s, now), u),
        old(s)@.current_target == Some(g),
    ensures
        !old(s)@.seen.contains_key(g) || now >= old(s)@.seen[g].1 + 30_000_000_000 ==> final(s)@.current_target is None,
        old(s)@.seen.contains_key(g) && now < old(s)@.seen[g].1 + 30_000_000_000 ==> final(s)@ == old(s)@,
{
}

/// A bot without a target fights whom it chooses, with nothing dealt yet; one that lets go
/// fights nobody.
pub proof fn a_bot_fights_whom_it_chooses(a: &mut PvpState, g: u64, now: u64, u: (), b: &mut PvpState, v: ())
    requires
        old(a).wf(),
        old(b).wf(),
        call_ensures(PvpState::engage, (a, Some(g), now), u),
        call_ensures(PvpState::drop_target, (b,), v),
    ensures
        old(a)@.current_target is None ==> final(a)@.current_target == Some(g) && final(a)@.damage_dealt_to_target == 0,
        old(a)@.current_target is Some ==> final(a)@ == old(a)@,
        final(a)@.damage_taken == old(a)@.damage_taken && final(a)@.last_death_at == old(a)@.last_death_at,
        final(b)@.current_target is None && final(b)@.damage_dealt_to_target == 0 && final(b)@.seen == old(b)@.seen
            && final(b)@.damage_taken == old(b)@.damage_taken,
{
}

} // verus!

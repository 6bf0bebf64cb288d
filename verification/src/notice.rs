//! What the simulation tells clients.
//!
//! The rules of the world say who is to be told what; putting it into packets
//! and sending them is left to the caller.
use crate::aoi;
use crate::creature::UnitFrame;
use crate::movement::{MovementInfo, Place};
use crate::numeric;
use vstd::prelude::*;

verus! {

/// Something that clients are told.
#[derive(Debug)]
pub enum Notice {
    /// A unit died: it has no health and lies on the ground.
    UnitDied { guid: u64 },
    /// An object is gone.
    Destroy { guid: u64 },
    /// A creature has appeared.
    ShowUnit { frame: UnitFrame },
    /// A player has appeared.
    ShowPlayer { guid: u64 },
    /// Objects are out of sight.
    OutOfRange { guids: Vec<u64> },
    /// A unit has no auras any more.
    AurasCleared { guid: u64 },
    /// A unit starts to move forward.
    StartForward { guid: u64, info: MovementInfo },
    /// A moving unit is here now.
    Heartbeat { guid: u64, info: MovementInfo },
    /// A unit stands still.
    Stop { guid: u64, info: MovementInfo },
    /// A player moved. The opcode says how.
    Moved { guid: u64, opcode: u16, info: MovementInfo },
    /// A creature runs from one place to another.
    MonsterMove { guid: u64, from: Place, to: Place, duration_ms: u32 },
    /// A swing hit.
    AttackerState { attacker: u64, target: u64, damage: u32 },
    /// The health of a creature.
    UnitHealth { guid: u64, health: i32 },
    /// The health of a player, and whether they fell.
    PlayerHealth { guid: u64, health: i32, dead: bool },
    /// A spell goes off. Whom it hits stands beside the notice.
    SpellGo { caster: u64, spell: u32 },
    /// What a spell took from somebody.
    SpellDamage { target: u64, attacker: u64, spell: u32, damage: u32 },
    /// A spell lies on a unit.
    Aura { guid: u64, spell: u32, player: bool },
    /// A player cannot move.
    Root { guid: u64 },
}

/// Who is told.
#[derive(Debug, Clone, Copy)]
pub enum Audience {
    /// Everybody on the map who is near the place.
    Near { map: u32, place: Place },
    /// The same, but for the player with that guid.
    NearBut { map: u32, place: Place, guid: u64 },
    /// The client with that slab key.
    One { key: usize },
    /// The client that is being handled.
    Handled,
    /// Everybody on the map.
    OnMap { map: u32 },
}

#[derive(Debug)]
pub struct Outgoing {
    pub to: Audience,
    pub what: Notice,
}

/// A client on the map, and the square of its distance to the place that a notice
/// is about.
#[derive(Debug, Clone, Copy, PartialEq, Eq, Structural)]
pub struct Bystander {
    pub key: usize,
    pub guid: u64,
    pub map: u32,
    pub dist_sq: u32,
}

/// Whether the bystander is told, given the square of how far off they may be.
pub open spec fn hears(to: Audience, b: Bystander, radius_sq: u32) -> bool {
    match to {
        Audience::Near { map, .. } => b.map == map && numeric::at_most(b.dist_sq, radius_sq),
        Audience::NearBut { map, guid, .. } => b.guid != guid && b.map == map && numeric::at_most(
            b.dist_sq,
            radius_sq,
        ),
        Audience::One { key } => b.key == key,
        Audience::Handled => false,
        Audience::OnMap { map } => b.map == map,
    }
}

/// The slab keys of those who are told.
pub open spec fn told(to: Audience, all: Seq<Bystander>, radius_sq: u32) -> Seq<usize> {
    all.filter(|b: Bystander| hears(to, b, radius_sq)).map_values(|b: Bystander| b.key)
}

/// Who of the bystanders is told.
pub fn recipients(to: Audience, all: &Vec<Bystander>, radius_sq: u32) -> (r: Vec<usize>)
    ensures
        r@ == told(to, all@, radius_sq),
{
    let mut r: Vec<usize> = Vec::new();
    let mut i: usize = 0;
    proof {
        reveal(Seq::filter);
        assert(all@.take(0) =~= Seq::<Bystander>::empty());
        assert(r@ =~= told(to, all@.take(0), radius_sq));
    }
    while i < all.len()
        invariant
            i <= all@.len(),
            r@ == told(to, all@.take(i as int), radius_sq),
        decreases all.len() - i,
    {
        let b = all[i];
        let ghost heard = all@.take(i as int).filter(|b: Bystander| hears(to, b, radius_sq));
        proof {
            reveal(Seq::filter);
            assert(all@.take(i + 1).drop_last() =~= all@.take(i as int));
            assert(all@.take(i + 1).last() == b);
        }
        let hears: bool = match to {
            Audience::Near { map, .. } => b.map == map && numeric::is_at_most(b.dist_sq, radius_sq),
            Audience::NearBut { map, guid, .. } => b.guid != guid && b.map == map && numeric::is_at_most(
                b.dist_sq,
                radius_sq,
            ),
            Audience::One { key } => b.key == key,
            Audience::Handled => false,
            Audience::OnMap { map } => b.map == map,
        };
        if hears {
            r.push(b.key);
            assert(heard.push(b).drop_last() =~= heard);
        }
        assert(r@ =~= told(to, all@.take(i + 1), radius_sq));
        i += 1;
    }
    assert(all@.take(i as int) =~= all@);
    r
}

/// Who of the bystanders is told, as far as things are heard of.
pub fn hearers(to: Audience, all: &Vec<Bystander>) -> (r: Vec<usize>)
    ensures
        r@ == told(to, all@, aoi::AOI_RADIUS_SQ),
{
    recipients(to, all, aoi::AOI_RADIUS_SQ)
}

/// What is told near a place is told to nobody on another map.
pub proof fn nobody_hears_across_maps(map: u32, place: Place, all: Seq<Bystander>, radius_sq: u32, i: int)
    requires
        0 <= i < told(Audience::Near { map, place }, all, radius_sq).len(),
    ensures
        exists|b: Bystander|
            #![trigger all.contains(b)]
            all.contains(b) && b.map == map && b.key == told(Audience::Near { map, place }, all, radius_sq)[i],
{
    let to = Audience::Near { map, place };
    let chosen = |b: Bystander| hears(to, b, radius_sq);
    let heard = all.filter(chosen);
    all.lemma_filter_pred(chosen, i);
    all.lemma_filter_contains_rev(chosen, heard[i]);
    assert(heard.contains(heard[i]));
    assert(all.contains(heard[i]));
}

/// Nobody hears of what they did themselves: their own movement told back to them
/// would throw them back to where they were.
pub proof fn nobody_hears_of_themselves(map: u32, place: Place, guid: u64, b: Bystander, radius_sq: u32)
    requires
        b.guid == guid,
    ensures
        !hears(Audience::NearBut { map, place, guid }, b, radius_sq),
{
}

proof fn lemma_told(to: Audience, all: Seq<Bystander>, radius_sq: u32, key: usize)
    ensures
        told(to, all, radius_sq).contains(key) <==> exists|i: int|
            0 <= i < all.len() && (#[trigger] all[i]).key == key && hears(to, all[i], radius_sq),
        told(to, all, radius_sq).len() <= all.len(),
    decreases all.len(),
{
    reveal(Seq::filter);
    let f = |b: Bystander| hears(to, b, radius_sq);
    let g = |b: Bystander| b.key;
    if all.len() > 0 {
        let init = all.drop_last();
        lemma_told(to, init, radius_sq, key);
        assert(all[all.len() - 1] == all.last());
        let before = told(to, init, radius_sq);
        if f(all.last()) {
            assert(all.filter(f) == init.filter(f).push(all.last()));
            assert(told(to, all, radius_sq) =~= before.push(all.last().key));
            crate::aoi::lemma_push_contains(before, all.last().key, key);
        } else {
            assert(told(to, all, radius_sq) =~= before);
        }
        if before.contains(key) {
            let i = choose|i: int|
                0 <= i < init.len() && (#[trigger] init[i]).key == key && hears(to, init[i], radius_sq);
            assert(all[i] == init[i]);
        }
        if exists|i: int| 0 <= i < all.len() && (#[trigger] all[i]).key == key && hears(to, all[i], radius_sq) {
            let i = choose|i: int|
                0 <= i < all.len() && (#[trigger] all[i]).key == key && hears(to, all[i], radius_sq);
            if i < init.len() {
                assert(init[i] == all[i]);
            }
        }
    } else {
        assert(all.filter(f) =~= Seq::<Bystander>::empty());
        assert(told(to, all, radius_sq) =~= Seq::<usize>::empty());
    }
}

/// What is told near a place is heard by everybody on the map within the radius, at it
/// included, and by nobody else; what a player did, by everybody but the player; what one is
/// told, by that one; and what is told on a map, by everybody on it.
pub proof fn who_is_near_hears(to: Audience, all: &Vec<Bystander>, radius_sq: u32, r: Vec<usize>, i: int)
    requires
        call_ensures(recipients, (to, all, radius_sq), r),
        0 <= i < all@.len(),
        all@[i].dist_sq <= 0x7f80_0000,
        radius_sq <= 0x7f80_0000,
        forall|j: int, k: int| 0 <= j < k < all@.len() ==> (#[trigger] all@[j]).key != (#[trigger] all@[k]).key,
    ensures
        ({
            let b = all@[i];
            let heard = r@.contains(b.key);
            &&& to is Near ==> (heard <==> b.map == to->Near_map && b.dist_sq <= radius_sq)
            &&& to is NearBut ==> (heard <==> b.map == to->NearBut_map && b.dist_sq <= radius_sq && b.guid
                != to->NearBut_guid)
            &&& to is One ==> (heard <==> b.key == to->One_key)
            &&& to is OnMap ==> (heard <==> b.map == to->OnMap_map)
            &&& to is Handled ==> !heard
        }),
        r@.len() <= all@.len(),
{
    lemma_told(to, all@, radius_sq, all@[i].key);
}

/// Things are heard of as far as they are seen.
pub proof fn things_are_heard_of_as_far_as_seen(to: Audience, all: &Vec<Bystander>, r: Vec<usize>, i: int)
    requires
        call_ensures(hearers, (to, all), r),
        0 <= i < all@.len(),
        all@[i].dist_sq <= 0x7f80_0000,
        forall|j: int, k: int| 0 <= j < k < all@.len() ==> (#[trigger] all@[j]).key != (#[trigger] all@[k]).key,
        to is Near,
    ensures
        r@.contains(all@[i].key) <==> all@[i].map == to->Near_map && all@[i].dist_sq <= aoi::AOI_RADIUS_SQ,
{
    lemma_told(to, all@, aoi::AOI_RADIUS_SQ, all@[i].key);
}

} // verus!

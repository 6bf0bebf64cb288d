//! The slabs that hold the clients and the creatures of a map, and the workers of a
//! load test.
//!
//! A slab hands out the key of what it takes in. What a slab holds and the key
//! it hands out next are given names here, and each operation that the
//! simulation calls is stated over those names.
use crate::client::Client;
use crate::creature::Creature;
use crate::loadtest::orchestrator::Worker;
use slab::Slab;
use vstd::prelude::*;

verus! {

/// `slab::Slab`.
#[verifier::external_type_specification]
#[verifier::external_body]
#[verifier::reject_recursive_types(T)]
pub struct ExSlab<T>(Slab<T>);

/// The keys of `entries` in ascending order.
pub open spec fn in_order(keys: Seq<usize>, entries: Set<usize>) -> bool {
    &&& forall|i: int, j: int| 0 <= i < j < keys.len() ==> keys[i] < keys[j]
    &&& forall|k: usize| #[trigger] keys.contains(k) <==> entries.contains(k)
}

/// The keys of `entries` in ascending order.
pub open spec fn ordered(entries: Set<usize>) -> Seq<usize> {
    choose|s: Seq<usize>| in_order(s, entries)
}

/// There is only one ascending order of the keys.
pub proof fn the_order_is_unique(a: Seq<usize>, b: Seq<usize>, entries: Set<usize>)
    requires
        in_order(a, entries),
        in_order(b, entries),
    ensures
        a == b,
    decreases a.len(),
{
    if a.len() == 0 {
        if b.len() > 0 {
            assert(b.contains(b[0]));
            assert(a.contains(b[0]));
        }
        assert(a =~= b);
    } else {
        assert(a.contains(a[0]));
        assert(b.contains(a[0]));
        let j = choose|j: int| 0 <= j < b.len() && b[j] == a[0];
        assert(b.contains(b[0]));
        assert(a.contains(b[0]));
        let i = choose|i: int| 0 <= i < a.len() && a[i] == b[0];
        assert(a[0] == b[0]);
        let first = a[0];
        let rest = entries.remove(first);
        assert(in_order(a.skip(1), rest)) by {
            lemma_rest_in_order(a, entries);
        }
        assert(in_order(b.skip(1), rest)) by {
            lemma_rest_in_order(b, entries);
        }
        the_order_is_unique(a.skip(1), b.skip(1), rest);
        assert(a =~= seq![first] + a.skip(1));
        assert(b =~= seq![first] + b.skip(1));
    }
}

proof fn lemma_rest_in_order(a: Seq<usize>, entries: Set<usize>)
    requires
        in_order(a, entries),
        a.len() > 0,
    ensures
        in_order(a.skip(1), entries.remove(a[0])),
{
    let r = a.skip(1);
    assert forall|k: usize| #[trigger] r.contains(k) <==> entries.remove(a[0]).contains(k) by {
        if r.contains(k) {
            let i = choose|i: int| 0 <= i < r.len() && r[i] == k;
            assert(a[i + 1] == k);
            assert(a.contains(k));
        }
        if entries.remove(a[0]).contains(k) {
            assert(a.contains(k));
            let i = choose|i: int| 0 <= i < a.len() && a[i] == k;
            assert(r[i - 1] == k);
        }
    }
}

/// An ascending list of the keys is the one that [`ordered`] gives.
pub proof fn ordered_is(s: Seq<usize>, entries: Set<usize>)
    requires
        in_order(s, entries),
    ensures
        s == ordered(entries),
{
    the_order_is_unique(s, ordered(entries), entries);
}

/// The clients that a slab holds, by key.
pub uninterp spec fn clients(s: Slab<Client>) -> Map<usize, Client>;

/// The key that a slab hands out next.
pub uninterp spec fn next_client(s: Slab<Client>) -> usize;

/// `Slab::new`: the slab holds nothing.
#[verifier::external_body]
pub(crate) fn clients_new() -> (s: Slab<Client>)
    ensures
        (clients(s) == Map::<usize, Client>::empty()),
{
    Slab::new()
}

/// `Slab::insert`: the client is held under the key that was next, which was
/// vacant; other keys are untouched.
#[verifier::external_body]
pub(crate) fn clients_insert(s: &mut Slab<Client>, c: Client) -> (key: usize)
    ensures
        key == next_client(*old(s)),
        (!clients(*old(s)).contains_key(key)),
        clients(*final(s)) == clients(*old(s)).insert(key, c),
{
    s.insert(c)
}

/// `Slab::try_remove`: the client under `key` is handed out, if there is one;
/// its key is the next that is handed out, and other keys are untouched.
#[verifier::external_body]
pub(crate) fn clients_remove(s: &mut Slab<Client>, key: usize) -> (r: Option<Client>)
    ensures
        r == (if clients(*old(s)).contains_key(key) { Some(clients(*old(s))[key]) } else { None }),
        clients(*final(s)) == clients(*old(s)).remove(key),
        next_client(*final(s)) == (if clients(*old(s)).contains_key(key) { key } else { next_client(*old(s)) }),
{
    s.try_remove(key)
}

/// `Slab::get`: the client under `key`, if there is one.
#[verifier::external_body]
pub(crate) fn clients_get(s: &Slab<Client>, key: usize) -> (r: Option<&Client>)
    ensures
        r == (if clients(*s).contains_key(key) { Some(&clients(*s)[key]) } else { None }),
{
    s.get(key)
}

/// `Slab::get_mut`: the client under `key`, if there is one, to be changed in
/// place; other keys are untouched, and so is the key that is handed out next.
#[verifier::external_body]
pub(crate) fn clients_get_mut(s: &mut Slab<Client>, key: usize) -> (r: Option<&mut Client>)
    ensures
        next_client(*final(s)) == next_client(*old(s)),
        (match r {
            Some(c) => clients(*old(s)).contains_key(key) && *c == clients(*old(s))[key] && clients(*final(s))
                == clients(*old(s)).insert(key, *final(c)),
            None => !clients(*old(s)).contains_key(key) && clients(*final(s)) == clients(*old(s)),
        }),
{
    s.get_mut(key)
}

/// `Slab::len`: the number of clients.
#[verifier::external_body]
pub(crate) fn clients_len(s: &Slab<Client>) -> (r: usize)
    ensures
        r as nat == clients(*s).dom().len(),
{
    s.len()
}

/// `Slab::iter`: the keys come in ascending order.
#[verifier::external_body]
pub(crate) fn clients_keys(s: &Slab<Client>) -> (r: Vec<usize>)
    ensures
        in_order(r@, clients(*s).dom()),
{
    s.iter().map(|(k, _)| k).collect()
}

/// The creatures that a slab holds, by key.
pub uninterp spec fn creatures(s: Slab<Creature>) -> Map<usize, Creature>;

/// The key that a slab hands out next.
pub uninterp spec fn next_creature(s: Slab<Creature>) -> usize;

/// `Slab::new`: the slab holds nothing.
#[verifier::external_body]
pub(crate) fn creatures_new() -> (s: Slab<Creature>)
    ensures
        (creatures(s) == Map::<usize, Creature>::empty()),
{
    Slab::new()
}

/// `Slab::insert`: the creature is held under the key that was next, which was
/// vacant; other keys are untouched.
#[verifier::external_body]
pub(crate) fn creatures_insert(s: &mut Slab<Creature>, c: Creature) -> (key: usize)
    ensures
        key == next_creature(*old(s)),
        (!creatures(*old(s)).contains_key(key)),
        creatures(*final(s)) == creatures(*old(s)).insert(key, c),
{
    s.insert(c)
}

/// `Slab::get`: the creature under `key`, if there is one.
#[verifier::external_body]
pub(crate) fn creatures_get(s: &Slab<Creature>, key: usize) -> (r: Option<&Creature>)
    ensures
        r == (if creatures(*s).contains_key(key) { Some(&creatures(*s)[key]) } else { None }),
{
    s.get(key)
}

/// `Slab::get_mut`: the creature under `key`, if there is one, to be changed in
/// place; other keys are untouched, and so is the key that is handed out next.
#[verifier::external_body]
pub(crate) fn creatures_get_mut(s: &mut Slab<Creature>, key: usize) -> (r: Option<&mut Creature>)
    ensures
        next_creature(*final(s)) == next_creature(*old(s)),
        (match r {
            Some(c) => creatures(*old(s)).contains_key(key) && *c == creatures(*old(s))[key] && creatures(*final(s))
                == creatures(*old(s)).insert(key, *final(c)),
            None => !creatures(*old(s)).contains_key(key) && creatures(*final(s)) == creatures(*old(s)),
        }),
{
    s.get_mut(key)
}

/// `Slab::len`: the number of creatures.
#[verifier::external_body]
pub(crate) fn creatures_len(s: &Slab<Creature>) -> (r: usize)
    ensures
        r as nat == creatures(*s).dom().len(),
{
    s.len()
}

/// `Slab::iter`: the keys come in ascending order.
#[verifier::external_body]
pub(crate) fn creatures_keys(s: &Slab<Creature>) -> (r: Vec<usize>)
    ensures
        in_order(r@, creatures(*s).dom()),
{
    s.iter().map(|(k, _)| k).collect()
}

/// The workers that a slab holds, by key.
pub uninterp spec fn workers(s: Slab<Worker>) -> Map<usize, Worker>;

/// The key that a slab hands out next.
pub uninterp spec fn next_worker(s: Slab<Worker>) -> usize;

/// `Slab::new`: the slab holds nothing, and hands out 0 first.
#[verifier::external_body]
pub(crate) fn workers_new() -> (s: Slab<Worker>)
    ensures
        (workers(s) == Map::<usize, Worker>::empty()),
        next_worker(s) == 0,
{
    Slab::new()
}

/// `Slab::insert`: the worker is held under the key that was next, which was
/// vacant; other keys are untouched.
#[verifier::external_body]
pub(crate) fn workers_insert(s: &mut Slab<Worker>, w: Worker) -> (key: usize)
    ensures
        key == next_worker(*old(s)),
        (!workers(*old(s)).contains_key(key)),
        workers(*final(s)) == workers(*old(s)).insert(key, w),
{
    s.insert(w)
}

/// `Slab::try_remove`: the worker under `key` is handed out, if there is one; its
/// key is the next that is handed out, and other keys are untouched.
#[verifier::external_body]
pub(crate) fn workers_remove(s: &mut Slab<Worker>, key: usize) -> (r: Option<Worker>)
    ensures
        r == (if workers(*old(s)).contains_key(key) { Some(workers(*old(s))[key]) } else { None }),
        workers(*final(s)) == workers(*old(s)).remove(key),
        next_worker(*final(s)) == (if workers(*old(s)).contains_key(key) { key } else { next_worker(*old(s)) }),
{
    s.try_remove(key)
}

/// `Slab::get`: the worker under `key`, if there is one.
#[verifier::external_body]
pub(crate) fn workers_get(s: &Slab<Worker>, key: usize) -> (r: Option<&Worker>)
    ensures
        r == (if workers(*s).contains_key(key) { Some(&workers(*s)[key]) } else { None }),
{
    s.get(key)
}

/// `Slab::get_mut`: the worker under `key`, if there is one, to be changed in
/// place; other keys are untouched, and so is the key that is handed out next.
#[verifier::external_body]
pub(crate) fn workers_get_mut(s: &mut Slab<Worker>, key: usize) -> (r: Option<&mut Worker>)
    ensures
        next_worker(*final(s)) == next_worker(*old(s)),
        (match r {
            Some(w) => workers(*old(s)).contains_key(key) && *w == workers(*old(s))[key] && workers(*final(s))
                == workers(*old(s)).insert(key, *final(w)),
            None => !workers(*old(s)).contains_key(key) && workers(*final(s)) == workers(*old(s)),
        }),
{
    s.get_mut(key)
}

/// `Slab::iter`: the keys come in ascending order.
#[verifier::external_body]
pub(crate) fn workers_keys(s: &Slab<Worker>) -> (r: Vec<usize>)
    ensures
        in_order(r@, workers(*s).dom()),
{
    s.iter().map(|(k, _)| k).collect()
}

proof fn lemma_room_for_one_more(s: Seq<usize>, entries: Set<usize>, a: usize)
    requires
        in_order(s, entries),
        !entries.contains(a),
    ensures
        exists|t: Seq<usize>| in_order(t, entries.insert(a)),
    decreases s.len(),
{
    let more = entries.insert(a);
    if s.len() == 0 || s.last() < a {
        let t = s.push(a);
        assert forall|k: usize| #[trigger] t.contains(k) <==> more.contains(k) by {
            crate::aoi::lemma_push_contains(s, a, k);
            assert(s.contains(k) <==> entries.contains(k));
        }
        assert(in_order(t, more));
    } else {
        let z = s.last();
        let front = s.drop_last();
        let rest = entries.remove(z);
        assert(s =~= front.push(z));
        assert(s.contains(z)) by {
            assert(s[s.len() - 1] == z);
        }
        assert forall|k: usize| #[trigger] front.contains(k) <==> rest.contains(k) by {
            crate::aoi::lemma_push_contains(front, z, k);
            assert(s.contains(k) <==> entries.contains(k));
            if front.contains(z) {
                let i = choose|i: int| 0 <= i < front.len() && front[i] == z;
                assert(s[i] < s[s.len() - 1]);
            }
        }
        lemma_room_for_one_more(front, rest, a);
        let t = choose|t: Seq<usize>| in_order(t, rest.insert(a));
        let u = t.push(z);
        assert forall|k: usize| #[trigger] t.contains(k) implies k < z by {
            assert(rest.insert(a).contains(k));
            if k != a {
                assert(front.contains(k));
                let i = choose|i: int| 0 <= i < front.len() && front[i] == k;
                assert(s[i] < s[s.len() - 1]);
            } else {
                assert(entries.contains(z));
            }
        }
        assert forall|i: int, j: int| 0 <= i < j < u.len() implies u[i] < u[j] by {
            if j == t.len() {
                assert(t.contains(t[i]));
            }
        }
        assert forall|k: usize| #[trigger] u.contains(k) <==> more.contains(k) by {
            crate::aoi::lemma_push_contains(t, z, k);
            assert(t.contains(k) <==> rest.insert(a).contains(k));
        }
        assert(in_order(u, more));
    }
}

proof fn lemma_an_order(entries: Set<usize>)
    requires
        entries.finite(),
    ensures
        exists|s: Seq<usize>| in_order(s, entries),
    decreases entries.len(),
{
    if entries.len() == 0 {
        let s = Seq::<usize>::empty();
        assert(entries =~= Set::<usize>::empty());
        assert(in_order(s, entries));
    } else {
        let a = entries.choose();
        lemma_an_order(entries.remove(a));
        let s = choose|s: Seq<usize>| in_order(s, entries.remove(a));
        lemma_room_for_one_more(s, entries.remove(a), a);
        assert(entries.remove(a).insert(a) =~= entries);
    }
}

/// Finitely many keys have an ascending order, which [`ordered`] gives.
pub proof fn the_finite_have_an_order(entries: Set<usize>)
    requires
        entries.finite(),
    ensures
        in_order(ordered(entries), entries),
{
    lemma_an_order(entries);
}

} // verus!

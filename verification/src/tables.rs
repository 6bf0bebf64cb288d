//! The hash tables of the simulation.
//!
//! Every table of the simulation is one of `ahash`, keyed by an integer or by a
//! string. What a table holds is given a name here, and each operation of the
//! table that the simulation calls is stated over that name.
use ahash::{AHashMap, AHashSet};
use vstd::prelude::*;

verus! {

/// An occupant of a spatial cell, by the slab key it has on its map.
#[derive(Debug, Clone, Copy, PartialEq, Eq, Structural)]
pub enum Occupant {
    Client(usize),
    Creature(usize),
}

/// `ahash::RandomState`, the hasher that the tables are built with.
#[verifier::external_type_specification]
#[verifier::external_body]
pub struct ExRandomState(ahash::RandomState);

/// `ahash::AHashMap`.
#[verifier::external_type_specification]
#[verifier::external_body]
#[verifier::reject_recursive_types(K)]
#[verifier::reject_recursive_types(V)]
#[verifier::reject_recursive_types(S)]
pub struct ExAHashMap<K, V, S>(AHashMap<K, V, S>);

/// `ahash::AHashSet`.
#[verifier::external_type_specification]
#[verifier::external_body]
#[verifier::reject_recursive_types(T)]
#[verifier::reject_recursive_types(S)]
pub struct ExAHashSet<T, S>(AHashSet<T, S>);

/// The elements of `s`, without their order.
pub open spec fn lists(s: Seq<u64>, elements: Set<u64>) -> bool {
    &&& s.no_duplicates()
    &&& forall|x: u64| #[trigger] s.contains(x) <==> elements.contains(x)
}

// ---------------------------------------------------------------------------
// Integers to integers.
// ---------------------------------------------------------------------------
/// What a table from integers to integers holds.
pub uninterp spec fn numbers(m: AHashMap<u64, u64>) -> Map<u64, u64>;

/// `AHashMap::new`: the table holds nothing.
#[verifier::external_body]
pub(crate) fn numbers_new() -> (m: AHashMap<u64, u64>)
    ensures
        (numbers(m) == Map::<u64, u64>::empty()),
{
    AHashMap::new()
}

/// `AHashMap::get`: the value under `k`, if there is one.
#[verifier::external_body]
pub(crate) fn numbers_get(m: &AHashMap<u64, u64>, k: u64) -> (r: Option<u64>)
    ensures
        r == (if numbers(*m).contains_key(k) { Some(numbers(*m)[k]) } else { None }),
{
    m.get(&k).copied()
}

/// `AHashMap::insert`: `k` maps to `v` afterwards; other keys are untouched.
#[verifier::external_body]
pub(crate) fn numbers_insert(m: &mut AHashMap<u64, u64>, k: u64, v: u64)
    ensures
        numbers(*final(m)) == numbers(*old(m)).insert(k, v),
{
    m.insert(k, v);
}

/// `AHashMap::remove`: nothing is under `k` afterwards; what was there is
/// returned, and other keys are untouched.
#[verifier::external_body]
pub(crate) fn numbers_remove(m: &mut AHashMap<u64, u64>, k: u64) -> (r: Option<u64>)
    ensures
        numbers(*final(m)) == numbers(*old(m)).remove(k),
        r == (if numbers(*old(m)).contains_key(k) { Some(numbers(*old(m))[k]) } else { None }),
{
    m.remove(&k)
}

/// `HashMap::len`, which the table derefs to: the number of keys.
#[verifier::external_body]
pub(crate) fn numbers_len(m: &AHashMap<u64, u64>) -> (r: usize)
    ensures
        r as nat == numbers(*m).dom().len(),
{
    m.len()
}

/// `HashMap::keys`, which the table derefs to: each key once, in no
/// particular order.
#[verifier::external_body]
pub(crate) fn numbers_keys(m: &AHashMap<u64, u64>) -> (r: Vec<u64>)
    ensures
        lists(r@, numbers(*m).dom()),
{
    m.keys().copied().collect()
}

// ---------------------------------------------------------------------------
// Integers to buckets of occupants.
// ---------------------------------------------------------------------------
/// What a table of buckets holds.
pub uninterp spec fn buckets(m: AHashMap<u64, Vec<Occupant>>) -> Map<u64, Seq<Occupant>>;

/// `AHashMap::new`: the table holds nothing.
#[verifier::external_body]
pub(crate) fn buckets_new() -> (m: AHashMap<u64, Vec<Occupant>>)
    ensures
        (buckets(m) == Map::<u64, Seq<Occupant>>::empty()),
{
    AHashMap::new()
}

/// `AHashMap::get`: the bucket under `k`, if there is one.
#[verifier::external_body]
pub(crate) fn buckets_get(m: &AHashMap<u64, Vec<Occupant>>, k: u64) -> (r: Option<&Vec<Occupant>>)
    ensures
        (match r {
            Some(v) => buckets(*m).contains_key(k) && v@ == buckets(*m)[k],
            None => !buckets(*m).contains_key(k),
        }),
{
    m.get(&k)
}

/// `AHashMap::insert`: `k` maps to `v` afterwards; other keys are untouched.
#[verifier::external_body]
pub(crate) fn buckets_insert(m: &mut AHashMap<u64, Vec<Occupant>>, k: u64, v: Vec<Occupant>)
    ensures
        buckets(*final(m)) == buckets(*old(m)).insert(k, v@),
{
    m.insert(k, v);
}

/// `AHashMap::remove`: nothing is under `k` afterwards; the bucket that was
/// there is returned, and other keys are untouched.
#[verifier::external_body]
pub(crate) fn buckets_remove(m: &mut AHashMap<u64, Vec<Occupant>>, k: u64) -> (r: Option<Vec<Occupant>>)
    ensures
        buckets(*final(m)) == buckets(*old(m)).remove(k),
        (match r {
            Some(v) => buckets(*old(m)).contains_key(k) && v@ == buckets(*old(m))[k],
            None => !buckets(*old(m)).contains_key(k),
        }),
{
    m.remove(&k)
}

/// `HashMap::len`, which the table derefs to: the number of buckets.
#[verifier::external_body]
pub(crate) fn buckets_len(m: &AHashMap<u64, Vec<Occupant>>) -> (r: usize)
    ensures
        r as nat == buckets(*m).dom().len(),
{
    m.len()
}

/// `HashMap::keys`, which the table derefs to: each key once, in no
/// particular order.
#[verifier::external_body]
pub(crate) fn buckets_keys(m: &AHashMap<u64, Vec<Occupant>>) -> (r: Vec<u64>)
    ensures
        lists(r@, buckets(*m).dom()),
{
    m.keys().copied().collect()
}

// ---------------------------------------------------------------------------
// Strings to integers.
// ---------------------------------------------------------------------------
/// What a table from strings to integers holds.
pub uninterp spec fn names(m: AHashMap<String, u64>) -> Map<Seq<char>, u64>;

/// `AHashMap::new`: the table holds nothing.
#[verifier::external_body]
pub(crate) fn names_new() -> (m: AHashMap<String, u64>)
    ensures
        (names(m) == Map::<Seq<char>, u64>::empty()),
{
    AHashMap::new()
}

/// `AHashMap::get`: the value under `k`, if there is one.
#[verifier::external_body]
pub(crate) fn names_get(m: &AHashMap<String, u64>, k: &str) -> (r: Option<u64>)
    ensures
        r == (if names(*m).contains_key(k@) { Some(names(*m)[k@]) } else { None }),
{
    m.get(k).copied()
}

/// `AHashMap::insert`: `k` maps to `v` afterwards; other keys are untouched.
#[verifier::external_body]
pub(crate) fn names_insert(m: &mut AHashMap<String, u64>, k: String, v: u64)
    ensures
        names(*final(m)) == names(*old(m)).insert(k@, v),
{
    m.insert(k, v);
}

/// `AHashMap::remove`: nothing is under `k` afterwards; what was there is
/// returned, and other keys are untouched.
#[verifier::external_body]
pub(crate) fn names_remove(m: &mut AHashMap<String, u64>, k: &str) -> (r: Option<u64>)
    ensures
        names(*final(m)) == names(*old(m)).remove(k@),
        r == (if names(*old(m)).contains_key(k@) { Some(names(*old(m))[k@]) } else { None }),
{
    m.remove(k)
}

// ---------------------------------------------------------------------------
// Sets of integers.
// ---------------------------------------------------------------------------
/// What a set of integers holds.
pub uninterp spec fn members(s: AHashSet<u64>) -> Set<u64>;

/// `AHashSet::new`: the set is empty.
#[verifier::external_body]
pub(crate) fn members_new() -> (s: AHashSet<u64>)
    ensures
        members(s) == Set::<u64>::empty(),
{
    AHashSet::new()
}

/// `HashSet::contains`, which the set derefs to: whether `x` is in the set.
#[verifier::external_body]
pub(crate) fn members_contains(s: &AHashSet<u64>, x: u64) -> (r: bool)
    ensures
        r == members(*s).contains(x),
{
    s.contains(&x)
}

/// `HashSet::insert`, which the set derefs to: `x` is in the set afterwards,
/// beside what was there.
#[verifier::external_body]
pub(crate) fn members_insert(s: &mut AHashSet<u64>, x: u64)
    ensures
        members(*final(s)) == members(*old(s)).insert(x),
{
    s.insert(x);
}

/// `HashSet::remove`, which the set derefs to: `x` is not in the set
/// afterwards; the rest stays.
#[verifier::external_body]
pub(crate) fn members_remove(s: &mut AHashSet<u64>, x: u64)
    ensures
        members(*final(s)) == members(*old(s)).remove(x),
{
    s.remove(&x);
}

/// `HashSet::len`, which the set derefs to: the number of elements.
#[verifier::external_body]
pub(crate) fn members_len(s: &AHashSet<u64>) -> (r: usize)
    ensures
        r as nat == members(*s).len(),
{
    s.len()
}

/// `HashSet::iter`, which the set derefs to: each element once, in no
/// particular order.
#[verifier::external_body]
pub(crate) fn members_items(s: &AHashSet<u64>) -> (r: Vec<u64>)
    ensures
        lists(r@, members(*s)),
{
    s.iter().copied().collect()
}

} // verus!

//! Who is to be woken when.
use std::collections::BTreeMap;
use vstd::prelude::*;
use vstd::std_specs::cmp::OrdSpec;
use vstd::std_specs::iter::IteratorSpec;

verus! {

broadcast use {vstd::std_specs::btree::group_btree_axioms, vstd::laws_cmp::group_laws_cmp};

/// The sleepers of every time at which somebody is to be woken, in the order in which
/// they fell asleep.
pub type Sleepers = Map<u64, Seq<usize>>;

/// The creatures that sleep, by the time at which they are to be woken.
pub struct WakeSchedule {
    at: BTreeMap<u64, Vec<usize>>,
}

/// A table of lists, as lists of the mathematical kind.
pub open spec fn lists_of(m: Map<u64, Vec<usize>>) -> Sleepers {
    m.map_values(|v: Vec<usize>| v@)
}

impl View for WakeSchedule {
    type V = Sleepers;

    closed spec fn view(&self) -> Sleepers {
        lists_of(self.at@)
    }
}

/// Who is to be woken at `t`.
pub open spec fn sleeping_until(s: Sleepers, t: u64) -> Seq<usize> {
    if s.contains_key(t) {
        s[t]
    } else {
        Seq::empty()
    }
}

/// Whether `key` sleeps.
pub open spec fn sleeps(s: Sleepers, key: usize) -> bool {
    exists|t: u64| s.contains_key(t) && #[trigger] s[t].contains(key)
}

/// The schedule after `key` was put to sleep until `when`.
pub open spec fn parked(s: Sleepers, when: u64, key: usize) -> Sleepers {
    s.insert(when, sleeping_until(s, when).push(key))
}

/// Those of `v` that are not `key`.
pub open spec fn others_of(v: Seq<usize>, key: usize) -> Seq<usize> {
    v.filter(|k: usize| k != key)
}

/// The schedule without `key`.
pub open spec fn forgotten(s: Sleepers, key: usize) -> Sleepers {
    s.map_values(|v: Seq<usize>| others_of(v, key))
}

/// The sleepers of the times up to `now`: earlier times first, and those of one time
/// in the order in which they fell asleep.
pub open spec fn due_by(s: Sleepers, now: int) -> Seq<usize>
    decreases now + 1,
{
    if now < 0 {
        Seq::empty()
    } else {
        due_by(s, now - 1) + if now <= u64::MAX {
            sleeping_until(s, now as u64)
        } else {
            Seq::empty()
        }
    }
}

/// The sleepers whose time has come.
pub open spec fn due(s: Sleepers, now: u64) -> Seq<usize> {
    due_by(s, now as int)
}

/// The schedule without the sleepers whose time has come.
pub open spec fn not_due(s: Sleepers, now: u64) -> Sleepers {
    s.restrict(Set::new(|t: u64| t > now))
}

/// Whether nobody is to be woken twice.
pub open spec fn each_once(s: Sleepers) -> bool {
    &&& forall|t: u64| #[trigger] s.contains_key(t) ==> s[t].no_duplicates()
    &&& forall|t: u64, u: u64, k: usize|
        s.contains_key(t) && s.contains_key(u) && #[trigger] s[t].contains(k) && #[trigger] s[u].contains(k) ==> t == u
}

/// Who is put to sleep sleeps, beside those who did; nobody is to be woken twice if they
/// were not asleep before.
pub proof fn parking_keeps_each_once(s: Sleepers, when: u64, key: usize)
    requires
        each_once(s),
        !sleeps(s, key),
    ensures
        each_once(parked(s, when, key)),
        forall|k: usize| #[trigger] sleeps(parked(s, when, key), k) <==> sleeps(s, k) || k == key,
{
    let p = parked(s, when, key);
    let had = sleeping_until(s, when);
    assert(!had.contains(key));
    crate::aoi::lemma_push_unique(had, key);
    assert forall|t: u64, k: usize| #![trigger p[t].contains(k)] p.contains_key(t) implies (p[t].contains(k) <==> (
    s.contains_key(t) && s[t].contains(k)) || (t == when && k == key)) by {
        crate::aoi::lemma_push_contains(had, key, k);
    }
    assert forall|k: usize| #[trigger] sleeps(p, k) <==> sleeps(s, k) || k == key by {
        if sleeps(s, k) {
            let t = choose|t: u64| s.contains_key(t) && #[trigger] s[t].contains(k);
            assert(p[t].contains(k));
        }
        if k == key {
            assert(p[when].contains(k));
        }
    }
    assert forall|t: u64, u: u64, k: usize|
        p.contains_key(t) && p.contains_key(u) && #[trigger] p[t].contains(k) && #[trigger] p[u].contains(
            k,
        ) implies t == u by {
        if k != key {
            assert(s[t].contains(k) && s[u].contains(k));
        }
    }
}

/// Who is woken is woken once, had to be woken by then, and sleeps no more.
pub proof fn waking_takes_each_once(s: Sleepers, now: u64)
    requires
        each_once(s),
    ensures
        due(s, now).no_duplicates(),
        each_once(not_due(s, now)),
        forall|k: usize| #[trigger] due(s, now).contains(k) ==> sleeps(s, k) && !sleeps(not_due(s, now), k),
        forall|k: usize| #[trigger] sleeps(not_due(s, now), k) ==> sleeps(s, k),
{
    let rest = not_due(s, now);
    lemma_due_by(s, now as int);
    assert forall|k: usize| #[trigger] sleeps(rest, k) implies sleeps(s, k) by {
        let t = choose|t: u64| rest.contains_key(t) && #[trigger] rest[t].contains(k);
        assert(s[t].contains(k));
    }
    assert forall|k: usize| #[trigger] due(s, now).contains(k) implies sleeps(s, k) && !sleeps(rest, k) by {
        lemma_due_in(s, now as int, k);
        let t = choose|t: u64| t <= now && s.contains_key(t) && #[trigger] s[t].contains(k);
        if sleeps(rest, k) {
            let u = choose|u: u64| rest.contains_key(u) && #[trigger] rest[u].contains(k);
            assert(s[u].contains(k));
        }
    }
    assert forall|t: u64, u: u64, k: usize|
        rest.contains_key(t) && rest.contains_key(u) && #[trigger] rest[t].contains(k) && #[trigger] rest[u].contains(
            k,
        ) implies t == u by {
        assert(s[t].contains(k) && s[u].contains(k));
    }
    assert forall|t: u64| #[trigger] rest.contains_key(t) implies rest[t].no_duplicates() by {
        assert(s.contains_key(t));
    }
}

proof fn lemma_due_by(s: Sleepers, now: int)
    requires
        each_once(s),
        now <= u64::MAX,
    ensures
        due_by(s, now).no_duplicates(),
    decreases now + 1,
{
    if now >= 0 {
        lemma_due_by(s, now - 1);
        let a = due_by(s, now - 1);
        let b = sleeping_until(s, now as u64);
        let d = due_by(s, now);
        assert forall|i: int, j: int| 0 <= i < d.len() && 0 <= j < d.len() && i != j implies d[i] != d[j] by {
            if i < a.len() && j >= a.len() {
                lemma_apart(s, now, i, j - a.len());
            } else if j < a.len() && i >= a.len() {
                lemma_apart(s, now, j, i - a.len());
            } else if i >= a.len() {
                assert(b[i - a.len()] != b[j - a.len()]);
            } else {
                assert(a[i] != a[j]);
            }
        }
    }
}

proof fn lemma_apart(s: Sleepers, now: int, i: int, j: int)
    requires
        each_once(s),
        0 <= now <= u64::MAX,
        0 <= i < due_by(s, now - 1).len(),
        0 <= j < sleeping_until(s, now as u64).len(),
    ensures
        due_by(s, now - 1)[i] != sleeping_until(s, now as u64)[j],
{
    let a = due_by(s, now - 1);
    let k = a[i];
    assert(a.contains(k));
    lemma_due_in(s, now - 1, k);
    let t = choose|t: u64| t <= now - 1 && s.contains_key(t) && #[trigger] s[t].contains(k);
    if sleeping_until(s, now as u64)[j] == k {
        assert(s[now as u64].contains(k));
    }
}

proof fn lemma_due_in(s: Sleepers, now: int, k: usize)
    requires
        now <= u64::MAX,
        due_by(s, now).contains(k),
    ensures
        exists|t: u64| t <= now && s.contains_key(t) && #[trigger] s[t].contains(k),
    decreases now + 1,
{
    if now >= 0 {
        let a = due_by(s, now - 1);
        let b = sleeping_until(s, now as u64);
        let i = choose|i: int| 0 <= i < due_by(s, now).len() && due_by(s, now)[i] == k;
        if i < a.len() {
            assert(a[i] == k);
            lemma_due_in(s, now - 1, k);
            let t = choose|t: u64| t <= now - 1 && s.contains_key(t) && #[trigger] s[t].contains(k);
            assert(t <= now && s[t].contains(k));
        } else {
            assert(b[i - a.len()] == k);
            assert(s[now as u64].contains(k));
        }
    }
}

/// Nobody is to be woken twice once somebody was forgotten.
pub proof fn forgetting_keeps_each_once(s: Sleepers, key: usize)
    requires
        each_once(s),
    ensures
        each_once(forgotten(s, key)),
{
    let f = forgotten(s, key);
    assert forall|t: u64| #[trigger] f.contains_key(t) implies f[t].no_duplicates() by {
        assert(s.contains_key(t));
        lemma_others_once(s[t], key);
    }
    assert forall|t: u64, u: u64, k: usize|
        f.contains_key(t) && f.contains_key(u) && #[trigger] f[t].contains(k) && #[trigger] f[u].contains(
            k,
        ) implies t == u by {
        lemma_others(s[t], key, k);
        lemma_others(s[u], key, k);
        assert(s[t].contains(k) && s[u].contains(k));
    }
}

proof fn lemma_others_once(v: Seq<usize>, key: usize)
    requires
        v.no_duplicates(),
    ensures
        others_of(v, key).no_duplicates(),
    decreases v.len(),
{
    reveal(Seq::filter);
    if v.len() > 0 {
        let front = v.drop_last();
        lemma_others_once(front, key);
        if v.last() != key {
            lemma_others(front, key, v.last());
            assert(!front.contains(v.last())) by {
                if front.contains(v.last()) {
                    let i = choose|i: int| 0 <= i < front.len() && front[i] == v.last();
                    assert(v[i] == v[v.len() - 1]);
                }
            }
            crate::aoi::lemma_push_unique(others_of(front, key), v.last());
        }
    }
}

/// Who was forgotten sleeps no more; others sleep on.
pub proof fn the_forgotten_do_not_sleep(s: Sleepers, key: usize, other: usize)
    ensures
        sleeps(forgotten(s, key), other) <==> sleeps(s, other) && other != key,
{
    if sleeps(s, other) && other != key {
        let t = choose|t: u64| s.contains_key(t) && #[trigger] s[t].contains(other);
        lemma_others(s[t], key, other);
        assert(forgotten(s, key)[t].contains(other));
    }
    if sleeps(forgotten(s, key), other) {
        let t = choose|t: u64|
            forgotten(s, key).contains_key(t) && #[trigger] forgotten(s, key)[t].contains(other);
        lemma_others(s[t], key, other);
        assert(s[t].contains(other));
    }
}

pub(crate) proof fn lemma_others(v: Seq<usize>, key: usize, x: usize)
    ensures
        others_of(v, key).contains(x) <==> v.contains(x) && x != key,
    decreases v.len(),
{
    reveal(Seq::filter);
    if v.len() > 0 {
        lemma_others(v.drop_last(), key, x);
        assert(v =~= v.drop_last().push(v.last()));
        crate::aoi::lemma_push_contains(v.drop_last(), v.last(), x);
        crate::aoi::lemma_push_contains(others_of(v.drop_last(), key), v.last(), x);
    }
}

/// Between two times nobody is to be woken, if there is no time between.
proof fn lemma_nobody_between(s: Sleepers, a: int, b: int)
    requires
        -1 <= a <= b,
        forall|t: u64| a < t <= b ==> !#[trigger] s.contains_key(t),
    ensures
        due_by(s, b) == due_by(s, a),
    decreases b - a,
{
    if a < b {
        lemma_nobody_between(s, a, b - 1);
        assert(due_by(s, b) =~= due_by(s, b - 1));
    }
}

impl WakeSchedule {
    /// Nobody sleeps.
    pub fn new() -> (r: Self)
        ensures
            r@ == Map::<u64, Seq<usize>>::empty(),
    {
        let r = WakeSchedule { at: BTreeMap::new() };
        assert(r@ =~= Map::<u64, Seq<usize>>::empty());
        r
    }

    /// Put `key` to sleep until `when`.
    pub fn park(&mut self, when: u64, key: usize)
        ensures
            final(self)@ == parked(old(self)@, when, key),
    {
        let ghost was = self@;
        let mut keys: Vec<usize> = match self.at.remove(&when) {
            Some(keys) => keys,
            None => Vec::new(),
        };
        assert(keys@ =~= sleeping_until(was, when));
        keys.push(key);
        self.at.insert(when, keys);
        assert(self@ =~= parked(was, when, key));
    }

    /// The times up to `now` at which somebody is to be woken, in their order.
    fn times(&self, now: u64) -> (r: Vec<u64>)
        ensures
            forall|i: int, j: int| 0 <= i < j < r@.len() ==> r@[i] < r@[j],
            forall|t: u64| #[trigger] r@.contains(t) <==> self@.contains_key(t) && t <= now,
    {
        let mut r: Vec<u64> = Vec::new();
        assert(vstd::laws_cmp::obeys_cmp::<u64>());
        let entries = self.at.iter();
        let ghost whole = entries.remaining();
        let ghost times = whole.map_values(|kv: (&u64, &Vec<usize>)| *kv.0);
        proof {
            assert(vstd::std_specs::btree::increasing_seq(times));
            assert forall|i: int, j: int| 0 <= i < j < times.len() implies times[i] < times[j] by {
                assert(times[i].cmp_spec(&times[j]) is Less);
            }
            assert forall|t: u64| #[trigger] self@.contains_key(t) <==> times.contains(t) by {
                if self@.contains_key(t) {
                    assert(self.at@.contains_key(t));
                    let i = choose|i: int| 0 <= i < whole.len() && whole[i] == (&t, &self.at@[t]);
                    assert(times[i] == t);
                }
                if times.contains(t) {
                    let i = choose|i: int| 0 <= i < times.len() && times[i] == t;
                    assert(self.at@.contains_key(*whole[i].0));
                }
            }
        }
        for kv in all: entries
            invariant
                all.seq() == whole,
                times == whole.map_values(|kv: (&u64, &Vec<usize>)| *kv.0),
                forall|i: int, j: int| 0 <= i < j < times.len() ==> times[i] < times[j],
                forall|t: u64| #[trigger] self@.contains_key(t) <==> times.contains(t),
                r@ == times.take(all.index()),
                forall|i: int| 0 <= i < r@.len() ==> #[trigger] r@[i] <= now,
        {
            let t: u64 = *kv.0;
            assert(times[all.index()] == t);
            if t > now {
                proof {
                    assert forall|u: u64| self@.contains_key(u) && u <= now implies #[trigger] r@.contains(u) by {
                        let i = choose|i: int| 0 <= i < times.len() && times[i] == u;
                        assert(i < all.index());
                        assert(r@[i] == u);
                    }
                }
                return r;
            }
            r.push(t);
            assert(r@ =~= times.take(all.index() + 1));
        }
        assert(r@ =~= times);
        r
    }

    /// Take out everybody whose time has come.
    pub fn take_due(&mut self, now: u64) -> (r: Vec<usize>)
        ensures
            r@ == due(old(self)@, now),
            final(self)@ == not_due(old(self)@, now),
    {
        let ghost s = self@;
        let times = self.times(now);
        let ghost mut gone: int = -1;
        let mut r: Vec<usize> = Vec::new();
        let mut i: usize = 0;
        assert(self@ =~= s.restrict(Set::new(|t: u64| t > gone)));
        while i < times.len()
            invariant
                i <= times@.len(),
                gone == (if i == 0 { -1int } else { times@[i - 1] as int }),
                forall|a: int, b: int| 0 <= a < b < times@.len() ==> times@[a] < times@[b],
                forall|t: u64| #[trigger] times@.contains(t) <==> s.contains_key(t) && t <= now,
                r@ == due_by(s, gone),
                self@ == s.restrict(Set::new(|t: u64| t > gone)),
            decreases times.len() - i,
        {
            let t: u64 = times[i];
            assert(times@.contains(t));
            assert(self@.contains_key(t));
            let ghost before = self@;
            if let Some(taken) = self.at.remove(&t) {
                let mut keys: Vec<usize> = taken;
                assert(before[t] == keys@);
                r.append(&mut keys);
            } else {
                assert(false);
            }
            proof {
                assert forall|u: u64| gone < u <= t - 1 implies !#[trigger] s.contains_key(u) by {
                    if s.contains_key(u) {
                        assert(times@.contains(u));
                        let j = choose|j: int| 0 <= j < times@.len() && times@[j] == u;
                        assert(j < i || j == i || j > i);
                        if j < i - 1 {
                            assert(times@[j] < times@[i - 1]);
                        }
                    }
                }
                lemma_nobody_between(s, gone, t - 1);
                assert(self@ =~= before.remove(t));
                assert(self@ =~= s.restrict(Set::new(|u: u64| u > t as int)));
                gone = t as int;
                assert(r@ =~= due_by(s, gone));
            }
            i += 1;
        }
        proof {
            assert forall|u: u64| gone < u <= now implies !#[trigger] s.contains_key(u) by {
                if s.contains_key(u) {
                    assert(times@.contains(u));
                    let j = choose|j: int| 0 <= j < times@.len() && times@[j] == u;
                    if j < times@.len() - 1 {
                        assert(times@[j] < times@[times@.len() - 1]);
                    }
                }
            }
            if i > 0 {
                assert(times@.contains(times@[i - 1]));
            }
            lemma_nobody_between(s, gone, now as int);
            assert(self@ =~= not_due(s, now));
        }
        r
    }

    /// Let `key` not be woken any more.
    pub fn forget(&mut self, key: usize)
        ensures
            final(self)@ == forgotten(old(self)@, key),
    {
        let ghost s = self@;
        let times = self.times(u64::MAX);
        let mut i: usize = 0;
        while i < times.len()
            invariant
                i <= times@.len(),
                forall|a: int, b: int| 0 <= a < b < times@.len() ==> times@[a] < times@[b],
                forall|t: u64| #[trigger] times@.contains(t) <==> s.contains_key(t) && t <= u64::MAX,
                self@.dom() == s.dom(),
                forall|t: u64| #[trigger] s.contains_key(t) ==> self@[t] == (if times@.take(i as int).contains(t) {
                    others_of(s[t], key)
                } else {
                    s[t]
                }),
            decreases times.len() - i,
        {
            let t: u64 = times[i];
            let ghost before = self@;
            proof {
                assert(times@.contains(t));
                assert(!times@.take(i as int).contains(t));
                assert forall|u: u64| times@.take(i + 1).contains(u) <==> times@.take(i as int).contains(u) || u == t by {
                    assert(times@.take(i + 1) =~= times@.take(i as int).push(t));
                    crate::aoi::lemma_push_contains(times@.take(i as int), t, u);
                }
            }
            if let Some(keys) = self.at.remove(&t) {
                assert(keys@ == s[t]);
                self.at.insert(t, others(&keys, key));
            } else {
                assert(false);
            }
            assert(self@ =~= before.insert(t, others_of(s[t], key)));
            assert(self@.dom() =~= s.dom());
            i += 1;
        }
        proof {
            assert(times@.take(i as int) =~= times@);
            assert forall|t: u64| #[trigger] s.contains_key(t) implies self@[t] == others_of(s[t], key) by {
                assert(times@.contains(t));
            }
            assert(self@ =~= forgotten(s, key));
        }
    }
}

/// Those of `keys` that are not `key`.
fn others(keys: &Vec<usize>, key: usize) -> (r: Vec<usize>)
    ensures
        r@ == others_of(keys@, key),
{
    let mut r: Vec<usize> = Vec::new();
    let mut i: usize = 0;
    reveal(Seq::filter);
    while i < keys.len()
        invariant
            i <= keys@.len(),
            r@ == others_of(keys@.take(i as int), key),
        decreases keys.len() - i,
    {
        reveal(Seq::filter);
        assert(keys@.take(i + 1).drop_last() =~= keys@.take(i as int));
        if keys[i] != key {
            r.push(keys[i]);
        }
        i += 1;
    }
    assert(keys@.take(i as int) =~= keys@);
    r
}

pub(crate) proof fn lemma_due_from(s: Sleepers, now: int, k: usize)
    ensures
        due_by(s, now).contains(k) <==> exists|t: u64| s.contains_key(t) && t <= now && #[trigger] s[t].contains(k),
    decreases now + 1,
{
    if now >= 0 {
        lemma_due_from(s, now - 1, k);
        let a = due_by(s, now - 1);
        let b = if now <= u64::MAX {
            sleeping_until(s, now as u64)
        } else {
            Seq::empty()
        };
        if (a + b).contains(k) {
            let i = choose|i: int| 0 <= i < (a + b).len() && (a + b)[i] == k;
            if i < a.len() {
                assert(a[i] == k);
                let t = choose|t: u64| s.contains_key(t) && t <= now - 1 && #[trigger] s[t].contains(k);
                assert(s[t].contains(k));
            } else {
                assert(b[i - a.len()] == k);
                assert(s[now as u64].contains(k));
            }
        }
        if exists|t: u64| s.contains_key(t) && t <= now && #[trigger] s[t].contains(k) {
            let t = choose|t: u64| s.contains_key(t) && t <= now && #[trigger] s[t].contains(k);
            if t == now {
                let i = choose|i: int| 0 <= i < b.len() && b[i] == k;
                assert((a + b)[a.len() + i] == k);
            } else {
                assert(a.contains(k));
                let i = choose|i: int| 0 <= i < a.len() && a[i] == k;
                assert((a + b)[i] == k);
            }
        }
    }
}

/// Whoever was put to sleep is woken as soon as their time has come, and not before, and is
/// then asleep no more; until then they sleep on.
pub proof fn sleepers_are_woken_in_time(
    s: &mut WakeSchedule,
    until: u64,
    key: usize,
    u: (),
    t: &mut WakeSchedule,
    now: u64,
    r: Vec<usize>,
)
    requires
        call_ensures(WakeSchedule::park, (s, until, key), u),
        *old(t) == *final(s),
        call_ensures(WakeSchedule::take_due, (t, now), r),
        !sleeps(old(s)@, key),
    ensures
        until <= now ==> r@.contains(key) && !sleeps(final(t)@, key),
        until > now ==> !r@.contains(key) && final(t)@.contains_key(until) && final(t)@[until].contains(key),
{
    let mid = final(s)@;
    lemma_due_from(mid, now as int, key);
    let l = sleeping_until(old(s)@, until);
    crate::aoi::lemma_push_contains(l, key, key);
    assert(mid[until].contains(key));
    assert forall|v: u64| mid.contains_key(v) && #[trigger] mid[v].contains(key) implies v == until by {
        if v != until {
            assert(old(s)@[v].contains(key));
        }
    }
}

/// Who is woken was to be woken by then, earlier ones first; everybody else sleeps on as
/// before.
pub proof fn only_those_are_woken_whose_time_has_come(
    s: &mut WakeSchedule,
    now: u64,
    r: Vec<usize>,
    k: usize,
    t: u64,
    a: u64,
    b: u64,
)
    requires
        call_ensures(WakeSchedule::take_due, (s, now), r),
    ensures
        r@.contains(k) <==> exists|v: u64|
            old(s)@.contains_key(v) && v <= now && #[trigger] old(s)@[v].contains(k),
        t <= now ==> !final(s)@.contains_key(t),
        t > now ==> (final(s)@.contains_key(t) <==> old(s)@.contains_key(t)) && (old(s)@.contains_key(t) ==> final(s)@[t] == old(s)@[t]),
        old(s)@.dom() =~= set![a, b] && a < b <= now ==> r@ =~= old(s)@[a] + old(s)@[b],
        old(s)@.dom() =~= set![a] && a <= now ==> r@ =~= old(s)@[a],
{
    lemma_due_from(old(s)@, now as int, k);
    if old(s)@.dom() =~= set![a, b] && a < b <= now {
        lemma_no_times(old(s)@, -1, a - 1);
        assert(due_by(old(s)@, a as int) =~= old(s)@[a]);
        lemma_no_times(old(s)@, a as int, b - 1);
        lemma_no_times(old(s)@, b as int, now as int);
    }
    if old(s)@.dom() =~= set![a] && a <= now {
        lemma_no_times(old(s)@, -1, a - 1);
        assert(due_by(old(s)@, a as int) =~= old(s)@[a]);
        lemma_no_times(old(s)@, a as int, now as int);
    }
}

proof fn lemma_no_times(s: Sleepers, from: int, to: int)
    requires
        -1 <= from <= to <= u64::MAX,
        forall|t: u64| from < t <= to ==> !(#[trigger] s.contains_key(t)),
    ensures
        due_by(s, to) == due_by(s, from),
    decreases to - from,
{
    if from < to {
        lemma_no_times(s, from, to - 1);
        assert(!s.contains_key(to as u64));
        assert(due_by(s, to) =~= due_by(s, to - 1));
    }
}

/// Whoever is forgotten is not woken any more, and nobody else is forgotten.
pub proof fn only_one_is_forgotten(s: &mut WakeSchedule, key: usize, u: (), other: usize)
    requires
        call_ensures(WakeSchedule::forget, (s, key), u),
    ensures
        !sleeps(final(s)@, key),
        other != key ==> (sleeps(final(s)@, other) <==> sleeps(old(s)@, other)),
{
    the_forgotten_do_not_sleep(old(s)@, key, other);
    the_forgotten_do_not_sleep(old(s)@, key, key);
}

} // verus!

//! Counting, and ranking by count.
use vstd::prelude::*;

verus! {

/// Something that was counted, by two counts.
#[derive(Debug, Clone, Copy, PartialEq, Eq, Structural)]
pub struct Ranked {
    pub key: u64,
    pub major: usize,
    pub minor: usize,
}

/// How often `k` stands in `s`.
pub open spec fn count(s: Seq<u64>, k: u64) -> nat
    decreases s.len(),
{
    if s.len() == 0 {
        0
    } else {
        count(s.drop_last(), k) + if s.last() == k {
            1nat
        } else {
            0nat
        }
    }
}

/// Whether `a` ranks at least as high as `b`: by the first count, and where that
/// is the same by the second.
pub open spec fn at_least(a: Ranked, b: Ranked) -> bool {
    a.major > b.major || (a.major == b.major && a.minor >= b.minor)
}

/// Whether `r` ranks what stands in `main`, each once, by how often it stands in
/// `main` and then in `side`, highest first.
pub open spec fn ranks(r: Seq<Ranked>, main: Seq<u64>, side: Seq<u64>) -> bool {
    &&& forall|i: int, j: int| 0 <= i < j < r.len() ==> (#[trigger] r[i]).key != (#[trigger] r[j]).key
    &&& forall|i: int, j: int| 0 <= i < j < r.len() ==> at_least(#[trigger] r[i], #[trigger] r[j])
    &&& forall|i: int|
        0 <= i < r.len() ==> main.contains((#[trigger] r[i]).key) && r[i].major == count(main, r[i].key) && r[i].minor
            == count(side, r[i].key)
    &&& forall|k: int| 0 <= k < main.len() ==> lists(r, #[trigger] main[k])
}

/// Whether `k` is ranked in `r`.
pub open spec fn lists(r: Seq<Ranked>, k: u64) -> bool {
    exists|i: int| 0 <= i < r.len() && (#[trigger] r[i]).key == k
}


fn count_of(s: &Vec<u64>, k: u64) -> (r: usize)
    ensures
        r == count(s@, k),
{
    let mut n: usize = 0;
    let mut i: usize = 0;
    assert(s@.take(0) =~= Seq::<u64>::empty());
    while i < s.len()
        invariant
            i <= s@.len(),
            n <= i,
            n == count(s@.take(i as int), k),
        decreases s.len() - i,
    {
        assert(s@.take(i + 1).drop_last() =~= s@.take(i as int));
        assert(s@.take(i + 1).last() == s@[i as int]);
        if s[i] == k {
            n += 1;
        }
        i += 1;
    }
    assert(s@.take(i as int) =~= s@);
    n
}

fn insert_ranked(r: &mut Vec<Ranked>, x: Ranked, main: &Vec<u64>, side: &Vec<u64>, Ghost(done): Ghost<int>)
    requires
        0 <= done < main@.len(),
        main@[done] == x.key,
        x.major == count(main@, x.key),
        x.minor == count(side@, x.key),
        partly(old(r)@, main@, side@, done),
        !lists(old(r)@, x.key),
    ensures
        partly(final(r)@, main@, side@, done + 1),
{
    let ghost was = r@;
    let mut at: usize = 0;
    while at < r.len() && (r[at].major > x.major || (r[at].major == x.major && r[at].minor >= x.minor))
        invariant
            r@ == was,
            at <= r@.len(),
            forall|i: int| 0 <= i < at ==> at_least(#[trigger] r@[i], x),
        decreases r.len() - at,
    {
        at += 1;
    }
    r.insert(at, x);
    proof {
        let now = r@;
        assert forall|i: int| 0 <= i < now.len() implies #[trigger] now[i] == (if i < at {
            was[i]
        } else if i == at {
            x
        } else {
            was[i - 1]
        }) by {}
        assert forall|i: int, j: int| 0 <= i < j < now.len() implies (#[trigger] now[i]).key != (#[trigger] now[j]).key by {
            if i == at {
                assert(was[j - 1].key != x.key);
            } else if j == at {
                assert(was[i].key != x.key);
            }
        }
        assert forall|i: int, j: int| 0 <= i < j < now.len() implies at_least(#[trigger] now[i], #[trigger] now[j]) by {
            if i == at {
                assert(at < was.len());
                if j - 1 > at {
                    assert(at_least(was[at as int], was[j - 1]));
                }
            }
        }
        assert(main@.contains(main@[done]));
        assert forall|k: int| 0 <= k < done + 1 implies lists(now, #[trigger] main@[k]) by {
            if k < done {
                assert(lists(was, main@[k]));
                let i = choose|i: int| 0 <= i < was.len() && (#[trigger] was[i]).key == main@[k];
                if i < at {
                    assert(now[i].key == main@[k]);
                } else {
                    assert(now[i + 1].key == main@[k]);
                }
            } else {
                assert(now[at as int].key == main@[k]);
            }
        }
    }
}

/// As `ranks`, for the first `done` of what is counted.
spec fn partly(r: Seq<Ranked>, main: Seq<u64>, side: Seq<u64>, done: int) -> bool {
    &&& forall|i: int, j: int| 0 <= i < j < r.len() ==> (#[trigger] r[i]).key != (#[trigger] r[j]).key
    &&& forall|i: int, j: int| 0 <= i < j < r.len() ==> at_least(#[trigger] r[i], #[trigger] r[j])
    &&& forall|i: int|
        0 <= i < r.len() ==> main.contains((#[trigger] r[i]).key) && r[i].major == count(main, r[i].key) && r[i].minor
            == count(side, r[i].key)
    &&& forall|k: int| 0 <= k < done ==> lists(r, #[trigger] main[k])
}

fn is_listed(r: &Vec<Ranked>, k: u64) -> (b: bool)
    ensures
        b == lists(r@, k),
{
    let mut i: usize = 0;
    while i < r.len()
        invariant
            i <= r@.len(),
            forall|j: int| 0 <= j < i ==> (#[trigger] r@[j]).key != k,
        decreases r.len() - i,
    {
        if r[i].key == k {
            return true;
        }
        i += 1;
    }
    false
}

/// Rank what stands in `main` by how often it does; where two stand there
/// equally often, by how often they stand in `side`.
pub fn rank(main: &Vec<u64>, side: &Vec<u64>) -> (r: Vec<Ranked>)
    ensures
        ranks(r@, main@, side@),
{
    let mut r: Vec<Ranked> = Vec::new();
    let mut i: usize = 0;
    while i < main.len()
        invariant
            i <= main@.len(),
            partly(r@, main@, side@, i as int),
        decreases main.len() - i,
    {
        let key: u64 = main[i];
        if !is_listed(&r, key) {
            let x = Ranked { key, major: count_of(main, key), minor: count_of(side, key) };
            insert_ranked(&mut r, x, main, side, Ghost(i as int));
        }
        i += 1;
    }
    r
}

/// The first `n` of a ranking, or all if there are fewer.
pub fn top(r: &Vec<Ranked>, n: usize) -> (t: Vec<Ranked>)
    ensures
        t@ == (if r@.len() > n {
            r@.take(n as int)
        } else {
            r@
        }),
{
    let mut t: Vec<Ranked> = Vec::new();
    let mut i: usize = 0;
    while i < r.len() && i < n
        invariant
            i <= r@.len(),
            i <= n,
            t@ == r@.take(i as int),
        decreases r.len() - i,
    {
        t.push(r[i]);
        i += 1;
        assert(t@ =~= r@.take(i as int));
    }
    assert(r@.len() <= n ==> r@.take(i as int) =~= r@);
    t
}

/// Nobody further down a ranking was counted more often.
pub proof fn the_first_was_counted_most(r: Seq<Ranked>, main: Seq<u64>, side: Seq<u64>, k: int)
    requires
        ranks(r, main, side),
        0 <= k < main.len(),
    ensures
        r.len() > 0,
        r[0].major >= count(main, main[k]),
{
    assert(lists(r, main[k]));
    let i = choose|i: int| 0 <= i < r.len() && (#[trigger] r[i]).key == main[k];
    if i > 0 {
        assert(at_least(r[0], r[i]));
    }
}

/// What is counted more often comes first, and between two that are counted equally often
/// the one that is counted more often beside; everything that is counted is listed, once,
/// with how often it was.
pub proof fn what_is_counted_most_comes_first(
    main: &Vec<u64>,
    side: &Vec<u64>,
    r: Vec<Ranked>,
    i: int,
    j: int,
    k: int,
)
    requires
        call_ensures(rank, (main, side), r),
        0 <= i < j < r@.len(),
        0 <= k < main@.len(),
    ensures
        r@[i].key != r@[j].key,
        r@[i].major >= r@[j].major,
        r@[i].major == r@[j].major ==> r@[i].minor >= r@[j].minor,
        r@[i].major == main@.filter(|x: u64| x == r@[i].key).len(),
        r@[i].minor == side@.filter(|x: u64| x == r@[i].key).len(),
        r@[j].major == main@.filter(|x: u64| x == r@[j].key).len(),
        r@[i].major > 0,
        exists|n: int| 0 <= n < r@.len() && (#[trigger] r@[n]).key == main@[k],
{
    lemma_count(main@, r@[i].key);
    lemma_count(side@, r@[i].key);
    lemma_count(main@, r@[j].key);
    lemma_counted(main@, r@[i].key);
    assert(lists(r@, main@[k]));
}

pub(crate) proof fn lemma_counted(s: Seq<u64>, k: u64)
    ensures
        s.contains(k) ==> count(s, k) > 0,
    decreases s.len(),
{
    if s.len() > 0 {
        let init = s.drop_last();
        lemma_counted(init, k);
        assert(s =~= init.push(s.last()));
        crate::aoi::lemma_push_contains(init, s.last(), k);
    }
}

proof fn lemma_count(s: Seq<u64>, k: u64)
    ensures
        count(s, k) == s.filter(|x: u64| x == k).len(),
    decreases s.len(),
{
    reveal(Seq::filter);
    if s.len() > 0 {
        lemma_count(s.drop_last(), k);
    }
}

/// The first of a ranking are those at its beginning, as many as are asked for.
pub proof fn the_top_is_the_beginning(r: &Vec<Ranked>, n: usize, t: Vec<Ranked>, i: int)
    requires
        call_ensures(top, (r, n), t),
    ensures
        r@.len() >= n ==> t@.len() == n,
        r@.len() < n ==> t@.len() == r@.len(),
        0 <= i < t@.len() ==> t@[i] == r@[i],
{
}

} // verus!

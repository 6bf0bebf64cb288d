//! Tables of values.
//!
//! A table keeps its values in rows and finds a row by its key in a hash table
//! of row numbers. Taking a row out puts the last row in its place.
use crate::tables;
use ahash::AHashMap;
use vstd::prelude::*;

verus! {

/// The keys of a list of rows.
pub open spec fn keys_of<V>(rows: Seq<(u64, V)>) -> Seq<u64> {
    rows.map_values(|row: (u64, V)| row.0)
}

/// A table of values by integer.
pub struct KeyedTable<V> {
    index: AHashMap<u64, u64>,
    rows: Vec<(u64, V)>,
}

impl<V> View for KeyedTable<V> {
    type V = Map<u64, V>;

    closed spec fn view(&self) -> Map<u64, V> {
        Map::new(
            |k: u64| tables::numbers(self.index).contains_key(k),
            |k: u64| self.rows@[tables::numbers(self.index)[k] as int].1,
        )
    }
}

impl<V> KeyedTable<V> {
    /// The index says of every row where it is, and of nothing else.
    pub closed spec fn wf(&self) -> bool {
        &&& forall|i: int|
            #![trigger self.rows@[i]]
            0 <= i < self.rows@.len() ==> tables::numbers(self.index).contains_key(self.rows@[i].0)
                && tables::numbers(self.index)[self.rows@[i].0] == i
        &&& forall|k: u64|
            #![trigger tables::numbers(self.index)[k]]
            #![trigger tables::numbers(self.index).contains_key(k)]
            tables::numbers(self.index).contains_key(k) ==> tables::numbers(self.index)[k] < self.rows@.len()
                && self.rows@[tables::numbers(self.index)[k] as int].0 == k
    }

    pub fn new() -> (r: Self)
        ensures
            r.wf(),
            r@ == Map::<u64, V>::empty(),
    {
        let r = KeyedTable { index: tables::numbers_new(), rows: Vec::new() };
        assert(r@ =~= Map::<u64, V>::empty());
        r
    }

    pub fn contains_key(&self, k: u64) -> (r: bool)
        ensures
            r == self@.contains_key(k),
    {
        tables::numbers_get(&self.index, k).is_some()
    }

    pub fn get(&self, k: u64) -> (r: Option<&V>)
        requires
            self.wf(),
        ensures
            r == (if self@.contains_key(k) {
                Some(&self@[k])
            } else {
                None
            }),
    {
        match tables::numbers_get(&self.index, k) {
            Some(i) => {
                assert(i < self.rows.len());
                Some(&self.rows[i as usize].1)
            },
            None => None,
        }
    }

    pub fn get_mut(&mut self, k: u64) -> (r: Option<&mut V>)
        requires
            old(self).wf(),
        ensures
            final(self).wf(),
            match r {
                Some(v) => old(self)@.contains_key(k) && *v == old(self)@[k] && final(self)@ == old(self)@.insert(
                    k,
                    *final(v),
                ),
                None => !old(self)@.contains_key(k) && final(self)@ == old(self)@,
            },
    {
        match tables::numbers_get(&self.index, k) {
            Some(i) => {
                assert(i < self.rows.len());
                let row = &mut self.rows[i as usize];
                proof {
                    let is = after_borrow(self.rows)@;
                    let m = tables::numbers(self.index);
                    assert(Map::new(|j: u64| m.contains_key(j), |j: u64| is[m[j] as int].1) =~= old(self)@.insert(
                        k,
                        final(row).1,
                    ));
                }
                Some(&mut row.1)
            },
            None => None,
        }
    }

    /// Put `v` under `k`; the value that was there, if there was one, is handed
    /// out.
    pub fn insert(&mut self, k: u64, v: V) -> (r: Option<V>)
        requires
            old(self).wf(),
        ensures
            final(self).wf(),
            final(self)@ == old(self)@.insert(k, v),
            r == (if old(self)@.contains_key(k) {
                Some(old(self)@[k])
            } else {
                None
            }),
    {
        let was = self.remove(k);
        let ghost mid = *self;
        let at: u64 = self.rows.len() as u64;
        self.rows.push((k, v));
        tables::numbers_insert(&mut self.index, k, at);
        proof {
            assert forall|j: u64| j != k && #[trigger] mid@.contains_key(j) implies self@[j] == mid@[j] by {
                assert(tables::numbers(mid.index)[j] < mid.rows@.len());
            }
            assert(self@ =~= mid@.insert(k, v));
            assert(self@ =~= old(self)@.insert(k, v));
        }
        was
    }

    /// Take out what is under `k`.
    pub fn remove(&mut self, k: u64) -> (r: Option<V>)
        requires
            old(self).wf(),
        ensures
            final(self).wf(),
            final(self)@ == old(self)@.remove(k),
            !final(self)@.contains_key(k),
            r == (if old(self)@.contains_key(k) {
                Some(old(self)@[k])
            } else {
                None
            }),
    {
        let ghost m = tables::numbers(self.index);
        let ghost was = self.rows@;
        match tables::numbers_remove(&mut self.index, k) {
            Some(i) => {
                let last: usize = self.rows.len() - 1;
                let row = self.rows.swap_remove(i as usize);
                if (i as usize) < last {
                    let moved: u64 = self.rows[i as usize].0;
                    assert(was[last as int].0 == moved);
                    tables::numbers_insert(&mut self.index, moved, i);
                }
                assert(self@ =~= old(self)@.remove(k));
                Some(row.1)
            },
            None => {
                assert(tables::numbers(self.index) =~= m);
                assert(self@ =~= old(self)@.remove(k));
                None
            },
        }
    }

    /// Every key, once, in no particular order.
    pub fn keys(&self) -> (r: Vec<u64>)
        ensures
            tables::lists(r@, self@.dom()),
    {
        let r = tables::numbers_keys(&self.index);
        assert(self@.dom() =~= tables::numbers(self.index).dom());
        r
    }

    /// Take out everything: each key with its value, once, in no particular
    /// order.
    pub fn drain(&mut self) -> (r: Vec<(u64, V)>)
        requires
            old(self).wf(),
        ensures
            final(self).wf(),
            final(self)@ == Map::<u64, V>::empty(),
            tables::lists(keys_of(r@), old(self)@.dom()),
            forall|i: int| 0 <= i < r@.len() ==> (#[trigger] r@[i]).1 == old(self)@[r@[i].0],
    {
        let mut r: Vec<(u64, V)> = Vec::new();
        r.append(&mut self.rows);
        self.index = tables::numbers_new();
        proof {
            let was = old(self).rows@;
            let m = tables::numbers(old(self).index);
            assert(r@ =~= was);
            assert(self@ =~= Map::<u64, V>::empty());
            let ks = keys_of(r@);
            assert forall|i: int| 0 <= i < was.len() implies #[trigger] m[was[i].0] == i by {
                assert(was[i] == old(self).rows@[i]);
            }
            assert forall|i: int, j: int| 0 <= i < ks.len() && 0 <= j < ks.len() && i != j implies ks[i] != ks[j] by {
                assert(m[was[i].0] == i);
                assert(m[was[j].0] == j);
            }
            assert forall|k: u64| #[trigger] ks.contains(k) <==> old(self)@.dom().contains(k) by {
                if ks.contains(k) {
                    let i = choose|i: int| 0 <= i < ks.len() && ks[i] == k;
                    assert(was[i].0 == k);
                }
                if old(self)@.dom().contains(k) {
                    assert(ks[m[k] as int] == k);
                }
            }
        }
        r
    }

    pub fn len(&self) -> (r: usize)
        ensures
            r as nat == self@.dom().len(),
    {
        assert(self@.dom() =~= tables::numbers(self.index).dom());
        tables::numbers_len(&self.index)
    }
}

/// A table of values by string.
pub struct NamedTable<V> {
    index: AHashMap<String, u64>,
    rows: Vec<(String, V)>,
}

impl<V> View for NamedTable<V> {
    type V = Map<Seq<char>, V>;

    closed spec fn view(&self) -> Map<Seq<char>, V> {
        Map::new(
            |k: Seq<char>| tables::names(self.index).contains_key(k),
            |k: Seq<char>| self.rows@[tables::names(self.index)[k] as int].1,
        )
    }
}

impl<V> NamedTable<V> {
    /// The index says of every row where it is, and of nothing else.
    pub closed spec fn wf(&self) -> bool {
        &&& forall|i: int|
            #![trigger self.rows@[i]]
            0 <= i < self.rows@.len() ==> tables::names(self.index).contains_key(self.rows@[i].0@)
                && tables::names(self.index)[self.rows@[i].0@] == i
        &&& forall|k: Seq<char>|
            #![trigger tables::names(self.index)[k]]
            #![trigger tables::names(self.index).contains_key(k)]
            tables::names(self.index).contains_key(k) ==> tables::names(self.index)[k] < self.rows@.len()
                && self.rows@[tables::names(self.index)[k] as int].0@ == k
    }

    pub fn new() -> (r: Self)
        ensures
            r.wf(),
            r@ == Map::<Seq<char>, V>::empty(),
    {
        let r = NamedTable { index: tables::names_new(), rows: Vec::new() };
        assert(r@ =~= Map::<Seq<char>, V>::empty());
        r
    }

    pub fn contains_key(&self, k: &str) -> (r: bool)
        ensures
            r == self@.contains_key(k@),
    {
        tables::names_get(&self.index, k).is_some()
    }

    pub fn get(&self, k: &str) -> (r: Option<&V>)
        requires
            self.wf(),
        ensures
            r == (if self@.contains_key(k@) {
                Some(&self@[k@])
            } else {
                None
            }),
    {
        match tables::names_get(&self.index, k) {
            Some(i) => {
                assert(i < self.rows.len());
                Some(&self.rows[i as usize].1)
            },
            None => None,
        }
    }

    pub fn get_mut(&mut self, k: &str) -> (r: Option<&mut V>)
        requires
            old(self).wf(),
        ensures
            final(self).wf(),
            match r {
                Some(v) => old(self)@.contains_key(k@) && *v == old(self)@[k@] && final(self)@ == old(self)@.insert(
                    k@,
                    *final(v),
                ),
                None => !old(self)@.contains_key(k@) && final(self)@ == old(self)@,
            },
    {
        match tables::names_get(&self.index, k) {
            Some(i) => {
                assert(i < self.rows.len());
                let row = &mut self.rows[i as usize];
                proof {
                    let is = after_borrow(self.rows)@;
                    let m = tables::names(self.index);
                    assert(Map::new(|j: Seq<char>| m.contains_key(j), |j: Seq<char>| is[m[j] as int].1) =~= old(
                        self,
                    )@.insert(k@, final(row).1));
                }
                Some(&mut row.1)
            },
            None => None,
        }
    }

    /// Put `v` under `k`; the value that was there, if there was one, is handed
    /// out.
    pub fn insert(&mut self, k: String, v: V) -> (r: Option<V>)
        requires
            old(self).wf(),
        ensures
            final(self).wf(),
            final(self)@ == old(self)@.insert(k@, v),
            r == (if old(self)@.contains_key(k@) {
                Some(old(self)@[k@])
            } else {
                None
            }),
    {
        let was = self.remove(k.as_str());
        let ghost mid = *self;
        let at: u64 = self.rows.len() as u64;
        let ghost kk = k@;
        self.rows.push((k.clone(), v));
        tables::names_insert(&mut self.index, k, at);
        proof {
            assert forall|j: Seq<char>| j != kk && #[trigger] mid@.contains_key(j) implies self@[j] == mid@[j] by {
                assert(tables::names(mid.index)[j] < mid.rows@.len());
            }
            assert(self@ =~= mid@.insert(kk, v));
            assert(self@ =~= old(self)@.insert(kk, v));
        }
        was
    }

    /// Take out what is under `k`.
    pub fn remove(&mut self, k: &str) -> (r: Option<V>)
        requires
            old(self).wf(),
        ensures
            final(self).wf(),
            final(self)@ == old(self)@.remove(k@),
            !final(self)@.contains_key(k@),
            r == (if old(self)@.contains_key(k@) {
                Some(old(self)@[k@])
            } else {
                None
            }),
    {
        let ghost m = tables::names(self.index);
        let ghost was = self.rows@;
        match tables::names_remove(&mut self.index, k) {
            Some(i) => {
                let last: usize = self.rows.len() - 1;
                let row = self.rows.swap_remove(i as usize);
                if (i as usize) < last {
                    let moved = self.rows[i as usize].0.clone();
                    assert(was[last as int].0@ == moved@);
                    tables::names_insert(&mut self.index, moved, i);
                }
                assert(self@ =~= old(self)@.remove(k@));
                Some(row.1)
            },
            None => {
                assert(tables::names(self.index) =~= m);
                assert(self@ =~= old(self)@.remove(k@));
                None
            },
        }
    }

    pub fn len(&self) -> (r: usize)
        requires
            self.wf(),
        ensures
            r as nat == self@.dom().len(),
    {
        proof {
            let ks = self.rows@.map_values(|row: (String, V)| row.0@);
            assert forall|i: int, j: int| 0 <= i < ks.len() && 0 <= j < ks.len() && i != j implies ks[i] != ks[j] by {
                assert(ks[i] == self.rows@[i].0@);
                assert(ks[j] == self.rows@[j].0@);
            }
            ks.unique_seq_to_set();
            assert(ks.to_set() =~= self@.dom()) by {
                assert forall|k: Seq<char>| self@.contains_key(k) implies ks.contains(k) by {
                    let at = tables::names(self.index)[k] as int;
                    assert(ks[at] == self.rows@[at].0@);
                }
                assert forall|k: Seq<char>| ks.contains(k) implies self@.contains_key(k) by {
                    let at = choose|at: int| 0 <= at < ks.len() && ks[at] == k;
                    assert(ks[at] == self.rows@[at].0@);
                }
            }
        }
        self.rows.len()
    }

    /// The keys, each once, in no particular order.
    pub fn keys(&self) -> (r: Vec<String>)
        requires
            self.wf(),
        ensures
            forall|i: int, j: int| 0 <= i < j < r@.len() ==> r@[i]@ != r@[j]@,
            forall|i: int| 0 <= i < r@.len() ==> self@.contains_key(#[trigger] r@[i]@),
            forall|k: Seq<char>| #[trigger] self@.contains_key(k) ==> exists|i: int| 0 <= i < r@.len() && r@[i]@ == k,
    {
        let mut r: Vec<String> = Vec::new();
        let mut i: usize = 0;
        while i < self.rows.len()
            invariant
                i <= self.rows@.len(),
                r@.len() == i,
                forall|j: int| 0 <= j < i ==> (#[trigger] r@[j])@ == self.rows@[j].0@,
            decreases self.rows.len() - i,
        {
            r.push(self.rows[i].0.clone());
            i += 1;
        }
        proof {
            assert forall|k: Seq<char>| #[trigger] self@.contains_key(k) implies exists|i: int|
                0 <= i < r@.len() && r@[i]@ == k by {
                let at = tables::names(self.index)[k] as int;
                assert(r@[at]@ == self.rows@[at].0@);
            }
            assert forall|i: int, j: int| 0 <= i < j < r@.len() implies r@[i]@ != r@[j]@ by {
                assert(r@[i]@ == self.rows@[i].0@);
                assert(r@[j]@ == self.rows@[j].0@);
            }
        }
        r
    }
}

/// What is put into a table is found under its key until it is taken out, and nothing else is
/// touched.
pub proof fn what_is_put_in_is_found<V>(a: &mut KeyedTable<V>, k: u64, v: V, r: Option<V>, b: &mut KeyedTable<V>, out: Option<V>, other: u64)
    requires
        old(a).wf(),
        call_ensures(KeyedTable::<V>::insert, (a, k, v), r),
        *old(b) == *final(a),
        call_ensures(KeyedTable::<V>::remove, (b, k), out),
    ensures
        final(a)@.contains_key(k) && final(a)@[k] == v,
        out == Some(v),
        !final(b)@.contains_key(k),
        old(a)@.contains_key(k) ==> r == Some(old(a)@[k]),
        !old(a)@.contains_key(k) ==> r is None,
        other != k ==> (final(b)@.contains_key(other) <==> old(a)@.contains_key(other)) && (old(a)@.contains_key(other)
            ==> final(b)@[other] == old(a)@[other]),
{
}

} // verus!

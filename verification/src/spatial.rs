//! Spatial index for "who is near" queries.
//!
//! A map is divided into cells; the index knows, for every client and creature
//! on the map, the cell it stands in, and for every cell who stands in it. The
//! cell of a world position is computed by the caller.
use crate::tables;
use ahash::AHashMap;
use vstd::prelude::*;

pub use crate::tables::Occupant;

verus! {

/// The number under which the table of cells holds the cell `cell`.
pub open spec fn cell_id(cell: (i32, i32)) -> u64 {
    ((cell.0 + 0x8000_0000) * 0x1_0000_0000 + (cell.1 + 0x8000_0000)) as u64
}

/// The cell that the table of cells holds under `id`.
pub open spec fn cell_of(id: u64) -> (i32, i32) {
    ((id / 0x1_0000_0000 - 0x8000_0000) as i32, (id % 0x1_0000_0000 - 0x8000_0000) as i32)
}

/// Distinct cells have distinct numbers, and every number is that of a cell.
pub proof fn cell_ids_are_one_to_one(cell: (i32, i32), id: u64)
    ensures
        cell_of(cell_id(cell)) == cell,
        cell_id(cell_of(id)) == id,
{
}

pub fn pack(cell: (i32, i32)) -> (id: u64)
    ensures
        id == cell_id(cell),
{
    let hi: u64 = (cell.0 as i64 + 0x8000_0000) as u64;
    let lo: u64 = (cell.1 as i64 + 0x8000_0000) as u64;
    hi * 0x1_0000_0000 + lo
}

pub fn unpack(id: u64) -> (cell: (i32, i32))
    ensures
        cell == cell_of(id),
{
    let hi: i64 = (id / 0x1_0000_0000) as i64 - 0x8000_0000;
    let lo: i64 = (id % 0x1_0000_0000) as i64 - 0x8000_0000;
    (hi as i32, lo as i32)
}

/// Maps cells to the occupants that stand in them, with the reverse indexes
/// that say of each client and creature which cell it stands in.
pub struct SpatialIndex {
    cells: AHashMap<u64, Vec<Occupant>>,
    client_cell_of: AHashMap<u64, u64>,
    creature_cell_of: AHashMap<u64, u64>,
}

/// The reverse index `m` as a map from slab keys to cells.
pub open spec fn seats(m: Map<u64, u64>) -> Map<usize, (i32, i32)> {
    Map::new(|k: usize| m.contains_key(k as u64), |k: usize| cell_of(m[k as u64]))
}

impl SpatialIndex {
    /// The cell of every tracked client, by slab key.
    pub closed spec fn clients(&self) -> Map<usize, (i32, i32)> {
        seats(tables::numbers(self.client_cell_of))
    }

    /// The cell of every tracked creature, by slab key.
    pub closed spec fn creatures(&self) -> Map<usize, (i32, i32)> {
        seats(tables::numbers(self.creature_cell_of))
    }

    /// The cell that `occ` stands in, if it is tracked.
    pub open spec fn seat(&self, occ: Occupant) -> Option<(i32, i32)> {
        match occ {
            Occupant::Client(k) => if self.clients().contains_key(k) {
                Some(self.clients()[k])
            } else {
                None
            },
            Occupant::Creature(k) => if self.creatures().contains_key(k) {
                Some(self.creatures()[k])
            } else {
                None
            },
        }
    }

    /// The cells that somebody stands in.
    pub closed spec fn occupied(&self) -> Set<(i32, i32)> {
        Set::new(|c: (i32, i32)| tables::buckets(self.cells).contains_key(cell_id(c)))
    }

    /// Who stands in `cell`, in the order in which the index keeps them.
    pub closed spec fn occupants(&self, cell: (i32, i32)) -> Seq<Occupant> {
        if tables::buckets(self.cells).contains_key(cell_id(cell)) {
            tables::buckets(self.cells)[cell_id(cell)]
        } else {
            Seq::empty()
        }
    }

    spec fn keys_fit(m: Map<u64, u64>) -> bool {
        &&& m.dom().finite()
        &&& forall|k: u64| #[trigger] m.contains_key(k) ==> k <= usize::MAX
    }

    /// The cells and the reverse indexes agree: whoever is tracked stands in
    /// the cell that the index says, once, and nobody else stands anywhere;
    /// a cell without occupants is not kept.
    pub closed spec fn wf(&self) -> bool {
        &&& Self::keys_fit(tables::numbers(self.client_cell_of))
        &&& Self::keys_fit(tables::numbers(self.creature_cell_of))
        &&& tables::buckets(self.cells).dom().finite()
        &&& forall|id: u64| #[trigger]
            tables::buckets(self.cells).contains_key(id) ==> tables::buckets(self.cells)[id].len() > 0
                && tables::buckets(self.cells)[id].no_duplicates()
        &&& forall|id: u64, occ: Occupant|
            #![trigger tables::buckets(self.cells)[id].contains(occ)]
            tables::buckets(self.cells).contains_key(id) && tables::buckets(self.cells)[id].contains(occ) ==> self.seat(occ)
                == Some(cell_of(id))
        &&& forall|occ: Occupant|
            #![trigger self.seat(occ)]
            self.seat(occ) is Some ==> tables::buckets(self.cells).contains_key(cell_id(self.seat(occ)->0))
                && tables::buckets(self.cells)[cell_id(self.seat(occ)->0)].contains(occ)
    }

    /// An index without occupants.
    pub fn new() -> (r: Self)
        ensures
            r.wf(),
            r.clients() == Map::<usize, (i32, i32)>::empty(),
            r.creatures() == Map::<usize, (i32, i32)>::empty(),
    {
        let r = SpatialIndex {
            cells: tables::buckets_new(),
            client_cell_of: tables::numbers_new(),
            creature_cell_of: tables::numbers_new(),
        };
        assert(r.clients() =~= Map::<usize, (i32, i32)>::empty());
        assert(r.creatures() =~= Map::<usize, (i32, i32)>::empty());
        r
    }

    /// Put `occ` at the end of the bucket of the cell numbered `id`.
    fn cell_push(&mut self, id: u64, occ: Occupant)
        ensures
            final(self).client_cell_of == old(self).client_cell_of,
            final(self).creature_cell_of == old(self).creature_cell_of,
            tables::buckets(final(self).cells) == tables::buckets(old(self).cells).insert(
                id,
                (if tables::buckets(old(self).cells).contains_key(id) {
                    tables::buckets(old(self).cells)[id]
                } else {
                    Seq::empty()
                }).push(occ),
            ),
    {
        let mut bucket = match tables::buckets_remove(&mut self.cells, id) {
            Some(b) => b,
            None => Vec::new(),
        };
        bucket.push(occ);
        tables::buckets_insert(&mut self.cells, id, bucket);
        assert(tables::buckets(self.cells) =~= tables::buckets(old(self).cells).insert(
            id,
            (if tables::buckets(old(self).cells).contains_key(id) {
                tables::buckets(old(self).cells)[id]
            } else {
                Seq::empty()
            }).push(occ),
        ));
    }

    /// Take `occ` out of the bucket of the cell numbered `id`; a bucket that
    /// empties is dropped.
    fn cell_remove(&mut self, id: u64, occ: Occupant)
        requires
            tables::buckets(old(self).cells).contains_key(id),
            tables::buckets(old(self).cells)[id].no_duplicates(),
            tables::buckets(old(self).cells)[id].contains(occ),
        ensures
            final(self).client_cell_of == old(self).client_cell_of,
            final(self).creature_cell_of == old(self).creature_cell_of,
            ({
                let was = tables::buckets(old(self).cells)[id];
                let is = tables::buckets(final(self).cells);
                &&& was.len() == 1 ==> is == tables::buckets(old(self).cells).remove(id)
                &&& was.len() > 1 ==> is.contains_key(id) && is == tables::buckets(old(self).cells).insert(id, is[id])
                    && is[id].len() == was.len() - 1 && is[id].no_duplicates()
                    && forall|o: Occupant| #[trigger] is[id].contains(o) <==> was.contains(o) && o != occ
            }),
    {
        match tables::buckets_remove(&mut self.cells, id) {
            Some(mut bucket) => {
                let ghost was = bucket@;
                let mut i: usize = 0;
                while i < bucket.len() && bucket[i] != occ
                    invariant
                        bucket@ == was,
                        was.contains(occ),
                        i <= bucket.len(),
                        forall|j: int| 0 <= j < i ==> was[j] != occ,
                    decreases bucket.len() - i,
                {
                    i += 1;
                }
                assert(i < bucket.len()) by {
                    let w = choose|w: int| 0 <= w < was.len() && was[w] == occ;
                    assert(was[w] == occ);
                }
                bucket.swap_remove(i);
                proof {
                    let is = bucket@;
                    assert forall|o: Occupant| #[trigger] is.contains(o) implies was.contains(o) && o != occ by {
                        let j = choose|j: int| 0 <= j < is.len() && is[j] == o;
                        if j == i {
                            assert(was[was.len() - 1] == o);
                        } else {
                            assert(was[j] == o);
                        }
                    }
                    assert forall|o: Occupant| was.contains(o) && o != occ implies #[trigger] is.contains(o) by {
                        let j = choose|j: int| 0 <= j < was.len() && was[j] == o;
                        if j == was.len() - 1 {
                            assert(is[i as int] == o);
                        } else {
                            assert(is[j] == o);
                        }
                    }
                }
                if bucket.len() > 0 {
                    tables::buckets_insert(&mut self.cells, id, bucket);
                    assert(tables::buckets(self.cells) =~= tables::buckets(old(self).cells).insert(id, tables::buckets(self.cells)[id]));
                }
            },
            None => {},
        }
    }

    /// Start tracking a client in `cell`. A client that is tracked already
    /// stays where it is.
    pub fn insert_client(&mut self, key: usize, cell: (i32, i32))
        requires
            old(self).wf(),
        ensures
            final(self).wf(),
            final(self).creatures() == old(self).creatures(),
            final(self).clients() == (if old(self).clients().contains_key(key) {
                old(self).clients()
            } else {
                old(self).clients().insert(key, cell)
            }),
    {
        if tables::numbers_get(&self.client_cell_of, key as u64).is_some() {
            return;
        }
        let id: u64 = pack(cell);
        self.cell_push(id, Occupant::Client(key));
        tables::numbers_insert(&mut self.client_cell_of, key as u64, id);
        proof {
            cell_ids_are_one_to_one(cell, id);
            self.lemma_seated(*old(self), Occupant::Client(key), cell);
        }
    }

    proof fn lemma_seated(self, was: Self, occ: Occupant, cell: (i32, i32))
        requires
            was.wf(),
            was.seat(occ) is None,
            tables::buckets(self.cells) == tables::buckets(was.cells).insert(cell_id(cell), was.occupants(cell).push(occ)),
            match occ {
                Occupant::Client(k) => {
                    &&& self.creature_cell_of == was.creature_cell_of
                    &&& tables::numbers(self.client_cell_of) == tables::numbers(was.client_cell_of).insert(k as u64, cell_id(cell))
                },
                Occupant::Creature(k) => {
                    &&& self.client_cell_of == was.client_cell_of
                    &&& tables::numbers(self.creature_cell_of) == tables::numbers(was.creature_cell_of).insert(
                        k as u64,
                        cell_id(cell),
                    )
                },
            },
        ensures
            self.wf(),
            match occ {
                Occupant::Client(k) => {
                    &&& self.creatures() == was.creatures()
                    &&& self.clients() == was.clients().insert(k, cell)
                },
                Occupant::Creature(k) => {
                    &&& self.clients() == was.clients()
                    &&& self.creatures() == was.creatures().insert(k, cell)
                },
            },
    {
        let id = cell_id(cell);
        let is = tables::buckets(self.cells);
        let had = tables::buckets(was.cells);
        cell_ids_are_one_to_one(cell, id);
        assert(self.clients() =~= match occ {
            Occupant::Client(k) => was.clients().insert(k, cell),
            Occupant::Creature(k) => was.clients(),
        });
        assert(self.creatures() =~= match occ {
            Occupant::Client(k) => was.creatures(),
            Occupant::Creature(k) => was.creatures().insert(k, cell),
        });
        assert forall|o: Occupant| #[trigger] self.seat(o) == (if o == occ { Some(cell) } else { was.seat(o) }) by {}
        assert(!was.occupants(cell).contains(occ)) by {
            if was.occupants(cell).contains(occ) {
                assert(had[id].contains(occ));
            }
        }
        assert forall|o: Occupant| #[trigger]
            is[id].contains(o) <==> o == occ || was.occupants(cell).contains(o) by {
            let s = was.occupants(cell);
            if s.contains(o) {
                let i = choose|i: int| 0 <= i < s.len() && s[i] == o;
                assert(is[id][i] == o);
            }
            if o == occ {
                assert(is[id][s.len() as int] == o);
            }
            if is[id].contains(o) && o != occ {
                let i = choose|i: int| 0 <= i < is[id].len() && is[id][i] == o;
                assert(s[i] == o);
            }
        }
        assert forall|i: u64, o: Occupant|
            #![trigger is[i].contains(o)]
            is.contains_key(i) && is[i].contains(o) implies self.seat(o) == Some(cell_of(i)) by {
            if i == id {
                if o != occ {
                    assert(had[id].contains(o));
                }
            } else {
                assert(had[i].contains(o));
            }
        }
        assert forall|o: Occupant|
            #![trigger self.seat(o)]
            self.seat(o) is Some implies is.contains_key(cell_id(self.seat(o)->0))
            && is[cell_id(self.seat(o)->0)].contains(o) by {
            if o != occ {
                assert(was.seat(o) is Some);
                let at = cell_id(was.seat(o)->0);
                assert(had[at].contains(o));
            }
        }
        assert(is[id].no_duplicates());
    }

    proof fn lemma_unseated(self, was: Self, occ: Occupant)
        requires
            was.wf(),
            was.seat(occ) is Some,
            ({
                let id = cell_id(was.seat(occ)->0);
                let had = tables::buckets(was.cells);
                let is = tables::buckets(self.cells);
                &&& had[id].len() == 1 ==> is == had.remove(id)
                &&& had[id].len() > 1 ==> is.contains_key(id) && is == had.insert(id, is[id])
                    && is[id].len() == had[id].len() - 1 && is[id].no_duplicates()
                    && forall|o: Occupant| #[trigger] is[id].contains(o) <==> had[id].contains(o) && o != occ
            }),
            match occ {
                Occupant::Client(k) => {
                    &&& self.creature_cell_of == was.creature_cell_of
                    &&& tables::numbers(self.client_cell_of) == tables::numbers(was.client_cell_of).remove(k as u64)
                },
                Occupant::Creature(k) => {
                    &&& self.client_cell_of == was.client_cell_of
                    &&& tables::numbers(self.creature_cell_of) == tables::numbers(was.creature_cell_of).remove(
                        k as u64,
                    )
                },
            },
        ensures
            self.wf(),
            self.seat(occ) is None,
            match occ {
                Occupant::Client(k) => {
                    &&& self.creatures() == was.creatures()
                    &&& self.clients() == was.clients().remove(k)
                },
                Occupant::Creature(k) => {
                    &&& self.clients() == was.clients()
                    &&& self.creatures() == was.creatures().remove(k)
                },
            },
    {
        let cell = was.seat(occ)->0;
        let id = cell_id(cell);
        let is = tables::buckets(self.cells);
        let had = tables::buckets(was.cells);
        cell_ids_are_one_to_one(cell, id);
        assert(self.clients() =~= match occ {
            Occupant::Client(k) => was.clients().remove(k),
            Occupant::Creature(k) => was.clients(),
        });
        assert(self.creatures() =~= match occ {
            Occupant::Client(k) => was.creatures(),
            Occupant::Creature(k) => was.creatures().remove(k),
        });
        assert forall|o: Occupant| #[trigger] self.seat(o) == (if o == occ { None } else { was.seat(o) }) by {}
        assert(had.contains_key(id) && had[id].contains(occ));
        assert(had[id].len() > 0);
        assert forall|i: u64, o: Occupant|
            #![trigger is[i].contains(o)]
            is.contains_key(i) && is[i].contains(o) implies self.seat(o) == Some(cell_of(i)) by {
            assert(had[i].contains(o));
            if i != id {
                cell_ids_are_one_to_one(cell, i);
                assert(o != occ);
            }
        }
        assert forall|o: Occupant|
            #![trigger self.seat(o)]
            self.seat(o) is Some implies is.contains_key(cell_id(self.seat(o)->0))
            && is[cell_id(self.seat(o)->0)].contains(o) by {
            assert(was.seat(o) is Some && o != occ);
            let at = cell_id(was.seat(o)->0);
            assert(had[at].contains(o));
            if at == id && had[id].len() == 1 {
                let i = choose|i: int| 0 <= i < had[id].len() && had[id][i] == o;
                let j = choose|j: int| 0 <= j < had[id].len() && had[id][j] == occ;
                assert(false);
            }
        }
    }

    /// Stop tracking a client.
    pub fn remove_client(&mut self, key: usize)
        requires
            old(self).wf(),
        ensures
            final(self).wf(),
            final(self).creatures() == old(self).creatures(),
            final(self).clients() == old(self).clients().remove(key),
    {
        match tables::numbers_remove(&mut self.client_cell_of, key as u64) {
            Some(id) => {
                proof {
                    cell_ids_are_one_to_one(cell_of(id), id);
                    assert(old(self).seat(Occupant::Client(key)) == Some(cell_of(id)));
                }
                self.cell_remove(id, Occupant::Client(key));
                proof {
                    self.lemma_unseated(*old(self), Occupant::Client(key));
                }
            },
            None => {
                assert(old(self).clients().remove(key) =~= old(self).clients());
                assert(tables::numbers(self.client_cell_of) =~= tables::numbers(old(self).client_cell_of));
                assert forall|o: Occupant| #[trigger] self.seat(o) == old(self).seat(o) by {}
            },
        }
    }

    /// Seat a client in `cell`: nothing happens if it stands there already, and
    /// a client that is not tracked is inserted.
    pub fn move_client(&mut self, key: usize, cell: (i32, i32))
        requires
            old(self).wf(),
        ensures
            final(self).wf(),
            final(self).creatures() == old(self).creatures(),
            final(self).clients() == old(self).clients().insert(key, cell),
            old(self).seat(Occupant::Client(key)) == Some(cell) ==> *final(self) == *old(self),
            final(self).clients().dom().len() == old(self).clients().dom().len() + (if old(self).clients().contains_key(
                key,
            ) {
                0nat
            } else {
                1nat
            }),
    {
        let id: u64 = pack(cell);
        let ghost at = self.clients();
        proof {
            self.who_is_tracked_can_be_counted();
            assert(at.contains_key(key) ==> at.dom().insert(key) =~= at.dom());
            cell_ids_are_one_to_one(cell, id);
        }
        if let Some(was) = tables::numbers_get(&self.client_cell_of, key as u64) {
            proof {
                cell_ids_are_one_to_one(cell, was);
            }
            if was == id {
                assert(at.insert(key, cell) =~= at);
                return;
            }
            assert(self.seat(Occupant::Client(key)) != Some(cell));
            self.remove_client(key);
            assert(at.remove(key).insert(key, cell) =~= at.insert(key, cell));
        } else {
            assert(self.seat(Occupant::Client(key)) is None);
        }
        self.insert_client(key, cell);
    }

    /// Start tracking a creature in `cell`. A creature that is tracked already
    /// stays where it is.
    pub fn insert_creature(&mut self, key: usize, cell: (i32, i32))
        requires
            old(self).wf(),
        ensures
            final(self).wf(),
            final(self).clients() == old(self).clients(),
            final(self).creatures() == (if old(self).creatures().contains_key(key) {
                old(self).creatures()
            } else {
                old(self).creatures().insert(key, cell)
            }),
    {
        if tables::numbers_get(&self.creature_cell_of, key as u64).is_some() {
            return;
        }
        let id: u64 = pack(cell);
        self.cell_push(id, Occupant::Creature(key));
        tables::numbers_insert(&mut self.creature_cell_of, key as u64, id);
        proof {
            cell_ids_are_one_to_one(cell, id);
            self.lemma_seated(*old(self), Occupant::Creature(key), cell);
        }
    }

    /// Stop tracking a creature.
    pub fn remove_creature(&mut self, key: usize)
        requires
            old(self).wf(),
        ensures
            final(self).wf(),
            final(self).clients() == old(self).clients(),
            final(self).creatures() == old(self).creatures().remove(key),
    {
        match tables::numbers_remove(&mut self.creature_cell_of, key as u64) {
            Some(id) => {
                proof {
                    cell_ids_are_one_to_one(cell_of(id), id);
                    assert(old(self).seat(Occupant::Creature(key)) == Some(cell_of(id)));
                }
                self.cell_remove(id, Occupant::Creature(key));
                proof {
                    self.lemma_unseated(*old(self), Occupant::Creature(key));
                }
            },
            None => {
                assert(old(self).creatures().remove(key) =~= old(self).creatures());
                assert(tables::numbers(self.creature_cell_of) =~= tables::numbers(old(self).creature_cell_of));
                assert forall|o: Occupant| #[trigger] self.seat(o) == old(self).seat(o) by {}
            },
        }
    }

    /// Seat a creature in `cell`: nothing happens if it stands there already,
    /// and a creature that is not tracked is inserted.
    pub fn move_creature(&mut self, key: usize, cell: (i32, i32))
        requires
            old(self).wf(),
        ensures
            final(self).wf(),
            final(self).clients() == old(self).clients(),
            final(self).creatures() == old(self).creatures().insert(key, cell),
            old(self).seat(Occupant::Creature(key)) == Some(cell) ==> *final(self) == *old(self),
    {
        let id: u64 = pack(cell);
        let ghost at = self.creatures();
        proof {
            cell_ids_are_one_to_one(cell, id);
        }
        if let Some(was) = tables::numbers_get(&self.creature_cell_of, key as u64) {
            proof {
                cell_ids_are_one_to_one(cell, was);
            }
            if was == id {
                assert(at.insert(key, cell) =~= at);
                return;
            }
            assert(self.seat(Occupant::Creature(key)) != Some(cell));
            self.remove_creature(key);
            assert(at.remove(key).insert(key, cell) =~= at.insert(key, cell));
        } else {
            assert(self.seat(Occupant::Creature(key)) is None);
        }
        self.insert_creature(key, cell);
    }

    pub fn is_creature_tracked(&self, key: usize) -> (r: bool)
        ensures
            r == self.creatures().contains_key(key),
    {
        tables::numbers_get(&self.creature_cell_of, key as u64).is_some()
    }

    pub fn is_client_tracked(&self, key: usize) -> (r: bool)
        ensures
            r == self.clients().contains_key(key),
    {
        tables::numbers_get(&self.client_cell_of, key as u64).is_some()
    }

    proof fn lemma_count(m: Map<u64, u64>)
        requires
            Self::keys_fit(m),
        ensures
            seats(m).dom().finite(),
            seats(m).dom().len() == m.dom().len(),
    {
        let f = |k: u64| k as usize;
        assert(m.dom().map(f) =~= seats(m).dom()) by {
            assert forall|k: usize| seats(m).dom().contains(k) implies m.dom().map(f).contains(k) by {
                assert(m.dom().contains(k as u64) && f(k as u64) == k);
            }
        }
        vstd::set_lib::lemma_map_size(m.dom(), seats(m).dom(), f);
    }

    /// Those who are tracked are finitely many.
    pub proof fn who_is_tracked_can_be_counted(&self)
        requires
            self.wf(),
        ensures
            self.clients().dom().finite(),
            self.creatures().dom().finite(),
    {
        Self::lemma_count(tables::numbers(self.client_cell_of));
        Self::lemma_count(tables::numbers(self.creature_cell_of));
    }

    /// Once a client was moved to `cell`, it stands there, once, and nowhere else;
    /// everybody else stands where they stood. A client that was not tracked is one
    /// more.
    pub proof fn a_client_moves_alone(
        before: SpatialIndex,
        after: SpatialIndex,
        key: usize,
        cell: (i32, i32),
        other: Occupant,
        c: (i32, i32),
    )
        requires
            before.wf(),
            after.wf(),
            after.clients() == before.clients().insert(key, cell),
            after.creatures() == before.creatures(),
            other != Occupant::Client(key),
        ensures
            after.occupants(c).contains(Occupant::Client(key)) <==> c == cell,
            after.occupants(c).contains(other) <==> before.occupants(c).contains(other),
            after.occupants(c).no_duplicates(),
            after.occupied().contains(c) <==> after.occupants(c).len() > 0,
            after.clients().dom().len() == before.clients().dom().len() + (if before.clients().contains_key(key) {
                0nat
            } else {
                1nat
            }),
    {
        before.occupants_are_the_seated(c, other);
        after.occupants_are_the_seated(c, other);
        after.occupants_are_the_seated(c, Occupant::Client(key));
        before.who_is_tracked_can_be_counted();
        if before.clients().contains_key(key) {
            assert(before.clients().dom().insert(key) =~= before.clients().dom());
        }
    }

    /// How many clients are tracked.
    pub fn tracked_client_count(&self) -> (r: usize)
        requires
            self.wf(),
        ensures
            self.clients().dom().finite(),
            r as nat == self.clients().dom().len(),
    {
        proof {
            Self::lemma_count(tables::numbers(self.client_cell_of));
        }
        tables::numbers_len(&self.client_cell_of)
    }

    /// How many creatures are tracked.
    pub fn tracked_creature_count(&self) -> (r: usize)
        requires
            self.wf(),
        ensures
            self.creatures().dom().finite(),
            r as nat == self.creatures().dom().len(),
    {
        proof {
            Self::lemma_count(tables::numbers(self.creature_cell_of));
        }
        tables::numbers_len(&self.creature_cell_of)
    }

    /// The occupants of the cells `(x, lo)` up to and with `(x, hi)`.
    pub open spec fn column(&self, x: int, lo: int, hi: int) -> Seq<Occupant>
        decreases hi - lo + 1,
    {
        if lo > hi {
            Seq::empty()
        } else {
            self.column(x, lo, hi - 1) + self.occupants((x as i32, hi as i32))
        }
    }

    /// The occupants of the cells from `lo` up to and with `hi` on both axes.
    pub open spec fn window(&self, lo: (int, int), hi: (int, int)) -> Seq<Occupant>
        decreases hi.0 - lo.0 + 1,
    {
        if lo.0 > hi.0 {
            Seq::empty()
        } else {
            self.window(lo, (hi.0 - 1, hi.1)) + self.column(hi.0, lo.1, hi.1)
        }
    }

    /// Every occupant of the cells from `lo` up to and with `hi` on both axes.
    /// The caller filters them by distance: the index only narrows.
    pub fn visit(&self, lo: (i32, i32), hi: (i32, i32)) -> (r: Vec<Occupant>)
        ensures
            r@ == self.window((lo.0 as int, lo.1 as int), (hi.0 as int, hi.1 as int)),
    {
        let mut r: Vec<Occupant> = Vec::new();
        let mut x: i64 = lo.0 as i64;
        while x <= hi.0 as i64
            invariant
                lo.0 <= x,
                x <= hi.0 + 1 || x == lo.0,
                r@ == self.window((lo.0 as int, lo.1 as int), (x - 1, hi.1 as int)),
            decreases hi.0 + 1 - x,
        {
            let ghost before = r@;
            let mut y: i64 = lo.1 as i64;
            while y <= hi.1 as i64
                invariant
                    lo.0 <= x <= hi.0,
                    lo.1 <= y,
                    y <= hi.1 + 1 || y == lo.1,
                    r@ == before + self.column(x as int, lo.1 as int, y - 1),
                decreases hi.1 + 1 - y,
            {
                let cell: (i32, i32) = (x as i32, y as i32);
                if let Some(bucket) = tables::buckets_get(&self.cells, pack(cell)) {
                    let ghost start = r@;
                    let mut i: usize = 0;
                    while i < bucket.len()
                        invariant
                            i <= bucket.len(),
                            r@ == start + bucket@.take(i as int),
                        decreases bucket.len() - i,
                    {
                        r.push(bucket[i]);
                        assert(bucket@.take(i + 1) =~= bucket@.take(i as int).push(bucket@[i as int]));
                        i += 1;
                    }
                    assert(bucket@.take(i as int) =~= bucket@);
                } else {
                    assert(self.occupants(cell) =~= Seq::<Occupant>::empty());
                }
                assert(r@ =~= before + self.column(x as int, lo.1 as int, y as int));
                y += 1;
            }
            proof {
                if lo.1 > hi.1 {
                    assert(self.column(x as int, lo.1 as int, hi.1 as int) =~= Seq::<Occupant>::empty());
                    assert(r@ =~= before + self.column(x as int, lo.1 as int, hi.1 as int));
                }
            }
            x += 1;
        }
        proof {
            if lo.0 > hi.0 {
                assert(self.window((lo.0 as int, lo.1 as int), (hi.0 as int, hi.1 as int)) =~= Seq::<Occupant>::empty());
            }
        }
        r
    }

    proof fn lemma_column(&self, x: i32, lo: int, hi: int, occ: Occupant)
        requires
            self.wf(),
            i32::MIN <= lo,
            hi <= i32::MAX,
        ensures
            self.column(x as int, lo, hi).contains(occ) <==> self.seat(occ) is Some && (self.seat(occ)->0).0 == x
                && lo <= (self.seat(occ)->0).1 <= hi,
        decreases hi - lo + 1,
    {
        if lo <= hi {
            self.lemma_column(x, lo, hi - 1, occ);
            let cell = (x, hi as i32);
            let a = self.column(x as int, lo, hi - 1);
            let b = self.occupants(cell);
            self.occupants_are_the_seated(cell, occ);
            lemma_concat_contains(a, b, occ);
        }
    }

    /// Who stands in a cell is exactly who is seated there.
    pub proof fn occupants_are_the_seated(&self, cell: (i32, i32), occ: Occupant)
        requires
            self.wf(),
        ensures
            self.occupants(cell).contains(occ) <==> self.seat(occ) == Some(cell),
            self.occupants(cell).no_duplicates(),
            self.occupied().contains(cell) <==> self.occupants(cell).len() > 0,
    {
        cell_ids_are_one_to_one(cell, cell_id(cell));
        if self.seat(occ) == Some(cell) {
            assert(tables::buckets(self.cells)[cell_id(cell)].contains(occ));
        }
        if tables::buckets(self.cells).contains_key(cell_id(cell)) && self.occupants(cell).contains(occ) {
            assert(tables::buckets(self.cells)[cell_id(cell)].contains(occ));
        }
    }

    /// A visit hands out exactly the occupants seated in the visited cells.
    pub proof fn a_visit_finds_who_is_seated(&self, lo: (int, int), hi: (int, int), occ: Occupant)
        requires
            self.wf(),
            i32::MIN <= lo.0,
            i32::MIN <= lo.1,
            hi.0 <= i32::MAX,
            hi.1 <= i32::MAX,
        ensures
            self.window(lo, hi).contains(occ) <==> self.seat(occ) is Some && lo.0 <= (self.seat(occ)->0).0 <= hi.0
                && lo.1 <= (self.seat(occ)->0).1 <= hi.1,
        decreases hi.0 - lo.0 + 1,
    {
        if lo.0 <= hi.0 {
            self.a_visit_finds_who_is_seated(lo, (hi.0 - 1, hi.1), occ);
            self.lemma_column(hi.0 as i32, lo.1, hi.1, occ);
            lemma_concat_contains(
                self.window(lo, (hi.0 - 1, hi.1)),
                self.column(hi.0, lo.1, hi.1),
                occ,
            );
        }
    }

    /// How many cells somebody stands in.
    pub fn occupied_cell_count(&self) -> (r: usize)
        requires
            self.wf(),
        ensures
            r as nat == self.occupied().len(),
    {
        proof {
            let ids = tables::buckets(self.cells).dom();
            let f = |id: u64| cell_of(id);
            assert forall|id: u64| #[trigger] cell_id(cell_of(id)) == id by {
                cell_ids_are_one_to_one((0, 0), id);
            }
            assert forall|c: (i32, i32)| #[trigger] cell_of(cell_id(c)) == c by {
                cell_ids_are_one_to_one(c, 0);
            }
            assert(ids.map(f) =~= self.occupied()) by {
                assert forall|c: (i32, i32)| self.occupied().contains(c) implies ids.map(f).contains(c) by {
                    assert(ids.contains(cell_id(c)) && f(cell_id(c)) == c);
                }
            }
            assert forall|a: u64, b: u64|
                #![trigger f(a), f(b)]
                ids.contains(a) && ids.contains(b) && f(a) == f(b) implies a == b by {
                assert(cell_id(cell_of(a)) == cell_id(cell_of(b)));
            }
            vstd::set_lib::lemma_map_size(ids, self.occupied(), f);
        }
        tables::buckets_len(&self.cells)
    }

    /// Who stands in `cell`, if anybody does.
    pub fn cell_occupants(&self, cell: (i32, i32)) -> (r: Option<&Vec<Occupant>>)
        requires
            self.wf(),
        ensures
            match r {
                Some(v) => v@ == self.occupants(cell) && v@.len() > 0,
                None => self.occupants(cell).len() == 0,
            },
    {
        tables::buckets_get(&self.cells, pack(cell))
    }

    /// Every cell that somebody stands in, once, in no particular order.
    pub fn iter_cells(&self) -> (r: Vec<(i32, i32)>)
        ensures
            r@.no_duplicates(),
            forall|c: (i32, i32)| #[trigger] r@.contains(c) <==> self.occupied().contains(c),
    {
        let ids = tables::buckets_keys(&self.cells);
        let mut r: Vec<(i32, i32)> = Vec::new();
        let mut i: usize = 0;
        while i < ids.len()
            invariant
                i <= ids.len(),
                r@ == Seq::new(i as nat, |j: int| cell_of(ids@[j])),
            decreases ids.len() - i,
        {
            r.push(unpack(ids[i]));
            i += 1;
            assert(r@ =~= Seq::new(i as nat, |j: int| cell_of(ids@[j])));
        }
        proof {
            assert forall|a: int, b: int| 0 <= a < r@.len() && 0 <= b < r@.len() && a != b implies r@[a] != r@[b] by {
                cell_ids_are_one_to_one((0, 0), ids@[a]);
                cell_ids_are_one_to_one((0, 0), ids@[b]);
            }
            assert forall|c: (i32, i32)| #[trigger] r@.contains(c) <==> self.occupied().contains(c) by {
                cell_ids_are_one_to_one(c, cell_id(c));
                if r@.contains(c) {
                    let j = choose|j: int| 0 <= j < r@.len() && r@[j] == c;
                    cell_ids_are_one_to_one(c, ids@[j]);
                    assert(ids@.contains(ids@[j]));
                }
                if self.occupied().contains(c) {
                    assert(ids@.contains(cell_id(c)));
                    let j = choose|j: int| 0 <= j < ids@.len() && ids@[j] == cell_id(c);
                    assert(r@[j] == c);
                }
            }
        }
        r
    }
}

proof fn lemma_concat_contains<A>(a: Seq<A>, b: Seq<A>, x: A)
    ensures
        (a + b).contains(x) <==> a.contains(x) || b.contains(x),
{
    if a.contains(x) {
        let i = choose|i: int| 0 <= i < a.len() && a[i] == x;
        assert((a + b)[i] == x);
    }
    if b.contains(x) {
        let i = choose|i: int| 0 <= i < b.len() && b[i] == x;
        assert((a + b)[a.len() + i] == x);
    }
    if (a + b).contains(x) {
        let i = choose|i: int| 0 <= i < (a + b).len() && (a + b)[i] == x;
        if i < a.len() {
            assert(a[i] == x);
        } else {
            assert(b[i - a.len()] == x);
        }
    }
}

/// A client stands where it was last seated, and nowhere else, and a visit of cells finds it
/// exactly if its cell is among them; nobody else is moved for it.
pub proof fn who_is_seated_is_found_there(
    index: &mut SpatialIndex,
    key: usize,
    cell: (i32, i32),
    u: (),
    after: &SpatialIndex,
    lo: (i32, i32),
    hi: (i32, i32),
    r: Vec<Occupant>,
    other: Occupant,
)
    requires
        old(index).wf(),
        call_ensures(SpatialIndex::move_client, (index, key, cell), u),
        *after == *final(index),
        call_ensures(SpatialIndex::visit, (after, lo, hi), r),
    ensures
        r@.contains(Occupant::Client(key)) <==> lo.0 <= cell.0 <= hi.0 && lo.1 <= cell.1 <= hi.1,
        other != Occupant::Client(key) ==> final(index).seat(other) == old(index).seat(other),
        r@.contains(other) <==> final(index).seat(other) is Some && lo.0 <= (final(index).seat(other)->0).0 <= hi.0
            && lo.1 <= (final(index).seat(other)->0).1 <= hi.1,
{
    let l = (lo.0 as int, lo.1 as int);
    let h = (hi.0 as int, hi.1 as int);
    final(index).a_visit_finds_who_is_seated(l, h, Occupant::Client(key));
    final(index).a_visit_finds_who_is_seated(l, h, other);
    assert(final(index).seat(Occupant::Client(key)) == Some(cell));
}

/// The same of a creature.
pub proof fn a_seated_creature_is_found_there(
    index: &mut SpatialIndex,
    key: usize,
    cell: (i32, i32),
    u: (),
    after: &SpatialIndex,
    lo: (i32, i32),
    hi: (i32, i32),
    r: Vec<Occupant>,
    other: Occupant,
)
    requires
        old(index).wf(),
        call_ensures(SpatialIndex::move_creature, (index, key, cell), u),
        *after == *final(index),
        call_ensures(SpatialIndex::visit, (after, lo, hi), r),
    ensures
        r@.contains(Occupant::Creature(key)) <==> lo.0 <= cell.0 <= hi.0 && lo.1 <= cell.1 <= hi.1,
        other != Occupant::Creature(key) ==> final(index).seat(other) == old(index).seat(other),
{
    let l = (lo.0 as int, lo.1 as int);
    let h = (hi.0 as int, hi.1 as int);
    final(index).a_visit_finds_who_is_seated(l, h, Occupant::Creature(key));
    assert(final(index).seat(Occupant::Creature(key)) == Some(cell));
}

/// Whoever is no longer tracked stands nowhere, and everybody else where they stood.
pub proof fn who_is_removed_stands_nowhere(
    a: &mut SpatialIndex,
    b: &mut SpatialIndex,
    key: usize,
    u: (),
    v: (),
    other: Occupant,
)
    requires
        old(a).wf(),
        old(b).wf(),
        call_ensures(SpatialIndex::remove_client, (a, key), u),
        call_ensures(SpatialIndex::remove_creature, (b, key), v),
    ensures
        final(a).seat(Occupant::Client(key)) is None,
        other != Occupant::Client(key) ==> final(a).seat(other) == old(a).seat(other),
        final(b).seat(Occupant::Creature(key)) is None,
        other != Occupant::Creature(key) ==> final(b).seat(other) == old(b).seat(other),
{
}

/// Whoever is tracked already stays where they stand when they are put in again; others stand
/// where they are put.
pub proof fn who_is_put_in_stands_there(
    a: &mut SpatialIndex,
    b: &mut SpatialIndex,
    key: usize,
    cell: (i32, i32),
    u: (),
    v: (),
)
    requires
        old(a).wf(),
        old(b).wf(),
        call_ensures(SpatialIndex::insert_client, (a, key, cell), u),
        call_ensures(SpatialIndex::insert_creature, (b, key, cell), v),
    ensures
        old(a).seat(Occupant::Client(key)) is None ==> final(a).seat(Occupant::Client(key)) == Some(cell),
        old(a).seat(Occupant::Client(key)) is Some ==> final(a).seat(Occupant::Client(key)) == old(a).seat(
            Occupant::Client(key),
        ),
        old(b).seat(Occupant::Creature(key)) is None ==> final(b).seat(Occupant::Creature(key)) == Some(cell),
        old(b).seat(Occupant::Creature(key)) is Some ==> final(b).seat(Occupant::Creature(key)) == old(b).seat(
            Occupant::Creature(key),
        ),
{
}

/// A cell is what it was packed from.
pub proof fn cells_are_unpacked_as_packed(cell: (i32, i32), id: u64, back: (i32, i32))
    requires
        call_ensures(pack, (cell,), id),
        call_ensures(unpack, (id,), back),
    ensures
        back == cell,
{
    cell_ids_are_one_to_one(cell, id);
}

} // verus!

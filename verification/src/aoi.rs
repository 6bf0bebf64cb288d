//! Who sees whom.
//!
//! Each tick, what every client shows is compared with what is near it. What
//! came near is announced, what is out of range is withdrawn, and what flips
//! back and forth at the edge is left as it is for a while.
use crate::client::{Client, ClientView};
use crate::clock;
use crate::creature::Creature;
use crate::keyed::KeyedTable;
use crate::map_state::{MapState, MapView};
use crate::movement::Place;
use crate::notice::Notice;
use crate::numeric;
use crate::slabs;
use crate::spatial;
use crate::spatial::Occupant;
use crate::tables;
use ahash::AHashSet;
use vstd::prelude::*;

verus! {

/// How far things are heard of on the ground: four hundred yards.
pub const AOI_RADIUS_YARDS: u32 = 0x43c8_0000;

/// The same, squared.
pub const AOI_RADIUS_SQ: u32 = 0x481c_4000;

/// Whether somebody hears of what happens at a place, given the square of how far away
/// on the ground they are. What is no number is not near.
pub fn within_aoi(dist_sq: u32) -> (r: bool)
    ensures
        r == numeric::at_most(dist_sq, AOI_RADIUS_SQ),
{
    numeric::is_at_most(dist_sq, AOI_RADIUS_SQ)
}

/// An entity as others see it.
#[derive(Debug, Clone, Copy)]
pub struct EntityView {
    pub guid: u64,
    pub position: Place,
    pub is_client: bool,
}

/// Who stood in which cell of a map when the tick began.
pub struct AoiSnapshot {
    map: u32,
    cells: KeyedTable<Vec<EntityView>>,
}

impl AoiSnapshot {
    pub closed spec fn wf(&self) -> bool {
        self.cells.wf()
    }

    pub closed spec fn map(&self) -> u32 {
        self.map
    }

    /// Who stood in `cell`.
    pub closed spec fn at(&self, cell: (i32, i32)) -> Seq<EntityView> {
        if self.cells@.contains_key(spatial::cell_id(cell)) {
            self.cells@[spatial::cell_id(cell)]@
        } else {
            Seq::empty()
        }
    }

    /// Whether `v` is somebody that the observer might see: it stood in one of
    /// the cells around the observer, and is not the observer.
    pub open spec fn is_candidate(&self, v: EntityView, observer: u64, map: u32, cell: (i32, i32), radius: int) -> bool {
        &&& map == self.map()
        &&& !(v.is_client && v.guid == observer)
        &&& exists|c: (i32, i32)|
            cell.0 - radius <= c.0 <= cell.0 + radius && cell.1 - radius <= c.1 <= cell.1 + radius
                && #[trigger] self.at(c).contains(v)
    }

    /// Who stood in the cell `(x, y)` and is not the observer.
    pub open spec fn others_at(&self, observer: u64, x: int, y: int) -> Seq<EntityView> {
        if i32::MIN <= x <= i32::MAX && i32::MIN <= y <= i32::MAX {
            self.at((x as i32, y as i32)).filter(|v: EntityView| !(v.is_client && v.guid == observer))
        } else {
            Seq::empty()
        }
    }

    /// The others in the cells of the column `x` from `lo` on, below `hi`.
    pub open spec fn column(&self, observer: u64, x: int, lo: int, hi: int) -> Seq<EntityView>
        decreases hi - lo,
    {
        if hi <= lo {
            Seq::empty()
        } else {
            self.column(observer, x, lo, hi - 1) + self.others_at(observer, x, hi - 1)
        }
    }

    /// The others in the columns from `lo.0` on, below `hi.0`.
    pub open spec fn columns(&self, observer: u64, lo: (int, int), hi: (int, int)) -> Seq<EntityView>
        decreases hi.0 - lo.0,
    {
        if hi.0 <= lo.0 {
            Seq::empty()
        } else {
            self.columns(observer, lo, (hi.0 - 1, hi.1)) + self.column(observer, hi.0 - 1, lo.1, hi.1)
        }
    }

    /// Everybody that an observer in `cell` might see, column by column.
    pub open spec fn around(&self, observer: u64, map: u32, cell: (i32, i32), radius: int) -> Seq<EntityView> {
        if map == self.map() {
            self.columns(
                observer,
                (cell.0 - radius, cell.1 - radius),
                (cell.0 + radius + 1, cell.1 + radius + 1),
            )
        } else {
            Seq::empty()
        }
    }

    /// Everybody that an observer in `cell` might see, from the cells at most
    /// `radius` away on each axis.
    pub fn candidates(&self, observer: u64, map: u32, cell: (i32, i32), radius: u16) -> (r: Vec<EntityView>)
        requires
            self.wf(),
        ensures
            r@ == self.around(observer, map, cell, radius as int),
    {
        let mut r: Vec<EntityView> = Vec::new();
        if map != self.map {
            return r;
        }
        let lo_x: i64 = cell.0 as i64 - radius as i64;
        let hi_x: i64 = cell.0 as i64 + radius as i64;
        let lo_y: i64 = cell.1 as i64 - radius as i64;
        let hi_y: i64 = cell.1 as i64 + radius as i64;
        let ghost lo = (lo_x as int, lo_y as int);
        let mut x: i64 = lo_x;
        while x <= hi_x
            invariant
                self.wf(),
                lo_x <= x <= hi_x + 1,
                i32::MIN - 0x1_0000 <= lo_x <= hi_x <= i32::MAX + 0x1_0000,
                i32::MIN - 0x1_0000 <= lo_y <= hi_y <= i32::MAX + 0x1_0000,
                lo == (lo_x as int, lo_y as int),
                r@ == self.columns(observer, lo, (x as int, hi_y + 1)),
            decreases hi_x + 1 - x,
        {
            let ghost before = r@;
            let mut y: i64 = lo_y;
            assert(r@ =~= before + self.column(observer, x as int, lo_y as int, y as int));
            while y <= hi_y
                invariant
                    self.wf(),
                    lo_y <= y <= hi_y + 1,
                    i32::MIN - 0x1_0000 <= lo_y <= hi_y <= i32::MAX + 0x1_0000,
                    r@ == before + self.column(observer, x as int, lo_y as int, y as int),
                decreases hi_y + 1 - y,
            {
                self.push_others(observer, x, y, &mut r);
                y += 1;
                assert(r@ =~= before + self.column(observer, x as int, lo_y as int, y as int));
            }
            x += 1;
        }
        r
    }

    fn push_others(&self, observer: u64, x: i64, y: i64, r: &mut Vec<EntityView>)
        requires
            self.wf(),
        ensures
            final(r)@ == old(r)@ + self.others_at(observer, x as int, y as int),
    {
        let ghost was = r@;
        if !(-0x8000_0000 <= x && x <= 0x7fff_ffff && -0x8000_0000 <= y && y <= 0x7fff_ffff) {
            assert(r@ =~= was + self.others_at(observer, x as int, y as int));
            return;
        }
        let ghost other = |v: EntityView| !(v.is_client && v.guid == observer);
        let ghost here = self.at((x as i32, y as i32));
        let id: u64 = spatial::pack((x as i32, y as i32));
        reveal(Seq::filter);
        if let Some(views) = self.cells.get(id) {
            let mut i: usize = 0;
            assert(r@ =~= was + here.take(0).filter(other));
            while i < views.len()
                invariant
                    i <= views.len(),
                    views@ == here,
                    other == (|v: EntityView| !(v.is_client && v.guid == observer)),
                    r@ == was + here.take(i as int).filter(other),
                decreases views.len() - i,
            {
                reveal(Seq::filter);
                let v = views[i];
                assert(here.take(i + 1).drop_last() =~= here.take(i as int));
                assert(here.take(i + 1).last() == v);
                if !(v.is_client && v.guid == observer) {
                    r.push(v);
                }
                i += 1;
                assert(r@ =~= was + here.take(i as int).filter(other));
            }
            assert(here.take(i as int) =~= here);
        } else {
            assert(here =~= Seq::<EntityView>::empty());
            assert(r@ =~= was + here.filter(other));
        }
    }

    proof fn lemma_column(&self, v: EntityView, observer: u64, x: int, lo: int, hi: int)
        ensures
            self.column(observer, x, lo, hi).contains(v) <==> exists|y: int|
                lo <= y < hi && (#[trigger] self.others_at(observer, x, y)).contains(v),
        decreases hi - lo,
    {
        if hi > lo {
            self.lemma_column(v, observer, x, lo, hi - 1);
            lemma_join_contains(self.column(observer, x, lo, hi - 1), self.others_at(observer, x, hi - 1), v);
            if self.column(observer, x, lo, hi).contains(v) && !self.others_at(observer, x, hi - 1).contains(v) {
                let y = choose|y: int| lo <= y < hi - 1 && (#[trigger] self.others_at(observer, x, y)).contains(v);
                assert(self.others_at(observer, x, y).contains(v));
            }
        }
    }

    proof fn lemma_columns(&self, v: EntityView, observer: u64, lo: (int, int), hi: (int, int))
        ensures
            self.columns(observer, lo, hi).contains(v) <==> exists|x: int, y: int|
                lo.0 <= x < hi.0 && lo.1 <= y < hi.1 && (#[trigger] self.others_at(observer, x, y)).contains(v),
        decreases hi.0 - lo.0,
    {
        if hi.0 > lo.0 {
            let prior = (hi.0 - 1, hi.1);
            self.lemma_columns(v, observer, lo, prior);
            self.lemma_column(v, observer, hi.0 - 1, lo.1, hi.1);
            lemma_join_contains(
                self.columns(observer, lo, prior),
                self.column(observer, hi.0 - 1, lo.1, hi.1),
                v,
            );
            if self.columns(observer, lo, prior).contains(v) {
                let (x, y) = choose|x: int, y: int|
                    lo.0 <= x < prior.0 && lo.1 <= y < prior.1 && (#[trigger] self.others_at(observer, x, y)).contains(v);
                assert(lo.0 <= x < hi.0 && self.others_at(observer, x, y).contains(v));
            }
            if self.column(observer, hi.0 - 1, lo.1, hi.1).contains(v) {
                let y = choose|y: int|
                    lo.1 <= y < hi.1 && (#[trigger] self.others_at(observer, hi.0 - 1, y)).contains(v);
                assert(self.others_at(observer, hi.0 - 1, y).contains(v));
            }
        }
    }

    /// Whom an observer might see is who stood in a cell that is not too far away,
    /// wherever that is, and is not the observer.
    pub proof fn who_stood_near_might_be_seen(
        &self,
        v: EntityView,
        observer: u64,
        map: u32,
        cell: (i32, i32),
        radius: int,
    )
        ensures
            self.around(observer, map, cell, radius).contains(v) <==> self.is_candidate(v, observer, map, cell, radius),
    {
        let lo = (cell.0 - radius, cell.1 - radius);
        let hi = (cell.0 + radius + 1, cell.1 + radius + 1);
        let other = |w: EntityView| !(w.is_client && w.guid == observer);
        self.lemma_columns(v, observer, lo, hi);
        if self.is_candidate(v, observer, map, cell, radius) {
            let c = choose|c: (i32, i32)|
                cell.0 - radius <= c.0 <= cell.0 + radius && cell.1 - radius <= c.1 <= cell.1 + radius
                    && #[trigger] self.at(c).contains(v);
            lemma_filter_contains(self.at(c), other, v);
            assert(c == (c.0 as int as i32, c.1 as int as i32));
            assert(self.others_at(observer, c.0 as int, c.1 as int).contains(v));
        }
        if self.around(observer, map, cell, radius).contains(v) {
            let (x, y) = choose|x: int, y: int|
                lo.0 <= x < hi.0 && lo.1 <= y < hi.1 && (#[trigger] self.others_at(observer, x, y)).contains(v);
            lemma_filter_contains(self.at((x as i32, y as i32)), other, v);
            assert(self.at((x as i32, y as i32)).contains(v));
        }
    }
}

proof fn lemma_join_contains<A>(a: Seq<A>, b: Seq<A>, x: A)
    ensures
        (a + b).contains(x) <==> a.contains(x) || b.contains(x),
{
    if a.contains(x) {
        let i = choose|i: int| 0 <= i < a.len() && a[i] == x;
        assert((a + b)[i] == x);
    }
    if b.contains(x) {
        let i = choose|i: int| 0 <= i < b.len() && b[i] == x;
        assert((a + b)[a.len() + i] == x);
    }
    if (a + b).contains(x) {
        let i = choose|i: int| 0 <= i < (a + b).len() && (a + b)[i] == x;
        if i < a.len() {
            assert(a[i] == x);
        } else {
            assert(b[i - a.len()] == x);
        }
    }
}

proof fn lemma_filter_contains<A>(s: Seq<A>, f: spec_fn(A) -> bool, x: A)
    ensures
        s.filter(f).contains(x) <==> s.contains(x) && f(x),
    decreases s.len(),
{
    reveal(Seq::filter);
    if s.len() > 0 {
        lemma_filter_contains(s.drop_last(), f, x);
        lemma_push_contains(s.drop_last(), s.last(), x);
        assert(s =~= s.drop_last().push(s.last()));
        lemma_push_contains(s.drop_last().filter(f), s.last(), x);
    }
}

pub(crate) proof fn lemma_push_contains<A>(s: Seq<A>, x: A, y: A)
    ensures
        s.push(x).contains(y) <==> s.contains(y) || x == y,
{
    if s.contains(y) {
        let i = choose|i: int| 0 <= i < s.len() && s[i] == y;
        assert(s.push(x)[i] == y);
    }
    if x == y {
        assert(s.push(x)[s.len() as int] == y);
    }
    if s.push(x).contains(y) && x != y {
        let i = choose|i: int| 0 <= i < s.push(x).len() && s.push(x)[i] == y;
        assert(s[i] == y);
    }
}

pub(crate) proof fn lemma_push_unique<A>(s: Seq<A>, x: A)
    requires
        s.no_duplicates(),
        !s.contains(x),
    ensures
        s.push(x).no_duplicates(),
{
    assert forall|i: int, j: int| 0 <= i < s.push(x).len() && 0 <= j < s.push(x).len() && i != j implies s.push(x)[i]
        != s.push(x)[j] by {
        if i < s.len() {
            assert(s.contains(s[i]));
        }
        if j < s.len() {
            assert(s.contains(s[j]));
        }
    }
}

impl MapView {
    /// An occupant of a cell as others see it.
    pub open spec fn seen(self, occ: Occupant) -> EntityView {
        match occ {
            Occupant::Client(k) => EntityView {
                guid: self.clients[k].character.guid,
                position: self.clients[k].character.info.position,
                is_client: true,
            },
            Occupant::Creature(k) => EntityView {
                guid: self.creatures[k].guid,
                position: self.creatures[k].info.position,
                is_client: false,
            },
        }
    }
}

impl MapState {
    fn see(&self, occ: Occupant) -> (r: EntityView)
        requires
            match occ {
                Occupant::Client(k) => self@.clients.contains_key(k),
                Occupant::Creature(k) => self@.creatures.contains_key(k),
            },
        ensures
            r == self@.seen(occ),
    {
        match occ {
            Occupant::Client(k) => {
                let c = slabs::clients_get(&self.clients, k).unwrap();
                assert(self@.clients[k] == c@);
                EntityView { guid: c.character.guid, position: c.character.info.position, is_client: true }
            },
            Occupant::Creature(k) => {
                let c = slabs::creatures_get(&self.creatures, k).unwrap();
                EntityView { guid: c.guid, position: c.info.position, is_client: false }
            },
        }
    }

    /// Take down who stands in which cell.
    pub fn build_local_aoi_snapshot(&self) -> (r: AoiSnapshot)
        requires
            self.wf(),
            self@.index_is_live(),
        ensures
            r.wf(),
            r.map() == self.map,
            forall|c: (i32, i32)| #[trigger] r.at(c) == self.index.occupants(c).map_values(|o: Occupant| self@.seen(o)),
    {
        let mut cells: KeyedTable<Vec<EntityView>> = KeyedTable::new();
        let all = self.index.iter_cells();
        let mut i: usize = 0;
        while i < all.len()
            invariant
                i <= all.len(),
                self.wf(),
                self@.index_is_live(),
                cells.wf(),
                all@.no_duplicates(),
                forall|c: (i32, i32)| #[trigger] all@.contains(c) <==> self.index.occupied().contains(c),
                forall|j: int|
                    #![trigger all@[j]]
                    0 <= j < i ==> cells@.contains_key(spatial::cell_id(all@[j])) && cells@[spatial::cell_id(all@[j])]@
                        == self.index.occupants(all@[j]).map_values(|o: Occupant| self@.seen(o)),
                forall|id: u64| #[trigger]
                    cells@.contains_key(id) ==> exists|j: int| 0 <= j < i && spatial::cell_id(#[trigger] all@[j]) == id,
            decreases all.len() - i,
        {
            let cell: (i32, i32) = all[i];
            assert(all@.contains(cell));
            proof {
                self.index.occupants_are_the_seated(cell, Occupant::Client(0));
            }
            let mut views: Vec<EntityView> = Vec::new();
            if let Some(occupants) = self.index.cell_occupants(cell) {
                let mut n: usize = 0;
                while n < occupants.len()
                    invariant
                        n <= occupants.len(),
                        self.wf(),
                        self@.index_is_live(),
                        occupants@ == self.index.occupants(cell),
                        views@ == occupants@.take(n as int).map_values(|o: Occupant| self@.seen(o)),
                    decreases occupants.len() - n,
                {
                    let occ = occupants[n];
                    proof {
                        assert(occupants@.contains(occ));
                        self.index.occupants_are_the_seated(cell, occ);
                        match occ {
                            Occupant::Client(k) => assert(self@.client_cells.contains_key(k)),
                            Occupant::Creature(k) => assert(self@.creature_cells.contains_key(k)),
                        }
                    }
                    views.push(self.see(occ));
                    n += 1;
                    assert(views@ =~= occupants@.take(n as int).map_values(|o: Occupant| self@.seen(o)));
                }
                assert(occupants@.take(n as int) =~= occupants@);
            }
            assert(views@ =~= self.index.occupants(cell).map_values(|o: Occupant| self@.seen(o)));
            let ghost before = cells@;
            cells.insert(spatial::pack(cell), views);
            proof {
                assert forall|j: int|
                    #![trigger all@[j]]
                    0 <= j < i + 1 implies cells@.contains_key(spatial::cell_id(all@[j])) && cells@[spatial::cell_id(
                    all@[j],
                )]@ == self.index.occupants(all@[j]).map_values(|o: Occupant| self@.seen(o)) by {
                    if j < i {
                        spatial::cell_ids_are_one_to_one(all@[j], 0);
                        spatial::cell_ids_are_one_to_one(cell, 0);
                    }
                }
                assert forall|id: u64| #[trigger] cells@.contains_key(id) implies exists|j: int|
                    0 <= j < i + 1 && spatial::cell_id(#[trigger] all@[j]) == id by {
                    if id == spatial::cell_id(cell) {
                        assert(spatial::cell_id(all@[i as int]) == id);
                    } else {
                        assert(before.contains_key(id));
                        let j = choose|j: int| 0 <= j < i && spatial::cell_id(#[trigger] all@[j]) == id;
                        assert(spatial::cell_id(all@[j]) == id);
                    }
                }
            }
            i += 1;
        }
        let r = AoiSnapshot { map: self.map, cells };
        proof {
            assert forall|c: (i32, i32)| #[trigger] r.at(c) == self.index.occupants(c).map_values(
                |o: Occupant| self@.seen(o),
            ) by {
                self.index.occupants_are_the_seated(c, Occupant::Client(0));
                if all@.contains(c) {
                    let j = choose|j: int| 0 <= j < all@.len() && all@[j] == c;
                    assert(cells@.contains_key(spatial::cell_id(all@[j])));
                } else {
                    if cells@.contains_key(spatial::cell_id(c)) {
                        let j = choose|j: int| 0 <= j < all@.len() && spatial::cell_id(#[trigger] all@[j])
                            == spatial::cell_id(c);
                        spatial::cell_ids_are_one_to_one(all@[j], 0);
                        spatial::cell_ids_are_one_to_one(c, 0);
                        assert(all@[j] == c);
                        assert(false);
                    }
                    assert(self.index.occupants(c).map_values(|o: Occupant| self@.seen(o)) =~= Seq::<EntityView>::empty());
                }
            }
        }
        r
    }
}

/// How long ago the entity appeared or vanished, if that is still recent.
pub open spec fn is_cooling(transitions: Map<u64, u64>, guid: u64, now: u64, cooldown: u64) -> bool {
    transitions.contains_key(guid) && clock::since_spec(now, transitions[guid]) < cooldown
}

/// Whether the entity is shown and not near, or near and not shown.
pub open spec fn flips(shown: Set<u64>, near: Set<u64>, guid: u64) -> bool {
    shown.contains(guid) != near.contains(guid)
}

/// What is shown from now on: what is near, but an entity that appeared or
/// vanished a short while ago is left as it is.
pub open spec fn settled(shown: Set<u64>, near: Set<u64>, transitions: Map<u64, u64>, now: u64, cooldown: u64) -> Set<u64> {
    Set::new(
        |g: u64|
            if flips(shown, near, g) && is_cooling(transitions, g, now, cooldown) {
                shown.contains(g)
            } else {
                near.contains(g)
            },
    )
}

/// The time at which the entity last appeared or vanished, with what happens
/// now.
pub open spec fn stamp(
    shown: Set<u64>,
    near: Set<u64>,
    transitions: Map<u64, u64>,
    guid: u64,
    now: u64,
    cooldown: u64,
) -> Option<u64> {
    if flips(shown, near, guid) && !is_cooling(transitions, guid, now, cooldown) {
        Some(now)
    } else if transitions.contains_key(guid) {
        Some(transitions[guid])
    } else {
        None
    }
}

/// The times that are kept: those that are recent.
pub open spec fn stamps(
    shown: Set<u64>,
    near: Set<u64>,
    transitions: Map<u64, u64>,
    now: u64,
    cooldown: u64,
) -> Map<u64, u64> {
    Map::new(
        |g: u64|
            stamp(shown, near, transitions, g, now, cooldown) is Some && clock::since_spec(
                now,
                stamp(shown, near, transitions, g, now, cooldown)->0,
            ) < cooldown,
        |g: u64| stamp(shown, near, transitions, g, now, cooldown)->0,
    )
}

/// What one client is told in one tick.
#[derive(Debug)]
pub struct AoiChange {
    pub departed: Vec<u64>,
    pub entered: Vec<u64>,
    pub fast_path: bool,
    pub suppressed: usize,
}

/// What a client shows and is told, given what is near it.
pub open spec fn is_change(was: ClientView, near: Set<u64>, now: u64, cooldown: u64, is: ClientView, r: AoiChange) -> bool {
    if near == was.visible {
        &&& is == was
        &&& r.fast_path
        &&& r.departed@.len() == 0
        &&& r.entered@.len() == 0
        &&& r.suppressed == 0
    } else {
        let settled = settled(was.visible, near, was.transitions, now, cooldown);
        &&& is == (ClientView {
            visible: settled,
            transitions: stamps(was.visible, near, was.transitions, now, cooldown),
            ..was
        })
        &&& !r.fast_path
        &&& tables::lists(r.departed@, was.visible.difference(settled))
        &&& tables::lists(r.entered@, settled.difference(was.visible))
        &&& r.suppressed == Set::new(
            |g: u64| flips(was.visible, near, g) && is_cooling(was.transitions, g, now, cooldown),
        ).len()
    }
}

/// What is announced and withdrawn makes up the difference: nothing is both,
/// and what is shown afterwards is what was shown, without what is withdrawn
/// and with what is announced.
pub proof fn the_news_make_up_the_difference(
    was: ClientView,
    near: Set<u64>,
    now: u64,
    cooldown: u64,
    is: ClientView,
    r: AoiChange,
    guid: u64,
)
    requires
        is_change(was, near, now, cooldown, is, r),
    ensures
        !(r.departed@.contains(guid) && r.entered@.contains(guid)),
        is.visible.contains(guid) <==> (was.visible.contains(guid) && !r.departed@.contains(guid))
            || r.entered@.contains(guid),
{
}

/// An entity whose appearance or disappearance was told at `then` is left as it
/// is until the cooldown is over, wherever it goes.
pub proof fn no_entity_flaps(
    was: ClientView,
    near: Set<u64>,
    then: u64,
    now: u64,
    cooldown: u64,
    between: ClientView,
    told: AoiChange,
    near_again: Set<u64>,
    is: ClientView,
    r: AoiChange,
    guid: u64,
)
    requires
        is_change(was, near, then, cooldown, between, told),
        told.departed@.contains(guid) || told.entered@.contains(guid),
        is_change(between, near_again, now, cooldown, is, r),
        then <= now,
        now - then < cooldown,
    ensures
        !r.departed@.contains(guid),
        !r.entered@.contains(guid),
        is.visible.contains(guid) == between.visible.contains(guid),
{
    assert(flips(was.visible, near, guid));
    assert(!is_cooling(was.transitions, guid, then, cooldown));
    assert(between.transitions.contains_key(guid));
    assert(between.transitions[guid] == then);
}

/// Without a cooldown, a client shows exactly what is near it.
pub proof fn without_a_cooldown_the_near_are_shown(
    was: ClientView,
    near: Set<u64>,
    now: u64,
    is: ClientView,
    r: AoiChange,
)
    requires
        is_change(was, near, now, 0, is, r),
    ensures
        is.visible == near,
{
    assert(is.visible =~= near);
}

/// The index knows exactly the clients that are on the map, also after somebody
/// entered, left, or was held out for a moment and put back.
pub proof fn comings_and_goings_keep_the_index_live(
    v: MapView,
    key: usize,
    c: ClientView,
    near: Seq<usize>,
    beasts: Seq<usize>,
)
    requires
        v.index_is_live(),
        v.indexed(),
    ensures
        v.client_inserted(key, c).index_is_live() && v.client_inserted(key, c).indexed(),
        v.welcomed(key, c, near, beasts).index_is_live() && v.welcomed(key, c, near, beasts).indexed(),
        v.client_removed(key).index_is_live() && v.client_removed(key).indexed(),
        v.client_taken(key).client_returned(key, c).index_is_live(),
        v.client_taken(key).client_returned(key, c).indexed(),
{
}

/// A creature is in the index exactly as long as it is not waiting to come back, also
/// after one was put on the map under a new key, was killed, moved, rotted away or came
/// back.
pub proof fn creatures_keep_the_index_live(v: MapView, key: usize, c: Creature, now: u64, near: Seq<usize>)
    requires
        v.index_is_live(),
        v.indexed(),
    ensures
        !v.creatures.contains_key(key) ==> v.spawned(key, c, near).index_is_live() && v.spawned(key, c, near).indexed(),
        v.killed(key, now).index_is_live() && v.killed(key, now).indexed(),
        v.reseated(key).index_is_live() && v.reseated(key).indexed(),
        v.decayed(key, now).index_is_live() && v.decayed(key, now).indexed(),
        v.revived(key, now, near).index_is_live() && v.revived(key, now, near).indexed(),
{
}

/// Compare what the client shows with what is near it.
fn diff(c: &mut Client, near: AHashSet<u64>, now: u64, cooldown: u64) -> (r: AoiChange)
    ensures
        is_change(old(c)@, tables::members(near), now, cooldown, final(c)@, r),
{
    let ghost was = c@;
    let ghost shown = c@.visible;
    let ghost fresh = tables::members(near);
    let shown_items = tables::members_items(&c.session.visible_entities);
    let near_items = tables::members_items(&near);
    // Who flips, once each.
    let mut changed: Vec<u64> = Vec::new();
    let mut i: usize = 0;
    while i < shown_items.len()
        invariant
            i <= shown_items.len(),
            c@ == was,
            shown == was.visible,
            fresh == tables::members(near),
            tables::lists(shown_items@, shown),
            changed@.no_duplicates(),
            forall|g: u64| #[trigger]
                changed@.contains(g) <==> shown_items@.take(i as int).contains(g) && !fresh.contains(g),
        decreases shown_items.len() - i,
    {
        let g: u64 = shown_items[i];
        proof {
            assert(shown_items@.take(i + 1) =~= shown_items@.take(i as int).push(g));
            assert(!shown_items@.take(i as int).contains(g)) by {
                if shown_items@.take(i as int).contains(g) {
                    let j = choose|j: int| 0 <= j < i && shown_items@.take(i as int)[j] == g;
                    assert(shown_items@[j] == g);
                }
            }
        }
        let ghost before = changed@;
        if !tables::members_contains(&near, g) {
            proof {
                lemma_push_unique(before, g);
            }
            changed.push(g);
        }
        proof {
            assert forall|x: u64| #[trigger]
                changed@.contains(x) <==> shown_items@.take(i + 1).contains(x) && !fresh.contains(x) by {
                lemma_push_contains(shown_items@.take(i as int), g, x);
                lemma_push_contains(before, g, x);
                assert(before.contains(x) <==> shown_items@.take(i as int).contains(x) && !fresh.contains(x));
            }
        }
        i += 1;
    }
    assert(shown_items@.take(i as int) =~= shown_items@);
    let mut n: usize = 0;
    assert forall|g: u64| #[trigger] changed@.contains(g) <==> (shown.contains(g) && !fresh.contains(g)) || (
    near_items@.take(0).contains(g) && !shown.contains(g)) by {
        assert(shown_items@.contains(g) <==> shown.contains(g));
    }
    while n < near_items.len()
        invariant
            n <= near_items.len(),
            c@ == was,
            shown == was.visible,
            fresh == tables::members(near),
            tables::lists(near_items@, fresh),
            changed@.no_duplicates(),
            forall|g: u64| #[trigger]
                changed@.contains(g) <==> (shown.contains(g) && !fresh.contains(g)) || (near_items@.take(
                    n as int,
                ).contains(g) && !shown.contains(g)),
        decreases near_items.len() - n,
    {
        let g: u64 = near_items[n];
        proof {
            assert(near_items@.take(n + 1) =~= near_items@.take(n as int).push(g));
            assert(!near_items@.take(n as int).contains(g)) by {
                if near_items@.take(n as int).contains(g) {
                    let j = choose|j: int| 0 <= j < n && near_items@.take(n as int)[j] == g;
                    assert(near_items@[j] == g);
                }
            }
            assert(near_items@.contains(g));
        }
        let ghost before = changed@;
        if !tables::members_contains(&c.session.visible_entities, g) {
            proof {
                lemma_push_unique(before, g);
            }
            changed.push(g);
        }
        proof {
            assert forall|x: u64| #[trigger]
                changed@.contains(x) <==> (shown.contains(x) && !fresh.contains(x)) || (near_items@.take(
                    n + 1,
                ).contains(x) && !shown.contains(x)) by {
                lemma_push_contains(near_items@.take(n as int), g, x);
                lemma_push_contains(before, g, x);
                assert(before.contains(x) <==> (shown.contains(x) && !fresh.contains(x)) || (near_items@.take(
                    n as int,
                ).contains(x) && !shown.contains(x)));
            }
        }
        n += 1;
    }
    proof {
        assert(near_items@.take(n as int) =~= near_items@);
        assert forall|g: u64| #[trigger] changed@.contains(g) <==> flips(shown, fresh, g) by {
            assert(near_items@.contains(g) <==> fresh.contains(g));
        }
    }
    if changed.len() == 0 {
        proof {
            assert(fresh =~= shown) by {
                assert forall|g: u64| fresh.contains(g) <==> shown.contains(g) by {
                    if flips(shown, fresh, g) {
                        assert(changed@.contains(g));
                    }
                }
            }
        }
        return AoiChange { departed: Vec::new(), entered: Vec::new(), fast_path: true, suppressed: 0 };
    }
    proof {
        assert(changed@.contains(changed@[0]));
        assert(flips(shown, fresh, changed@[0]));
        assert(fresh != shown);
    }
    settle(c, near, changed, now, cooldown)
}

/// Settle who flips: the entities of `changed`.
fn settle(c: &mut Client, near: AHashSet<u64>, changed: Vec<u64>, now: u64, cooldown: u64) -> (r: AoiChange)
    requires
        tables::members(near) != old(c)@.visible,
        changed@.no_duplicates(),
        forall|g: u64| #[trigger] changed@.contains(g) <==> flips(old(c)@.visible, tables::members(near), g),
    ensures
        is_change(old(c)@, tables::members(near), now, cooldown, final(c)@, r),
{
    let ghost was = c@;
    let ghost shown = c@.visible;
    let ghost fresh = tables::members(near);
    let ghost times = c@.transitions;
    let ghost goal = settled(shown, fresh, times, now, cooldown);
    let mut near = near;
    let mut departed: Vec<u64> = Vec::new();
    let mut entered: Vec<u64> = Vec::new();
    let mut suppressed: usize = 0;
    let ghost cooling = Set::new(|g: u64| flips(shown, fresh, g) && is_cooling(times, g, now, cooldown));
    let ghost mut held = Set::<u64>::empty();
    let mut i: usize = 0;
    while i < changed.len()
        invariant
            i <= changed.len(),
            changed@.no_duplicates(),
            forall|g: u64| #[trigger] changed@.contains(g) <==> flips(shown, fresh, g),
            goal == settled(shown, fresh, times, now, cooldown),
            cooling == Set::new(|g: u64| flips(shown, fresh, g) && is_cooling(times, g, now, cooldown)),
            c@ == (ClientView { transitions: c@.transitions, ..was }),
            shown == was.visible,
            times == was.transitions,
            held == cooling.intersect(changed@.take(i as int).to_set()),
            held.finite(),
            suppressed == held.len(),
            suppressed <= i,
            forall|g: u64| #[trigger]
                tables::members(near).contains(g) <==> (if changed@.take(i as int).contains(g) {
                    goal.contains(g)
                } else {
                    fresh.contains(g)
                }),
            forall|g: u64| #[trigger]
                c@.transitions.contains_key(g) <==> (times.contains_key(g) || (changed@.take(i as int).contains(g)
                    && !is_cooling(times, g, now, cooldown))),
            forall|g: u64| #[trigger]
                c@.transitions.contains_key(g) ==> c@.transitions[g] == (if changed@.take(i as int).contains(g)
                    && !is_cooling(times, g, now, cooldown) {
                    now
                } else {
                    times[g]
                }),
            departed@.no_duplicates(),
            entered@.no_duplicates(),
            forall|g: u64| #[trigger]
                departed@.contains(g) <==> changed@.take(i as int).contains(g) && shown.contains(g) && !goal.contains(g),
            forall|g: u64| #[trigger]
                entered@.contains(g) <==> changed@.take(i as int).contains(g) && !shown.contains(g) && goal.contains(g),
        decreases changed.len() - i,
    {
        let g: u64 = changed[i];
        let ghost a = changed@.take(i as int);
        let ghost b = changed@.take(i + 1);
        proof {
            assert(changed@.contains(g));
            assert(b =~= a.push(g));
            assert(!a.contains(g)) by {
                if a.contains(g) {
                    let j = choose|j: int| 0 <= j < a.len() && a[j] == g;
                    assert(changed@[j] == g);
                }
            }
            assert forall|x: u64| #[trigger] b.contains(x) <==> a.contains(x) || x == g by {
                lemma_push_contains(a, g, x);
            }
        }
        let was_shown: bool = tables::members_contains(&c.session.visible_entities, g);
        let cooling_now: bool = match tables::numbers_get(&c.session.aoi_transition_at, g) {
            Some(t) => clock::since(now, t) < cooldown,
            None => false,
        };
        assert(cooling_now == is_cooling(times, g, now, cooldown));
        let ghost d0 = departed@;
        let ghost e0 = entered@;
        if cooling_now {
            suppressed += 1;
            if was_shown {
                tables::members_insert(&mut near, g);
            } else {
                tables::members_remove(&mut near, g);
            }
            proof {
                assert(!held.contains(g));
                held = held.insert(g);
            }
        } else {
            tables::numbers_insert(&mut c.session.aoi_transition_at, g, now);
            if was_shown {
                proof {
                    lemma_push_unique(d0, g);
                }
                departed.push(g);
            } else {
                proof {
                    lemma_push_unique(e0, g);
                }
                entered.push(g);
            }
        }
        proof {
            assert(held =~= cooling.intersect(b.to_set()));
            assert forall|x: u64| #[trigger]
                departed@.contains(x) <==> b.contains(x) && shown.contains(x) && !goal.contains(x) by {
                lemma_push_contains(d0, g, x);
                assert(d0.contains(x) <==> a.contains(x) && shown.contains(x) && !goal.contains(x));
            }
            assert forall|x: u64| #[trigger]
                entered@.contains(x) <==> b.contains(x) && !shown.contains(x) && goal.contains(x) by {
                lemma_push_contains(e0, g, x);
                assert(e0.contains(x) <==> a.contains(x) && !shown.contains(x) && goal.contains(x));
            }
        }
        i += 1;
    }
    proof {
        assert(changed@.take(i as int) =~= changed@);
        assert(held =~= cooling);
        assert forall|g: u64| #[trigger] tables::members(near).contains(g) <==> goal.contains(g) by {
            if !changed@.contains(g) {
                assert(!flips(shown, fresh, g));
            }
        }
        assert(tables::members(near) =~= goal);
    }
    c.session.visible_entities = near;
    let ghost full = c@.transitions;
    // Forget the times that are not recent.
    let keys = tables::numbers_keys(&c.session.aoi_transition_at);
    let mut k: usize = 0;
    while k < keys.len()
        invariant
            k <= keys.len(),
            tables::lists(keys@, full.dom()),
            c@ == (ClientView { visible: goal, transitions: c@.transitions, ..was }),
            forall|g: u64| #[trigger]
                c@.transitions.contains_key(g) <==> full.contains_key(g) && (!keys@.take(k as int).contains(g)
                    || clock::since_spec(now, full[g]) < cooldown),
            forall|g: u64| #[trigger] c@.transitions.contains_key(g) ==> c@.transitions[g] == full[g],
        decreases keys.len() - k,
    {
        let g: u64 = keys[k];
        let ghost a = keys@.take(k as int);
        proof {
            assert(keys@.contains(g));
            assert(keys@.take(k + 1) =~= a.push(g));
            assert(!a.contains(g)) by {
                if a.contains(g) {
                    let j = choose|j: int| 0 <= j < a.len() && a[j] == g;
                    assert(keys@[j] == g);
                }
            }
            assert forall|x: u64| #[trigger] keys@.take(k + 1).contains(x) <==> a.contains(x) || x == g by {
                lemma_push_contains(a, g, x);
            }
        }
        match tables::numbers_get(&c.session.aoi_transition_at, g) {
            Some(t) => {
                if !(clock::since(now, t) < cooldown) {
                    tables::numbers_remove(&mut c.session.aoi_transition_at, g);
                }
            },
            None => {},
        }
        k += 1;
    }
    proof {
        assert(keys@.take(k as int) =~= keys@);
        let kept = stamps(shown, fresh, times, now, cooldown);
        assert forall|g: u64| c@.transitions.contains_key(g) <==> kept.contains_key(g) by {
            assert(keys@.contains(g) <==> full.contains_key(g));
            assert(changed@.contains(g) <==> flips(shown, fresh, g));
        }
        assert forall|g: u64| c@.transitions.contains_key(g) implies c@.transitions[g] == kept[g] by {
            assert(full.contains_key(g));
            assert(changed@.contains(g) <==> flips(shown, fresh, g));
        }
        assert(c@.transitions =~= kept);
        assert forall|g: u64| #[trigger] departed@.contains(g) <==> shown.difference(goal).contains(g) by {
            if shown.contains(g) && !goal.contains(g) {
                assert(flips(shown, fresh, g));
            }
        }
        assert forall|g: u64| #[trigger] entered@.contains(g) <==> goal.difference(shown).contains(g) by {
            if goal.contains(g) && !shown.contains(g) {
                assert(flips(shown, fresh, g));
            }
        }
    }
    AoiChange { departed, entered, fast_path: false, suppressed }
}

/// What is within `radius_sq` of an observer, given squared distances.
pub open spec fn near_set(sighted: Seq<(u64, u32)>, radius_sq: u32) -> Set<u64> {
    Set::new(|g: u64| exists|i: int| 0 <= i < sighted.len() && (#[trigger] sighted[i]).0 == g && numeric::at_most(sighted[i].1, radius_sq))
}

fn within(sighted: &Vec<(u64, u32)>, radius_sq: u32) -> (r: AHashSet<u64>)
    ensures
        tables::members(r) == near_set(sighted@, radius_sq),
{
    let mut r = tables::members_new();
    let mut i: usize = 0;
    assert(tables::members(r) =~= near_set(sighted@.take(0), radius_sq));
    while i < sighted.len()
        invariant
            i <= sighted.len(),
            tables::members(r) == near_set(sighted@.take(i as int), radius_sq),
        decreases sighted.len() - i,
    {
        let (g, d): (u64, u32) = sighted[i];
        let ghost a = sighted@.take(i as int);
        let ghost b = sighted@.take(i + 1);
        if numeric::is_at_most(d, radius_sq) {
            tables::members_insert(&mut r, g);
        }
        proof {
            assert forall|x: u64| near_set(b, radius_sq).contains(x) <==> near_set(a, radius_sq).contains(x) || (x == g
                && numeric::at_most(d, radius_sq)) by {
                if near_set(a, radius_sq).contains(x) {
                    let j = choose|j: int| 0 <= j < a.len() && (#[trigger] a[j]).0 == x && numeric::at_most(a[j].1, radius_sq);
                    assert(b[j].0 == x && numeric::at_most(b[j].1, radius_sq));
                }
                if x == g && numeric::at_most(d, radius_sq) {
                    assert(b[i as int].0 == x);
                }
                if near_set(b, radius_sq).contains(x) {
                    let j = choose|j: int| 0 <= j < b.len() && (#[trigger] b[j]).0 == x && numeric::at_most(b[j].1, radius_sq);
                    if j < i {
                        assert(a[j].0 == x);
                    }
                }
            }
            assert(tables::members(r) =~= near_set(b, radius_sq));
        }
        i += 1;
    }
    assert(sighted@.take(i as int) =~= sighted@);
    r
}

impl MapState {
    /// Compare what every client shows with what is near it. `sighted` says of
    /// each client, by ascending slab key, which entities it might see and how
    /// far away, squared, they are.
    pub fn tick_aoi_transitions(
        &mut self,
        sighted: &Vec<Vec<(u64, u32)>>,
        radius_sq: u32,
        now: u64,
        cooldown: u64,
    ) -> (r: Vec<AoiChange>)
        requires
            old(self).wf(),
            sighted@.len() == slabs::ordered(old(self)@.clients.dom()).len(),
        ensures
            final(self).wf(),
            old(self)@.index_is_live() ==> final(self)@.index_is_live(),
            final(self)@ == (MapView { clients: final(self)@.clients, ..old(self)@ }),
            final(self)@.clients.dom() == old(self)@.clients.dom(),
            r@.len() == sighted@.len(),
            forall|i: int|
                #![trigger r@[i]]
                0 <= i < r@.len() ==> ({
                    let key = slabs::ordered(old(self)@.clients.dom())[i];
                    is_change(
                        old(self)@.clients[key],
                        near_set(sighted@[i]@, radius_sq),
                        now,
                        cooldown,
                        final(self)@.clients[key],
                        r@[i],
                    )
                }),
    {
        let ghost was = self@;
        let keys = slabs::clients_keys(&self.clients);
        proof {
            assert(slabs::clients(self.clients).dom() =~= was.clients.dom());
            slabs::ordered_is(keys@, was.clients.dom());
        }
        let mut r: Vec<AoiChange> = Vec::new();
        let mut i: usize = 0;
        while i < keys.len()
            invariant
                i <= keys.len(),
                keys@.len() == sighted@.len(),
                r@.len() == i,
                self.wf(),
                slabs::in_order(keys@, was.clients.dom()),
                self@ == (MapView { clients: self@.clients, ..was }),
                self@.clients.dom() == was.clients.dom(),
                forall|j: int|
                    #![trigger r@[j]]
                    0 <= j < i ==> is_change(
                        was.clients[keys@[j]],
                        near_set(sighted@[j]@, radius_sq),
                        now,
                        cooldown,
                        self@.clients[keys@[j]],
                        r@[j],
                    ),
                forall|j: int| i <= j < keys@.len() ==> self@.clients[#[trigger] keys@[j]] == was.clients[keys@[j]],
            decreases keys.len() - i,
        {
            let key: usize = keys[i];
            assert(keys@.contains(key));
            let ghost before = self@;
            let near = within(&sighted[i], radius_sq);
            match slabs::clients_get_mut(&mut self.clients, key) {
                Some(c) => {
                    assert(c@ == before.clients[key]);
                    let change = diff(c, near, now, cooldown);
                    r.push(change);
                },
                None => {
                    assert(false);
                },
            }
            proof {
                assert(self@.clients =~= before.clients.insert(key, self@.clients[key]));
                assert(self@.clients.dom() =~= was.clients.dom());
                assert(self@ =~= MapView { clients: self@.clients, ..was });
            }
            i += 1;
        }
        r
    }

    /// What a client is sent to show the entity, if it is known on this map.
    pub open spec fn announced(&self, guid: u64) -> Option<Notice> {
        let v = self@;
        if v.client_keys.contains_key(guid) {
            Some(Notice::ShowPlayer { guid })
        } else if v.creature_keys.contains_key(guid) && v.creature_keys[guid] <= usize::MAX && v.creatures.contains_key(
            v.creature_keys[guid] as usize,
        ) {
            Some(Notice::ShowUnit { frame: v.creatures[v.creature_keys[guid] as usize].served() })
        } else {
            None
        }
    }

    /// What a client is sent to show the entity. The frame of a creature is
    /// kept for the next client.
    pub fn announce(&mut self, guid: u64) -> (r: Option<Notice>)
        requires
            old(self).wf(),
        ensures
            final(self).wf(),
            old(self)@.index_is_live() ==> final(self)@.index_is_live(),
            r == old(self).announced(guid),
            final(self)@ == (MapView { creatures: final(self)@.creatures, ..old(self)@ }),
            final(self)@.creatures.dom() == old(self)@.creatures.dom(),
            forall|k: usize| #[trigger]
                final(self)@.creatures.contains_key(k) ==> final(self)@.creatures[k] == (Creature {
                    cached_object: final(self)@.creatures[k].cached_object,
                    ..old(self)@.creatures[k]
                }) && final(self)@.creatures[k].served() == old(self)@.creatures[k].served(),
    {
        let ghost was = self@;
        if tables::numbers_get(&self.client_by_guid, guid).is_some() {
            return Some(Notice::ShowPlayer { guid });
        }
        match tables::numbers_get(&self.creature_by_guid, guid) {
            Some(k) => {
                if k > usize::MAX as u64 {
                    return None;
                }
                match slabs::creatures_get_mut(&mut self.creatures, k as usize) {
                    Some(c) => {
                        let frame = c.to_create_object();
                        proof {
                            assert(self@.creatures.dom() =~= was.creatures.dom());
                            assert(self@ =~= MapView { creatures: self@.creatures, ..was });
                        }
                        Some(Notice::ShowUnit { frame })
                    },
                    None => {
                        assert(self@ =~= was);
                        None
                    },
                }
            },
            None => None,
        }
    }
}

/// What happened to the sight of all clients of a map in one tick.
#[derive(Debug, Clone, Copy)]
pub struct AoiTickStats {
    pub entered: usize,
    pub departed: usize,
    pub suppressed: usize,
    pub fast_path: usize,
}

/// The sum of the first `n` numbers that `f` gives.
pub open spec fn total(f: spec_fn(int) -> nat, n: nat) -> nat
    decreases n,
{
    if n == 0 {
        0
    } else {
        total(f, (n - 1) as nat) + f(n - 1)
    }
}

/// `n`, or the largest number that can be held.
pub open spec fn capped(n: nat) -> usize {
    if n > usize::MAX {
        usize::MAX
    } else {
        n as usize
    }
}

/// Add up what happened to the sight of all clients of a map.
pub fn aoi_stats(changes: &Vec<AoiChange>) -> (r: AoiTickStats)
    ensures
        r.entered == capped(total(|i: int| changes@[i].entered@.len(), changes@.len())),
        r.departed == capped(total(|i: int| changes@[i].departed@.len(), changes@.len())),
        r.suppressed == capped(total(|i: int| changes@[i].suppressed as nat, changes@.len())),
        r.fast_path == capped(
            total(
                |i: int|
                    if changes@[i].fast_path {
                        1nat
                    } else {
                        0nat
                    },
                changes@.len(),
            ),
        ),
{
    let ghost fe = |i: int| changes@[i].entered@.len();
    let ghost fd = |i: int| changes@[i].departed@.len();
    let ghost fs = |i: int| changes@[i].suppressed as nat;
    let ghost ff = |i: int|
        if changes@[i].fast_path {
            1nat
        } else {
            0nat
        };
    let mut r = AoiTickStats { entered: 0, departed: 0, suppressed: 0, fast_path: 0 };
    let mut i: usize = 0;
    while i < changes.len()
        invariant
            i <= changes.len(),
            fe == (|i: int| changes@[i].entered@.len()),
            fd == (|i: int| changes@[i].departed@.len()),
            fs == (|i: int| changes@[i].suppressed as nat),
            ff == (|i: int|
                if changes@[i].fast_path {
                    1nat
                } else {
                    0nat
                }),
            r.entered == capped(total(fe, i as nat)),
            r.departed == capped(total(fd, i as nat)),
            r.suppressed == capped(total(fs, i as nat)),
            r.fast_path == capped(total(ff, i as nat)),
        decreases changes.len() - i,
    {
        let c = &changes[i];
        r.entered = r.entered.saturating_add(c.entered.len());
        r.departed = r.departed.saturating_add(c.departed.len());
        r.suppressed = r.suppressed.saturating_add(c.suppressed);
        if c.fast_path {
            r.fast_path = r.fast_path.saturating_add(1);
        }
        i += 1;
        proof {
            assert(fe(i - 1) == changes@[i - 1].entered@.len());
            assert(fd(i - 1) == changes@[i - 1].departed@.len());
            assert(fs(i - 1) == changes@[i - 1].suppressed);
            assert(ff(i - 1) == (if changes@[i - 1].fast_path {
                1nat
            } else {
                0nat
            }));
        }
    }
    r
}

/// Whatever is at most as far away as the radius is shown after the tick, wherever it stands
/// in the list of what might be seen, unless it appeared or vanished within the cooldown.
/// It is announced exactly if it was not shown before.
pub proof fn who_is_near_is_shown(
    m: &mut MapState,
    sighted: &Vec<Vec<(u64, u32)>>,
    radius_sq: u32,
    now: u64,
    cooldown: u64,
    r: Vec<AoiChange>,
    i: int,
    j: int,
)
    requires
        old(m).wf(),
        sighted@.len() == slabs::ordered(old(m)@.clients.dom()).len(),
        call_ensures(MapState::tick_aoi_transitions, (m, sighted, radius_sq, now, cooldown), r),
        0 <= i < sighted@.len(),
        0 <= j < sighted@[i]@.len(),
        sighted@[i]@[j].1 <= radius_sq <= 0x7f80_0000,
    ensures
        ({
            let key = slabs::ordered(old(m)@.clients.dom())[i];
            let was = old(m)@.clients[key];
            let after = final(m)@.clients[key];
            let g = sighted@[i]@[j].0;
            let recent = was.transitions.contains_key(g) && now < was.transitions[g] + cooldown && cooldown > 0;
            &&& r@.len() == sighted@.len()
            &&& !recent ==> after.visible.contains(g)
            &&& recent ==> after.visible.contains(g) == was.visible.contains(g)
            &&& r@[i].entered@.contains(g) <==> !was.visible.contains(g) && !recent
            &&& !r@[i].departed@.contains(g)
            &&& after.character == was.character
            &&& !was.visible.contains(g) && !recent && cooldown > 0 ==> after.transitions.contains_key(g)
                && after.transitions[g] == now
        }),
{
    let key = slabs::ordered(old(m)@.clients.dom())[i];
    let was = old(m)@.clients[key];
    let near = near_set(sighted@[i]@, radius_sq);
    let g = sighted@[i]@[j].0;
    assert(near.contains(g)) by {
        assert(numeric::at_most(sighted@[i]@[j].1, radius_sq));
    }
    let c = r@[i];
    assert(is_change(was, near, now, cooldown, final(m)@.clients[key], c));
    the_news_make_up_the_difference(was, near, now, cooldown, final(m)@.clients[key], c, g);
}

/// Whatever is not in the list of what might be seen, or only farther away than the radius,
/// is not shown after the tick, unless it appeared or vanished within the cooldown. It is
/// withdrawn exactly if it was shown before.
pub proof fn who_is_far_is_not_shown(
    m: &mut MapState,
    sighted: &Vec<Vec<(u64, u32)>>,
    radius_sq: u32,
    now: u64,
    cooldown: u64,
    r: Vec<AoiChange>,
    i: int,
    g: u64,
)
    requires
        old(m).wf(),
        sighted@.len() == slabs::ordered(old(m)@.clients.dom()).len(),
        call_ensures(MapState::tick_aoi_transitions, (m, sighted, radius_sq, now, cooldown), r),
        0 <= i < sighted@.len(),
        forall|j: int|
            0 <= j < sighted@[i]@.len() && (#[trigger] sighted@[i]@[j]).0 == g ==> radius_sq < sighted@[i]@[j].1
                <= 0x7f80_0000,
    ensures
        ({
            let key = slabs::ordered(old(m)@.clients.dom())[i];
            let was = old(m)@.clients[key];
            let after = final(m)@.clients[key];
            let recent = was.transitions.contains_key(g) && now < was.transitions[g] + cooldown && cooldown > 0;
            &&& !recent ==> !after.visible.contains(g)
            &&& recent ==> after.visible.contains(g) == was.visible.contains(g)
            &&& r@[i].departed@.contains(g) <==> was.visible.contains(g) && !recent
            &&& !r@[i].entered@.contains(g)
            &&& was.visible.contains(g) && !recent && cooldown > 0 ==> after.transitions.contains_key(g)
                && after.transitions[g] == now
        }),
{
    let key = slabs::ordered(old(m)@.clients.dom())[i];
    let was = old(m)@.clients[key];
    let near = near_set(sighted@[i]@, radius_sq);
    assert(!near.contains(g)) by {
        if near.contains(g) {
            let j = choose|j: int|
                0 <= j < sighted@[i]@.len() && (#[trigger] sighted@[i]@[j]).0 == g && numeric::at_most(
                    sighted@[i]@[j].1,
                    radius_sq,
                );
            assert(radius_sq < sighted@[i]@[j].1);
        }
    }
    let c = r@[i];
    assert(is_change(was, near, now, cooldown, final(m)@.clients[key], c));
    the_news_make_up_the_difference(was, near, now, cooldown, final(m)@.clients[key], c, g);
}

/// Nothing is announced or withdrawn twice, what flips back too soon is counted, and nobody
/// changes but in what they show.
pub proof fn sight_changes_nothing_else(
    m: &mut MapState,
    sighted: &Vec<Vec<(u64, u32)>>,
    radius_sq: u32,
    now: u64,
    cooldown: u64,
    r: Vec<AoiChange>,
    i: int,
)
    requires
        old(m).wf(),
        sighted@.len() == slabs::ordered(old(m)@.clients.dom()).len(),
        call_ensures(MapState::tick_aoi_transitions, (m, sighted, radius_sq, now, cooldown), r),
        0 <= i < sighted@.len(),
    ensures
        ({
            let key = slabs::ordered(old(m)@.clients.dom())[i];
            let was = old(m)@.clients[key];
            let after = final(m)@.clients[key];
            &&& r@[i].entered@.no_duplicates()
            &&& r@[i].departed@.no_duplicates()
            &&& after == (ClientView { visible: after.visible, transitions: after.transitions, ..was })
            &&& r@[i].fast_path ==> after.visible == was.visible && r@[i].entered@.len() == 0 && r@[i].departed@.len()
                == 0
            &&& r@[i].entered@.len() == 0 && r@[i].departed@.len() == 0 && r@[i].suppressed == 0 && cooldown == 0
                ==> after.visible == was.visible
        }),
        final(m)@.creatures == old(m)@.creatures,
        final(m)@.clients.dom() == old(m)@.clients.dom(),
        final(m)@.client_cells == old(m)@.client_cells,
{
    let key = slabs::ordered(old(m)@.clients.dom())[i];
    let was = old(m)@.clients[key];
    let after = final(m)@.clients[key];
    let near = near_set(sighted@[i]@, radius_sq);
    let c = r@[i];
    assert(is_change(was, near, now, cooldown, after, c));
    if c.entered@.len() == 0 && c.departed@.len() == 0 {
        assert forall|g: u64| after.visible.contains(g) == was.visible.contains(g) by {
            the_news_make_up_the_difference(was, near, now, cooldown, after, c, g);
        }
        assert(after.visible =~= was.visible);
    }
}

/// Whom an observer might see: everybody of the map who stood in a cell at most `radius`
/// cells away on each axis, but for the observer. Nobody on another map.
pub proof fn candidates_stood_near(
    s: &AoiSnapshot,
    observer: u64,
    map: u32,
    cell: (i32, i32),
    radius: u16,
    r: Vec<EntityView>,
    v: EntityView,
    at: (i32, i32),
)
    requires
        s.wf(),
        call_ensures(AoiSnapshot::candidates, (s, observer, map, cell, radius), r),
    ensures
        map != s.map() ==> r@.len() == 0,
        map == s.map() && s.at(at).contains(v) && -radius <= at.0 - cell.0 <= radius && -radius <= at.1 - cell.1
            <= radius && !(v.is_client && v.guid == observer) ==> r@.contains(v),
        r@.contains(v) ==> !(v.is_client && v.guid == observer) && exists|c: (i32, i32)|
            #![trigger s.at(c)]
            s.at(c).contains(v) && -radius <= c.0 - cell.0 <= radius && -radius <= c.1 - cell.1 <= radius,
{
    s.who_stood_near_might_be_seen(v, observer, map, cell, radius as int);
    if map == s.map() && s.at(at).contains(v) && -radius <= at.0 - cell.0 <= radius && -radius <= at.1 - cell.1
        <= radius && !(v.is_client && v.guid == observer) {
        assert(s.is_candidate(v, observer, map, cell, radius as int)) by {
            assert(s.at(at).contains(v));
        }
    }
    if r@.contains(v) {
        assert(s.is_candidate(v, observer, map, cell, radius as int));
    }
}

/// When a tick begins it is taken down of every player and every creature that is to be
/// seen who they are and where they stand, in the cell where they are seated.
pub proof fn everybody_is_taken_down(m: &MapState, r: AoiSnapshot, k: usize)
    requires
        m.wf(),
        m@.index_is_live(),
        call_ensures(MapState::build_local_aoi_snapshot, (m,), r),
    ensures
        r.map() == m.map,
        m@.clients.contains_key(k) ==> r.at(m@.client_cells[k]).contains(
            EntityView {
                guid: m@.clients[k].character.guid,
                position: m@.clients[k].character.info.position,
                is_client: true,
            },
        ),
        m@.creatures.contains_key(k) && !(m@.creatures[k].life_state is Respawning)
            ==> r.at(m@.creature_cells[k]).contains(
            EntityView {
                guid: m@.creatures[k].guid,
                position: m@.creatures[k].info.position,
                is_client: false,
            },
        ),
{
    let f = |o: Occupant| m@.seen(o);
    if m@.clients.contains_key(k) {
        let cell = m@.client_cells[k];
        let o = Occupant::Client(k);
        assert(m.index.clients().contains_key(k));
        m.index.occupants_are_the_seated(cell, o);
        let s = m.index.occupants(cell);
        let i = choose|i: int| 0 <= i < s.len() && s[i] == o;
        assert(r.at(cell) == s.map_values(f));
        assert(r.at(cell)[i] == m@.seen(o));
    }
    if m@.creatures.contains_key(k) && !(m@.creatures[k].life_state is Respawning) {
        let cell = m@.creature_cells[k];
        let o = Occupant::Creature(k);
        assert(m@.creature_cells.contains_key(k));
        m.index.occupants_are_the_seated(cell, o);
        let s = m.index.occupants(cell);
        let i = choose|i: int| 0 <= i < s.len() && s[i] == o;
        assert(r.at(cell) == s.map_values(f));
        assert(r.at(cell)[i] == m@.seen(o));
    }
}

/// Things are heard of as far as four hundred yards.
pub proof fn things_are_heard_of_near(dist_sq: u32, r: bool)
    requires
        call_ensures(within_aoi, (dist_sq,), r),
    ensures
        dist_sq <= 0x7f80_0000 ==> r == (dist_sq <= 0x481c_4000),
{
}

/// A player is announced as a player, and a creature by the frame by which it is shown;
/// nobody else is announced.
pub proof fn who_is_known_is_announced(m: &mut MapState, guid: u64, r: Option<Notice>)
    requires
        old(m).wf(),
        call_ensures(MapState::announce, (m, guid), r),
    ensures
        old(m)@.client_keys.contains_key(guid) ==> r == Some(Notice::ShowPlayer { guid }),
        !old(m)@.client_keys.contains_key(guid) ==> {
            let k = old(m)@.creature_keys[guid] as usize;
            let known = old(m)@.creature_keys.contains_key(guid) && old(m)@.creatures.contains_key(k);
            &&& known <==> r is Some
            &&& known ==> r == Some(Notice::ShowUnit { frame: old(m)@.creatures[k].served() })
        },
{
}

proof fn lemma_same_total(f: spec_fn(int) -> nat, g: spec_fn(int) -> nat, n: nat)
    requires
        forall|i: int| 0 <= i < n ==> #[trigger] f(i) == g(i),
    ensures
        total(f, n) == total(g, n),
    decreases n,
{
    if n > 0 {
        lemma_same_total(f, g, (n - 1) as nat);
        assert(f(n - 1) == g(n - 1));
    }
}

/// What happened to the sight of one more client is added to what happened to that of the
/// others.
pub proof fn one_more_sight_is_added(
    before: &Vec<AoiChange>,
    was: AoiTickStats,
    changes: &Vec<AoiChange>,
    r: AoiTickStats,
    c: AoiChange,
)
    requires
        call_ensures(aoi_stats, (before,), was),
        call_ensures(aoi_stats, (changes,), r),
        changes@ == before@.push(c),
    ensures
        was.entered + c.entered@.len() <= usize::MAX ==> r.entered == was.entered + c.entered@.len(),
        was.departed + c.departed@.len() <= usize::MAX ==> r.departed == was.departed + c.departed@.len(),
        was.suppressed + c.suppressed <= usize::MAX ==> r.suppressed == was.suppressed + c.suppressed,
        c.fast_path && was.fast_path < usize::MAX ==> r.fast_path == was.fast_path + 1,
        !c.fast_path ==> r.fast_path == was.fast_path,
        before@.len() == 0 ==> was.entered == 0 && was.departed == 0 && was.suppressed == 0 && was.fast_path == 0,
{
    let n = before@.len();
    lemma_same_total(|i: int| before@[i].entered@.len(), |i: int| changes@[i].entered@.len(), n);
    lemma_same_total(|i: int| before@[i].departed@.len(), |i: int| changes@[i].departed@.len(), n);
    lemma_same_total(|i: int| before@[i].suppressed as nat, |i: int| changes@[i].suppressed as nat, n);
    lemma_same_total(
        |i: int|
            if before@[i].fast_path {
                1nat
            } else {
                0nat
            },
        |i: int|
            if changes@[i].fast_path {
                1nat
            } else {
                0nat
            },
        n,
    );
    assert(changes@[n as int] == c);
}

} // verus!

//! Creatures that chase players, and roots that wear off.
use crate::client::ClientView;
use crate::creature;
use crate::creature::{Creature, CreatureBehavior};
use crate::map_state::{MapState, MapView};
use crate::movement::{MovementInfo, Place, FORWARD};
use crate::notice::{Audience, Notice, Outgoing};
use crate::numeric;
use crate::slabs;
use crate::spatial;
use crate::tables;
use vstd::prelude::*;

verus! {

/// How many grids around a player are awake, on each axis.
pub const ACTIVATION_GRID_RADIUS: i32 = 1;

/// Whether two grids are so close that a player in one keeps the other awake.
pub open spec fn grids_touch(a: (i32, i32), b: (i32, i32)) -> bool {
    -ACTIVATION_GRID_RADIUS <= a.0 - b.0 <= ACTIVATION_GRID_RADIUS && -ACTIVATION_GRID_RADIUS <= a.1 - b.1
        <= ACTIVATION_GRID_RADIUS
}

/// The grids that players keep awake, as cell numbers.
pub open spec fn awake_grids(clients: Map<usize, ClientView>) -> Set<u64> {
    Set::new(
        |id: u64|
            exists|k: usize| #[trigger]
                clients.contains_key(k) && grids_touch(spatial::cell_of(id), clients[k].character.info.position.grid),
    )
}

/// A creature whose root wore off; one that walks around walks on.
pub open spec fn unrooted(c: Creature) -> Creature {
    if c.behavior.walks() {
        Creature {
            root_until: None,
            info: MovementInfo { flags: FORWARD, ..c.info },
            cached_object: None,
            ..c
        }
    } else {
        Creature { root_until: None, ..c }
    }
}

/// Whether the root of the creature wears off now.
pub open spec fn root_expires(c: Creature, now: u64) -> bool {
    c.root_until is Some && c.root_until->0 <= now
}

/// What is told when the root of a creature wears off.
pub open spec fn told_of_root(c: Creature) -> Seq<Outgoing> {
    let to = Audience::Near { map: c.map, place: c.info.position };
    let cleared = seq![Outgoing { to, what: Notice::AurasCleared { guid: c.guid } }];
    if c.behavior.walks() {
        cleared.push(Outgoing { to, what: Notice::StartForward { guid: c.guid, info: unrooted(c).info } })
    } else {
        cleared
    }
}

impl MapView {
    /// After the roots of the creatures `keys` were looked at, one after the
    /// other, with what is told.
    pub open spec fn roots_expired(self, keys: Seq<usize>, now: u64) -> (MapView, Seq<Outgoing>)
        decreases keys.len(),
    {
        if keys.len() == 0 {
            (self, Seq::empty())
        } else {
            let (v, said) = self.roots_expired(keys.drop_last(), now);
            let key = keys.last();
            let c = v.creatures[key];
            if root_expires(c, now) {
                (MapView { creatures: v.creatures.insert(key, unrooted(c)), ..v }, said + told_of_root(c))
            } else {
                (v, said)
            }
        }
    }
}

impl MapState {
    /// Find out which grids have a player near.
    pub fn refresh_active_grids(&mut self)
        requires
            old(self).wf(),
        ensures
            final(self).wf(),
            old(self)@.index_is_live() ==> final(self)@.index_is_live(),
            final(self)@ == (MapView { active_grids: awake_grids(old(self)@.clients), ..old(self)@ }),
    {
        let ghost was = self@;
        let mut grids = tables::members_new();
        let keys = slabs::clients_keys(&self.clients);
        let mut i: usize = 0;
        while i < keys.len()
            invariant
                i <= keys.len(),
                self@ == was,
                slabs::in_order(keys@, was.clients.dom()),
                forall|id: u64| #[trigger]
                    tables::members(grids).contains(id) <==> exists|j: int|
                        0 <= j < i && grids_touch(
                            spatial::cell_of(id),
                            was.clients[#[trigger] keys@[j]].character.info.position.grid,
                        ),
            decreases keys.len() - i,
        {
            let key: usize = keys[i];
            assert(keys@.contains(key));
            let ghost before = tables::members(grids);
            let ghost g = was.clients[key].character.info.position.grid;
            if let Some(c) = slabs::clients_get(&self.clients, key) {
                assert(c@ == was.clients[key]);
                awaken(&mut grids, c.character.info.position.grid);
            }
            proof {
                assert forall|id: u64| #[trigger]
                    tables::members(grids).contains(id) <==> exists|j: int|
                        0 <= j < i + 1 && grids_touch(
                            spatial::cell_of(id),
                            was.clients[#[trigger] keys@[j]].character.info.position.grid,
                        ) by {
                    if before.contains(id) {
                        let j = choose|j: int|
                            0 <= j < i && grids_touch(
                                spatial::cell_of(id),
                                was.clients[#[trigger] keys@[j]].character.info.position.grid,
                            );
                        assert(was.clients[keys@[j]].character.info.position.grid == was.clients[keys@[j]].character.info.position.grid);
                    }
                    if grids_touch(spatial::cell_of(id), g) {
                        assert(was.clients[keys@[i as int]].character.info.position.grid == g);
                    }
                }
            }
            i += 1;
        }
        proof {
            assert(tables::members(grids) =~= awake_grids(was.clients)) by {
                assert forall|id: u64| tables::members(grids).contains(id) <==> awake_grids(was.clients).contains(id) by {
                    if tables::members(grids).contains(id) {
                        let j = choose|j: int|
                            0 <= j < i && grids_touch(
                                spatial::cell_of(id),
                                was.clients[#[trigger] keys@[j]].character.info.position.grid,
                            );
                        assert(keys@.contains(keys@[j]));
                        assert(was.clients.contains_key(keys@[j]));
                    }
                    if awake_grids(was.clients).contains(id) {
                        let k = choose|k: usize| #[trigger]
                            was.clients.contains_key(k) && grids_touch(
                                spatial::cell_of(id),
                                was.clients[k].character.info.position.grid,
                            );
                        assert(keys@.contains(k));
                        let j = choose|j: int| 0 <= j < keys@.len() && keys@[j] == k;
                        assert(was.clients[keys@[j]].character.info.position.grid == was.clients[k].character.info.position.grid);
                    }
                }
            }
        }
        self.active_grids = grids;
    }

    /// Whether a player is near the grid.
    pub fn grid_is_active(&self, grid: (i32, i32)) -> (r: bool)
        ensures
            r == self@.active_grids.contains(spatial::cell_id(grid)),
    {
        tables::members_contains(&self.active_grids, spatial::pack(grid))
    }

    /// Roots whose time is over wear off.
    pub fn expire_roots(&mut self, now: u64, out: &mut Vec<Outgoing>)
        requires
            old(self).wf(),
        ensures
            final(self).wf(),
            old(self)@.index_is_live() ==> final(self)@.index_is_live(),
            slabs::in_order(slabs::ordered(old(self)@.creatures.dom()), old(self)@.creatures.dom()),
            final(self)@ == old(self)@.roots_expired(slabs::ordered(old(self)@.creatures.dom()), now).0,
            final(out)@ == old(out)@ + old(self)@.roots_expired(
                slabs::ordered(old(self)@.creatures.dom()),
                now,
            ).1,
    {
        let ghost was = self@;
        let ghost said = out@;
        let keys = slabs::creatures_keys(&self.creatures);
        proof {
            slabs::ordered_is(keys@, was.creatures.dom());
        }
        let mut i: usize = 0;
        assert(keys@.take(0) =~= Seq::<usize>::empty());
        assert(out@ =~= said + was.roots_expired(keys@.take(0), now).1);
        while i < keys.len()
            invariant
                i <= keys.len(),
                self.wf(),
                old(self)@.index_is_live() ==> self@.index_is_live(),
                slabs::in_order(keys@, was.creatures.dom()),
                self@ == was.roots_expired(keys@.take(i as int), now).0,
                self@.creatures.dom() == was.creatures.dom(),
                out@ == said + was.roots_expired(keys@.take(i as int), now).1,
            decreases keys.len() - i,
        {
            let key: usize = keys[i];
            let ghost before = self@;
            assert(keys@.contains(key));
            assert(keys@.take(i + 1).drop_last() =~= keys@.take(i as int));
            match slabs::creatures_get_mut(&mut self.creatures, key) {
                Some(c) => {
                    let expired: bool = match c.root_until {
                        Some(until) => until <= now,
                        None => false,
                    };
                    if expired {
                        c.root_until = None;
                        let to = Audience::Near { map: c.map, place: c.info.position };
                        out.push(Outgoing { to, what: Notice::AurasCleared { guid: c.guid } });
                        let walks: bool = match &c.behavior {
                            CreatureBehavior::RandomWander { .. } => true,
                            CreatureBehavior::Waypoint { .. } => true,
                            _ => false,
                        };
                        if walks {
                            c.info.flags = FORWARD;
                            c.invalidate_object_cache();
                            out.push(Outgoing { to, what: Notice::StartForward { guid: c.guid, info: c.info } });
                        }
                    }
                },
                None => {
                    assert(false);
                },
            }
            proof {
                let c = before.creatures[key];
                if root_expires(c, now) {
                    assert(self@.creatures =~= before.creatures.insert(key, unrooted(c)));
                } else {
                    assert(self@.creatures =~= before.creatures);
                }
                assert(self@.creatures.dom() =~= was.creatures.dom());
                assert(self@ =~= was.roots_expired(keys@.take(i + 1), now).0);
                assert(out@ =~= said + was.roots_expired(keys@.take(i + 1), now).1);
            }
            i += 1;
        }
        assert(keys@.take(i as int) =~= keys@);
    }
}

/// Add the grids around `grid`.
fn awaken(grids: &mut ahash::AHashSet<u64>, grid: (i32, i32))
    ensures
        forall|id: u64| #[trigger]
            tables::members(*final(grids)).contains(id) <==> tables::members(*old(grids)).contains(id) || grids_touch(
                spatial::cell_of(id),
                grid,
            ),
{
    let ghost was = tables::members(*grids);
    let mut dx: i64 = -1;
    while dx <= 1
        invariant
            -1 <= dx <= 2,
            forall|id: u64| #[trigger]
                tables::members(*grids).contains(id) <==> was.contains(id) || (grids_touch(spatial::cell_of(id), grid)
                    && spatial::cell_of(id).0 - grid.0 < dx),
        decreases 2 - dx,
    {
        let mut dy: i64 = -1;
        while dy <= 1
            invariant
                -1 <= dx <= 1,
                -1 <= dy <= 2,
                forall|id: u64| #[trigger]
                    tables::members(*grids).contains(id) <==> was.contains(id) || (grids_touch(
                        spatial::cell_of(id),
                        grid,
                    ) && (spatial::cell_of(id).0 - grid.0 < dx || (spatial::cell_of(id).0 - grid.0 == dx
                        && spatial::cell_of(id).1 - grid.1 < dy))),
            decreases 2 - dy,
        {
            let x: i64 = grid.0 as i64 + dx;
            let y: i64 = grid.1 as i64 + dy;
            if -0x8000_0000 <= x && x <= 0x7fff_ffff && -0x8000_0000 <= y && y <= 0x7fff_ffff {
                let cell: (i32, i32) = (x as i32, y as i32);
                tables::members_insert(grids, spatial::pack(cell));
                proof {
                    spatial::cell_ids_are_one_to_one(cell, 0);
                    assert forall|id: u64| id == spatial::cell_id(cell) <==> #[trigger] spatial::cell_of(id) == cell by {
                        spatial::cell_ids_are_one_to_one(cell, id);
                    }
                }
            }
            dy += 1;
        }
        dx += 1;
    }
}

/// The distance at which a client is chased, if it is one that can be.
pub open spec fn chase_distance(c: ClientView, map: u32, dist_sq: u32, range_sq: u32) -> Option<u32> {
    if c.character.map == map && numeric::at_most(dist_sq, range_sq) {
        Some(dist_sq)
    } else {
        None
    }
}

/// The nearest of the first `n` clients that can be chased: the first one, if
/// several are equally near.
pub open spec fn nearest(
    clients: Map<usize, ClientView>,
    keys: Seq<usize>,
    dist_sq: Seq<u32>,
    n: nat,
    map: u32,
    range_sq: u32,
) -> Option<int>
    decreases n,
{
    if n == 0 {
        None
    } else {
        let best = nearest(clients, keys, dist_sq, (n - 1) as nat, map, range_sq);
        let i = n - 1;
        match chase_distance(clients[keys[i]], map, dist_sq[i], range_sq) {
            None => best,
            Some(d) => match best {
                None => Some(i),
                Some(j) => if numeric::below(d, dist_sq[j]) {
                    Some(i)
                } else {
                    best
                },
            },
        }
    }
}

/// The nearest client is one that can be chased, and none that can be chased is
/// nearer; there is none only if nobody can be chased.
pub proof fn the_nearest_is_nearest(
    clients: Map<usize, ClientView>,
    keys: Seq<usize>,
    dist_sq: Seq<u32>,
    n: nat,
    map: u32,
    range_sq: u32,
    other: int,
)
    requires
        0 <= other < n,
        chase_distance(clients[keys[other]], map, dist_sq[other], range_sq) is Some,
    ensures
        ({
            let best = nearest(clients, keys, dist_sq, n, map, range_sq);
            &&& best is Some
            &&& 0 <= best->0 < n
            &&& chase_distance(clients[keys[best->0]], map, dist_sq[best->0], range_sq) is Some
            &&& numeric::at_most(dist_sq[best->0], dist_sq[other])
        }),
    decreases n,
{
    lemma_nearest_is_a_choice(clients, keys, dist_sq, (n - 1) as nat, map, range_sq);
    if other < n - 1 {
        the_nearest_is_nearest(clients, keys, dist_sq, (n - 1) as nat, map, range_sq, other);
    }
}

proof fn lemma_nearest_is_a_choice(
    clients: Map<usize, ClientView>,
    keys: Seq<usize>,
    dist_sq: Seq<u32>,
    n: nat,
    map: u32,
    range_sq: u32,
)
    ensures
        match nearest(clients, keys, dist_sq, n, map, range_sq) {
            Some(i) => 0 <= i < n && chase_distance(clients[keys[i]], map, dist_sq[i], range_sq) is Some,
            None => true,
        },
    decreases n,
{
    if n > 0 {
        lemma_nearest_is_a_choice(clients, keys, dist_sq, (n - 1) as nat, map, range_sq);
    }
}

impl MapView {
    /// The player that the creature `key` chases. Distances are those to the
    /// clients, by ascending slab key.
    pub open spec fn target_of(self, key: usize, dist_sq: Seq<u32>, range_sq: u32, now: u64) -> Option<usize> {
        let c = self.creatures[key];
        let keys = slabs::ordered(self.clients.dom());
        if creature::rooted_at(c.root_until, now) || !self.active_grids.contains(spatial::cell_id(c.info.position.grid)) {
            None
        } else {
            match nearest(self.clients, keys, dist_sq, keys.len(), c.map, range_sq) {
                Some(i) => Some(keys[i]),
                None => None,
            }
        }
    }
}

impl MapState {
    /// The players that the chasing creatures go after. `dist_sq` holds, for
    /// each of these creatures, the squared distance to every client, by
    /// ascending slab key.
    pub fn pick_targets(&self, dist_sq: &Vec<Vec<u32>>, range_sq: u32, now: u64) -> (r: Vec<(usize, Option<usize>)>)
        requires
            dist_sq@.len() == self@.aggro.len(),
            forall|i: int| 0 <= i < dist_sq@.len() ==> (#[trigger] dist_sq@[i])@.len() == slabs::ordered(
                self@.clients.dom(),
            ).len(),
            forall|i: int| 0 <= i < self@.aggro.len() ==> self@.creatures.contains_key(#[trigger] self@.aggro[i]),
        ensures
            r@ == Seq::new(
                self@.aggro.len(),
                |i: int| (self@.aggro[i], self@.target_of(self@.aggro[i], dist_sq@[i]@, range_sq, now)),
            ),
    {
        let keys = slabs::clients_keys(&self.clients);
        proof {
            assert(slabs::clients(self.clients).dom() =~= self@.clients.dom());
            slabs::ordered_is(keys@, self@.clients.dom());
        }
        let mut r: Vec<(usize, Option<usize>)> = Vec::new();
        let mut i: usize = 0;
        while i < self.aggro_creature_keys.len()
            invariant
                i <= self@.aggro.len(),
                dist_sq@.len() == self@.aggro.len(),
                slabs::in_order(keys@, self@.clients.dom()),
                keys@ == slabs::ordered(self@.clients.dom()),
                forall|j: int| 0 <= j < dist_sq@.len() ==> (#[trigger] dist_sq@[j])@.len() == keys@.len(),
                forall|j: int| 0 <= j < self@.aggro.len() ==> self@.creatures.contains_key(#[trigger] self@.aggro[j]),
                r@ == Seq::new(
                    i as nat,
                    |j: int| (self@.aggro[j], self@.target_of(self@.aggro[j], dist_sq@[j]@, range_sq, now)),
                ),
            decreases self.aggro_creature_keys.len() - i,
        {
            let key: usize = self.aggro_creature_keys[i];
            assert(self@.creatures.contains_key(self@.aggro[i as int]));
            assert(dist_sq@[i as int]@.len() == keys@.len());
            let mut target: Option<usize> = None;
            if let Some(c) = slabs::creatures_get(&self.creatures, key) {
                if !c.is_rooted(now) && self.grid_is_active(c.info.position.grid) {
                    target = self.nearest_client(&keys, &dist_sq[i], c.map, range_sq);
                }
            }
            r.push((key, target));
            i += 1;
            assert(r@ =~= Seq::new(
                i as nat,
                |j: int| (self@.aggro[j], self@.target_of(self@.aggro[j], dist_sq@[j]@, range_sq, now)),
            ));
        }
        r
    }

    fn nearest_client(&self, keys: &Vec<usize>, dist_sq: &Vec<u32>, map: u32, range_sq: u32) -> (r: Option<usize>)
        requires
            slabs::in_order(keys@, self@.clients.dom()),
            dist_sq@.len() == keys@.len(),
        ensures
            r == (match nearest(self@.clients, keys@, dist_sq@, keys@.len(), map, range_sq) {
                Some(i) => Some(keys@[i]),
                None => None,
            }),
    {
        let mut best: Option<usize> = None;
        let mut i: usize = 0;
        while i < keys.len()
            invariant
                i <= keys.len(),
                slabs::in_order(keys@, self@.clients.dom()),
                dist_sq@.len() == keys@.len(),
                match best {
                    Some(b) => b < i && nearest(self@.clients, keys@, dist_sq@, i as nat, map, range_sq) == Some(b as int),
                    None => nearest(self@.clients, keys@, dist_sq@, i as nat, map, range_sq) is None,
                },
            decreases keys.len() - i,
        {
            let key: usize = keys[i];
            assert(keys@.contains(key));
            if let Some(c) = slabs::clients_get(&self.clients, key) {
                assert(c@ == self@.clients[key]);
                if c.character.map == map && numeric::is_at_most(dist_sq[i], range_sq) {
                    match best {
                        Some(b) => {
                            if numeric::is_below(dist_sq[i], dist_sq[b]) {
                                best = Some(i);
                            }
                        },
                        None => {
                            best = Some(i);
                        },
                    }
                }
            }
            i += 1;
        }
        match best {
            Some(b) => Some(keys[b]),
            None => None,
        }
    }
}

/// The creatures that chase one player, in the order in which they line up.
#[derive(Debug)]
pub struct ChaseGroup {
    pub player: usize,
    pub creatures: Vec<usize>,
}

/// The creatures of `targets` that chase `player`, in order.
pub open spec fn chasers_of(targets: Seq<(usize, Option<usize>)>, player: usize) -> Seq<usize>
    decreases targets.len(),
{
    if targets.len() == 0 {
        Seq::empty()
    } else {
        let rest = chasers_of(targets.drop_last(), player);
        if targets.last().1 == Some(player) {
            rest.push(targets.last().0)
        } else {
            rest
        }
    }
}

impl MapView {
    /// The place of `key` in a line that is ordered by guid: behind everybody
    /// whose guid is not larger.
    pub open spec fn place_in_line(self, line: Seq<usize>, key: usize, n: nat) -> int
        decreases n,
    {
        if n == 0 || self.creatures[line[n - 1]].guid <= self.creatures[key].guid {
            n as int
        } else {
            self.place_in_line(line, key, (n - 1) as nat)
        }
    }

    /// The creatures `keys` lined up by guid.
    pub open spec fn lined_up(self, keys: Seq<usize>) -> Seq<usize>
        decreases keys.len(),
    {
        if keys.len() == 0 {
            Seq::empty()
        } else {
            let line = self.lined_up(keys.drop_last());
            line.insert(self.place_in_line(line, keys.last(), line.len()), keys.last())
        }
    }
}

proof fn lemma_place_in_line(v: MapView, line: Seq<usize>, key: usize, n: nat)
    requires
        n <= line.len(),
    ensures
        0 <= v.place_in_line(line, key, n) <= n,
        forall|i: int|
            v.place_in_line(line, key, n) <= i < n ==> v.creatures[#[trigger] line[i]].guid > v.creatures[key].guid,
        v.place_in_line(line, key, n) > 0 ==> v.creatures[line[v.place_in_line(line, key, n) - 1]].guid
            <= v.creatures[key].guid,
    decreases n,
{
    if n > 0 && v.creatures[line[n - 1]].guid > v.creatures[key].guid {
        lemma_place_in_line(v, line, key, (n - 1) as nat);
    }
}

/// A line holds exactly the creatures that were lined up, by ascending guid.
pub proof fn a_line_is_ordered_by_guid(v: MapView, keys: Seq<usize>)
    ensures
        v.lined_up(keys).to_multiset() == keys.to_multiset(),
        v.lined_up(keys).len() == keys.len(),
        forall|i: int, j: int|
            0 <= i <= j < keys.len() ==> v.creatures[#[trigger] v.lined_up(keys)[i]].guid
                <= v.creatures[#[trigger] v.lined_up(keys)[j]].guid,
    decreases keys.len(),
{
    broadcast use vstd::seq_lib::group_to_multiset_ensures;

    if keys.len() > 0 {
        let init = keys.drop_last();
        let key = keys.last();
        a_line_is_ordered_by_guid(v, init);
        let line = v.lined_up(init);
        let at = v.place_in_line(line, key, line.len());
        lemma_place_in_line(v, line, key, line.len());
        assert(keys =~= init.push(key));
        assert(line.insert(at, key).to_multiset() =~= line.to_multiset().insert(key));
        assert forall|i: int, j: int| 0 <= i <= j < keys.len() implies v.creatures[#[trigger] v.lined_up(keys)[i]].guid
            <= v.creatures[#[trigger] v.lined_up(keys)[j]].guid by {
            let is = line.insert(at, key);
            if i < at && j < at {
                assert(is[i] == line[i] && is[j] == line[j]);
            } else if i < at && j == at {
                assert(v.creatures[line[i]].guid <= v.creatures[line[at - 1]].guid);
            } else if i < at && j > at {
                assert(is[j] == line[j - 1]);
                assert(v.creatures[line[i]].guid <= v.creatures[line[j - 1]].guid);
            } else if i == at && j > at {
                assert(is[j] == line[j - 1]);
            } else if i > at {
                assert(is[i] == line[i - 1] && is[j] == line[j - 1]);
            }
        }
    }
}

/// Whether `player` is one of those that are chased.
pub open spec fn is_chased(groups: Seq<ChaseGroup>, player: usize) -> bool {
    exists|i: int| 0 <= i < groups.len() && (#[trigger] groups[i]).player == player
}

impl MapState {
    /// Line up the creatures by guid.
    fn line_up(&self, keys: &Vec<usize>) -> (r: Vec<usize>)
        requires
            forall|i: int| 0 <= i < keys@.len() ==> self@.creatures.contains_key(#[trigger] keys@[i]),
        ensures
            r@ == self@.lined_up(keys@),
    {
        let mut r: Vec<usize> = Vec::new();
        let mut i: usize = 0;
        assert(keys@.take(0) =~= Seq::<usize>::empty());
        while i < keys.len()
            invariant
                i <= keys.len(),
                forall|j: int| 0 <= j < keys@.len() ==> self@.creatures.contains_key(#[trigger] keys@[j]),
                r@ == self@.lined_up(keys@.take(i as int)),
                forall|j: int| 0 <= j < r@.len() ==> self@.creatures.contains_key(#[trigger] r@[j]),
            decreases keys.len() - i,
        {
            let key: usize = keys[i];
            assert(self@.creatures.contains_key(keys@[i as int]));
            assert(keys@.take(i + 1).drop_last() =~= keys@.take(i as int));
            let guid: u64 = slabs::creatures_get(&self.creatures, key).unwrap().guid;
            let ghost line = r@;
            let mut at: usize = r.len();
            while at > 0 && slabs::creatures_get(&self.creatures, r[at - 1]).unwrap().guid > guid
                invariant
                    r@ == line,
                    at <= r@.len(),
                    guid == self@.creatures[key].guid,
                    forall|j: int| 0 <= j < r@.len() ==> self@.creatures.contains_key(#[trigger] r@[j]),
                    self@.place_in_line(line, key, line.len()) == self@.place_in_line(line, key, at as nat),
                decreases at,
            {
                at -= 1;
            }
            r.insert(at, key);
            assert forall|j: int| 0 <= j < r@.len() implies self@.creatures.contains_key(#[trigger] r@[j]) by {
                if j < at {
                    assert(r@[j] == line[j]);
                } else if j > at {
                    assert(r@[j] == line[j - 1]);
                }
            }
            i += 1;
        }
        assert(keys@.take(i as int) =~= keys@);
        r
    }

    /// Sort the chasing creatures by whom they chase. Each player that is
    /// chased stands once, with the creatures that chase them lined up by guid.
    pub fn group_chasers(&self, targets: &Vec<(usize, Option<usize>)>) -> (r: Vec<ChaseGroup>)
        requires
            forall|i: int| 0 <= i < targets@.len() ==> self@.creatures.contains_key((#[trigger] targets@[i]).0),
        ensures
            forall|i: int, j: int| 0 <= i < j < r@.len() ==> (#[trigger] r@[i]).player != (#[trigger] r@[j]).player,
            forall|i: int|
                0 <= i < r@.len() ==> (#[trigger] r@[i]).creatures@ == self@.lined_up(
                    chasers_of(targets@, r@[i].player),
                ) && r@[i].creatures@.len() > 0,
            forall|p: usize| #[trigger] chasers_of(targets@, p).len() > 0 ==> is_chased(r@, p),
    {
        let mut groups: Vec<ChaseGroup> = Vec::new();
        let mut place = tables::numbers_new();
        let mut i: usize = 0;
        while i < targets.len()
            invariant
                i <= targets.len(),
                forall|j: int| 0 <= j < targets@.len() ==> self@.creatures.contains_key((#[trigger] targets@[j]).0),
                forall|j: int|
                    0 <= j < groups@.len() ==> tables::numbers(place).contains_key((#[trigger] groups@[j]).player as u64)
                        && tables::numbers(place)[groups@[j].player as u64] == j,
                forall|p: usize| #[trigger]
                    tables::numbers(place).contains_key(p as u64) ==> tables::numbers(place)[p as u64] < groups@.len()
                        && groups@[tables::numbers(place)[p as u64] as int].player == p,
                forall|j: int|
                    0 <= j < groups@.len() ==> (#[trigger] groups@[j]).creatures@ == chasers_of(
                        targets@.take(i as int),
                        groups@[j].player,
                    ) && groups@[j].creatures@.len() > 0,
                forall|p: usize| #[trigger]
                    chasers_of(targets@.take(i as int), p).len() > 0 ==> tables::numbers(place).contains_key(p as u64),
            decreases targets.len() - i,
        {
            let (key, target): (usize, Option<usize>) = targets[i];
            let ghost a = targets@.take(i as int);
            let ghost b = targets@.take(i + 1);
            let ghost before = groups@;
            proof {
                assert(b.drop_last() =~= a);
                assert forall|p: usize| #[trigger] chasers_of(b, p) == (if target == Some(p) {
                    chasers_of(a, p).push(key)
                } else {
                    chasers_of(a, p)
                }) by {}
            }
            if let Some(player) = target {
                match tables::numbers_get(&place, player as u64) {
                    Some(at) => {
                        assert(at < groups.len());
                        groups[at as usize].creatures.push(key);
                        assert forall|j: int| 0 <= j < groups@.len() implies (#[trigger] groups@[j]).player
                            == before[j].player && groups@[j].creatures@ == chasers_of(b, groups@[j].player)
                            && groups@[j].creatures@.len() > 0 by {
                            assert(before[j].creatures@ == chasers_of(a, before[j].player));
                        }
                    },
                    None => {
                        let mut creatures: Vec<usize> = Vec::new();
                        creatures.push(key);
                        proof {
                            assert(chasers_of(a, player).len() == 0);
                            assert(creatures@ =~= chasers_of(b, player));
                        }
                        tables::numbers_insert(&mut place, player as u64, groups.len() as u64);
                        groups.push(ChaseGroup { player, creatures });
                        assert forall|j: int| 0 <= j < groups@.len() implies tables::numbers(place).contains_key(
                            (#[trigger] groups@[j]).player as u64,
                        ) && tables::numbers(place)[groups@[j].player as u64] == j && groups@[j].creatures@ == chasers_of(
                            b,
                            groups@[j].player,
                        ) && groups@[j].creatures@.len() > 0 by {
                            if j < before.len() {
                                assert(before[j].player != player);
                            }
                        }
                    },
                }
            }
            i += 1;
        }
        assert(targets@.take(i as int) =~= targets@);
        let mut r: Vec<ChaseGroup> = Vec::new();
        let mut n: usize = 0;
        while n < groups.len()
            invariant
                n <= groups.len(),
                r@.len() == n,
                forall|j: int| 0 <= j < targets@.len() ==> self@.creatures.contains_key((#[trigger] targets@[j]).0),
                forall|j: int|
                    0 <= j < groups@.len() ==> (#[trigger] groups@[j]).creatures@ == chasers_of(
                        targets@,
                        groups@[j].player,
                    ) && groups@[j].creatures@.len() > 0,
                forall|j: int|
                    0 <= j < n ==> (#[trigger] r@[j]).player == groups@[j].player && r@[j].creatures@
                        == self@.lined_up(groups@[j].creatures@) && r@[j].creatures@.len() > 0,
            decreases groups.len() - n,
        {
            let g = &groups[n];
            proof {
                lemma_chasers_exist(*self, targets@, g.player);
                a_line_is_ordered_by_guid(self@, g.creatures@);
            }
            let creatures = self.line_up(&g.creatures);
            r.push(ChaseGroup { player: g.player, creatures });
            n += 1;
        }
        proof {
            assert forall|i: int, j: int| 0 <= i < j < r@.len() implies (#[trigger] r@[i]).player != (
            #[trigger] r@[j]).player by {
                assert(tables::numbers(place)[groups@[i].player as u64] == i);
                assert(tables::numbers(place)[groups@[j].player as u64] == j);
            }
            assert forall|p: usize| #[trigger] chasers_of(targets@, p).len() > 0 implies is_chased(r@, p) by {
                assert(tables::numbers(place).contains_key(p as u64));
                let j = tables::numbers(place)[p as u64] as int;
                assert(r@[j].player == groups@[j].player);
            }
        }
        r
    }
}

proof fn lemma_chasers_exist(state: MapState, targets: Seq<(usize, Option<usize>)>, player: usize)
    requires
        forall|i: int| 0 <= i < targets.len() ==> state@.creatures.contains_key((#[trigger] targets[i]).0),
    ensures
        forall|i: int|
            0 <= i < chasers_of(targets, player).len() ==> state@.creatures.contains_key(
                #[trigger] chasers_of(targets, player)[i],
            ),
    decreases targets.len(),
{
    if targets.len() > 0 {
        let init = targets.drop_last();
        assert forall|i: int| 0 <= i < init.len() implies state@.creatures.contains_key((#[trigger] init[i]).0) by {
            assert(init[i] == targets[i]);
        }
        lemma_chasers_exist(state, init, player);
        assert(state@.creatures.contains_key(targets[targets.len() - 1].0));
        let rest = chasers_of(init, player);
        assert forall|i: int| 0 <= i < chasers_of(targets, player).len() implies state@.creatures.contains_key(
            #[trigger] chasers_of(targets, player)[i],
        ) by {
            if i < rest.len() {
                assert(chasers_of(targets, player)[i] == rest[i]);
            }
        }
    }
}

/// Where a chasing creature would run.
#[derive(Debug, Clone, Copy)]
pub struct ChaseStep {
    pub creature: usize,
    pub to: Place,
    /// The distance from where the creature stands.
    pub dist: u32,
    pub duration_ms: u32,
}

/// The creature at the end of its run.
pub open spec fn run_to(c: Creature, to: Place) -> Creature {
    Creature { info: MovementInfo { position: to, ..c.info }, cached_object: None, ..c }
}

/// What is told of the run.
pub open spec fn told_of_run(c: Creature, s: ChaseStep) -> Outgoing {
    Outgoing {
        to: Audience::Near { map: c.map, place: s.to },
        what: Notice::MonsterMove { guid: c.guid, from: c.info.position, to: s.to, duration_ms: s.duration_ms },
    }
}

impl MapView {
    /// After the creatures of `steps` ran, one after the other, with what is
    /// told. A creature that is close enough stays.
    pub open spec fn all_ran(self, steps: Seq<ChaseStep>, threshold: u32) -> (MapView, Seq<Outgoing>)
        decreases steps.len(),
    {
        if steps.len() == 0 {
            (self, Seq::empty())
        } else {
            let (v, said) = self.all_ran(steps.drop_last(), threshold);
            let s = steps.last();
            if numeric::below(s.dist, threshold) || !v.creatures.contains_key(s.creature) {
                (v, said)
            } else {
                let c = v.creatures[s.creature];
                (
                    (MapView { creatures: v.creatures.insert(s.creature, run_to(c, s.to)), ..v }).reseated(s.creature),
                    said.push(told_of_run(c, s)),
                )
            }
        }
    }
}

impl MapState {
    /// Let the chasing creatures run, unless they are closer than `threshold`
    /// to where they would run.
    pub fn run_chasers(&mut self, steps: &Vec<ChaseStep>, threshold: u32, out: &mut Vec<Outgoing>)
        requires
            old(self).wf(),
        ensures
            final(self).wf(),
            old(self)@.index_is_live() ==> final(self)@.index_is_live(),
            final(self)@ == old(self)@.all_ran(steps@, threshold).0,
            final(out)@ == old(out)@ + old(self)@.all_ran(steps@, threshold).1,
    {
        let ghost was = self@;
        let ghost said = out@;
        let mut i: usize = 0;
        assert(steps@.take(0) =~= Seq::<ChaseStep>::empty());
        assert(out@ =~= said + was.all_ran(steps@.take(0), threshold).1);
        while i < steps.len()
            invariant
                i <= steps.len(),
                self.wf(),
                old(self)@.index_is_live() ==> self@.index_is_live(),
                self@ == was.all_ran(steps@.take(i as int), threshold).0,
                out@ == said + was.all_ran(steps@.take(i as int), threshold).1,
            decreases steps.len() - i,
        {
            let s = steps[i];
            let ghost before = self@;
            assert(steps@.take(i + 1).drop_last() =~= steps@.take(i as int));
            if !numeric::is_below(s.dist, threshold) {
                let mut ran: bool = false;
                match slabs::creatures_get_mut(&mut self.creatures, s.creature) {
                    Some(c) => {
                        ran = true;
                        out.push(
                            Outgoing {
                                to: Audience::Near { map: c.map, place: s.to },
                                what: Notice::MonsterMove {
                                    guid: c.guid,
                                    from: c.info.position,
                                    to: s.to,
                                    duration_ms: s.duration_ms,
                                },
                            },
                        );
                        c.info.position = s.to;
                        c.invalidate_object_cache();
                    },
                    None => {},
                }
                if ran {
                    assert(self@ =~= MapView {
                        creatures: before.creatures.insert(s.creature, run_to(before.creatures[s.creature], s.to)),
                        ..before
                    });
                    self.grid_move(s.creature);
                } else {
                    assert(self@ =~= before);
                }
            }
            proof {
                assert(self@ =~= was.all_ran(steps@.take(i + 1), threshold).0);
                assert(out@ =~= said + was.all_ran(steps@.take(i + 1), threshold).1);
            }
            i += 1;
        }
        assert(steps@.take(i as int) =~= steps@);
    }
}

/// A grid is awake exactly as long as a player is in it or in one of the eight around it.
pub proof fn players_keep_the_grids_around_them_awake(
    m: &mut MapState,
    u: (),
    after: &MapState,
    grid: (i32, i32),
    r: bool,
    k: usize,
)
    requires
        old(m).wf(),
        call_ensures(MapState::refresh_active_grids, (m,), u),
        *after == *final(m),
        call_ensures(MapState::grid_is_active, (after, grid), r),
    ensures
        ({
            let clients = old(m)@.clients;
            let at = clients[k].character.info.position.grid;
            &&& clients.contains_key(k) && -1 <= grid.0 - at.0 <= 1 && -1 <= grid.1 - at.1 <= 1 ==> r
            &&& r ==> exists|j: usize| #[trigger]
                clients.contains_key(j) && -1 <= grid.0 - clients[j].character.info.position.grid.0 <= 1 && -1
                    <= grid.1 - clients[j].character.info.position.grid.1 <= 1
        }),
        final(m)@.clients == old(m)@.clients,
        final(m)@.creatures == old(m)@.creatures,
{
    spatial::cell_ids_are_one_to_one(grid, 0);
    let clients = old(m)@.clients;
    let id = spatial::cell_id(grid);
    assert(awake_grids(clients).contains(id) <==> exists|j: usize| #[trigger]
        clients.contains_key(j) && grids_touch(spatial::cell_of(id), clients[j].character.info.position.grid));
}

proof fn lemma_root_of_one(v: MapView, keys: Seq<usize>, now: u64, k: usize)
    requires
        keys.no_duplicates(),
        forall|j: int| 0 <= j < keys.len() ==> v.creatures.contains_key(#[trigger] keys[j]),
    ensures
        ({
            let (w, said) = v.roots_expired(keys, now);
            let c = v.creatures[k];
            &&& w == (MapView { creatures: w.creatures, ..v })
            &&& w.creatures.dom() == v.creatures.dom()
            &&& w.creatures[k] == (if keys.contains(k) && root_expires(c, now) {
                unrooted(c)
            } else {
                c
            })
            &&& keys.contains(k) && root_expires(c, now) ==> forall|i: int|
                0 <= i < told_of_root(c).len() ==> said.contains(#[trigger] told_of_root(c)[i])
        }),
    decreases keys.len(),
{
    if keys.len() > 0 {
        let front = keys.drop_last();
        let last = keys.last();
        assert(keys =~= front.push(last));
        crate::aoi::lemma_push_contains(front, last, k);
        assert(!front.contains(last)) by {
            if front.contains(last) {
                let i = choose|i: int| 0 <= i < front.len() && front[i] == last;
                assert(keys[i] == keys[keys.len() - 1]);
            }
        }
        assert forall|j: int| 0 <= j < front.len() implies v.creatures.contains_key(#[trigger] front[j]) by {
            assert(front[j] == keys[j]);
        }
        assert(v.creatures.contains_key(keys[keys.len() - 1]));
        lemma_root_of_one(v, front, now, k);
        lemma_root_of_one(v, front, now, last);
        let (x, before) = v.roots_expired(front, now);
        let (w, said) = v.roots_expired(keys, now);
        assert(w.creatures.dom() =~= v.creatures.dom());
        let c = v.creatures[k];
        if keys.contains(k) && root_expires(c, now) {
            assert forall|i: int| 0 <= i < told_of_root(c).len() implies said.contains(#[trigger] told_of_root(c)[i]) by {
                let n = told_of_root(c)[i];
                if k == last {
                    assert(said[before.len() + i] == n);
                } else {
                    let j = choose|j: int| 0 <= j < before.len() && before[j] == n;
                    assert(said[j] == n);
                }
            }
        }
    }
}

/// A root holds until its time is over, and then it is gone: that is told to those near,
/// and a creature that walks about walks on, which is told as well. Otherwise nobody
/// changes.
pub proof fn roots_wear_off_in_time(m: &mut MapState, now: u64, out: &mut Vec<Outgoing>, u: (), k: usize)
    requires
        old(m).wf(),
        call_ensures(MapState::expire_roots, (m, now, out), u),
        old(m)@.creatures.contains_key(k),
    ensures
        ({
            let was = old(m)@.creatures[k];
            let after = final(m)@.creatures[k];
            let over = was.root_until is Some && was.root_until->0 <= now;
            let walks = was.behavior is RandomWander || was.behavior is Waypoint;
            let near = Audience::Near { map: was.map, place: was.info.position };
            &&& !over ==> after == was
            &&& over ==> after.root_until is None && after.info.position == was.info.position && after.health
                == was.health && after.life_state == was.life_state
            &&& over ==> after.info.flags == (if walks {
                1
            } else {
                was.info.flags
            })
            &&& over ==> final(out)@.contains(Outgoing { to: near, what: Notice::AurasCleared { guid: was.guid } })
            &&& over && walks ==> final(out)@.contains(
                Outgoing { to: near, what: Notice::StartForward { guid: was.guid, info: after.info } },
            )
        }),
        final(m)@.clients == old(m)@.clients,
        final(m)@.creatures.dom() == old(m)@.creatures.dom(),
{
    let keys = slabs::ordered(old(m)@.creatures.dom());
    let was = old(m)@.creatures[k];
    assert(keys.contains(k));
    assert forall|j: int| 0 <= j < keys.len() implies old(m)@.creatures.contains_key(#[trigger] keys[j]) by {
        assert(keys.contains(keys[j]));
    }
    lemma_root_of_one(old(m)@, keys, now, k);
    let said = old(m)@.roots_expired(keys, now).1;
    if root_expires(was, now) {
        let t = told_of_root(was);
        assert forall|i: int| 0 <= i < t.len() implies final(out)@.contains(#[trigger] t[i]) by {
            let j = choose|j: int| 0 <= j < said.len() && said[j] == t[i];
            assert(final(out)@[old(out)@.len() + j] == t[i]);
        }
        assert(final(out)@.contains(t[0]));
        if was.behavior.walks() {
            assert(final(out)@.contains(t[1]));
        }
    }
}

/// A creature that chases goes after the nearest player in range on its map; after nobody
/// while it is rooted, while no player is near its grid, or if nobody is in range.
pub proof fn the_nearest_player_is_chased(
    m: &MapState,
    dist_sq: &Vec<Vec<u32>>,
    range_sq: u32,
    now: u64,
    r: Vec<(usize, Option<usize>)>,
    i: int,
    p: int,
)
    requires
        m.wf(),
        dist_sq@.len() == m@.aggro.len(),
        forall|i: int| 0 <= i < dist_sq@.len() ==> (#[trigger] dist_sq@[i])@.len() == slabs::ordered(
            m@.clients.dom(),
        ).len(),
        forall|i: int| 0 <= i < m@.aggro.len() ==> m@.creatures.contains_key(#[trigger] m@.aggro[i]),
        call_ensures(MapState::pick_targets, (m, dist_sq, range_sq, now), r),
        0 <= i < m@.aggro.len(),
        0 <= p < slabs::ordered(m@.clients.dom()).len(),
        range_sq <= 0x7f80_0000,
        forall|j: int| 0 <= j < dist_sq@[i]@.len() ==> #[trigger] dist_sq@[i]@[j] <= 0x7f80_0000,
    ensures
        ({
            let keys = slabs::ordered(m@.clients.dom());
            let c = m@.creatures[m@.aggro[i]];
            let held = c.root_until is Some && c.root_until->0 > now;
            let awake = m@.active_grids.contains(spatial::cell_id(c.info.position.grid));
            let in_range = m@.clients[keys[p]].character.map == c.map && dist_sq@[i]@[p] <= range_sq;
            &&& r@.len() == m@.aggro.len()
            &&& r@[i].0 == m@.aggro[i]
            &&& held || !awake ==> r@[i].1 is None
            &&& !held && awake && in_range ==> r@[i].1 is Some
            &&& r@[i].1 is Some ==> exists|b: int|
                0 <= b < keys.len() && #[trigger] keys[b] == r@[i].1->0 && m@.clients[keys[b]].character.map == c.map
                    && dist_sq@[i]@[b] <= range_sq && (in_range ==> dist_sq@[i]@[b] <= dist_sq@[i]@[p])
        }),
{
    let keys = slabs::ordered(m@.clients.dom());
    let c = m@.creatures[m@.aggro[i]];
    let d = dist_sq@[i]@;
    let n = keys.len();
    lemma_nearest_is_a_choice(m@.clients, keys, d, n, c.map, range_sq);
    if chase_distance(m@.clients[keys[p]], c.map, d[p], range_sq) is Some {
        the_nearest_is_nearest(m@.clients, keys, d, n, c.map, range_sq, p);
    }
    assert(r@[i] == (m@.aggro[i], m@.target_of(m@.aggro[i], d, range_sq, now)));
    if r@[i].1 is Some {
        let b = nearest(m@.clients, keys, d, n, c.map, range_sq)->0;
        assert(keys[b] == r@[i].1->0);
        assert(chase_distance(m@.clients[keys[b]], c.map, d[b], range_sq) is Some);
        assert(d[b] <= 0x7f80_0000);
    }
}

proof fn lemma_chasers(targets: Seq<(usize, Option<usize>)>, p: usize, x: usize)
    ensures
        chasers_of(targets, p).contains(x) <==> exists|j: int|
            0 <= j < targets.len() && (#[trigger] targets[j]).0 == x && targets[j].1 == Some(p),
    decreases targets.len(),
{
    if targets.len() > 0 {
        let init = targets.drop_last();
        lemma_chasers(init, p, x);
        crate::aoi::lemma_push_contains(chasers_of(init, p), targets.last().0, x);
        if exists|j: int| 0 <= j < init.len() && (#[trigger] init[j]).0 == x && init[j].1 == Some(p) {
            let j = choose|j: int| 0 <= j < init.len() && (#[trigger] init[j]).0 == x && init[j].1 == Some(p);
            assert(targets[j].0 == x);
        }
        if exists|j: int| 0 <= j < targets.len() && (#[trigger] targets[j]).0 == x && targets[j].1 == Some(p) {
            let j = choose|j: int| 0 <= j < targets.len() && (#[trigger] targets[j]).0 == x && targets[j].1 == Some(p);
            if j < init.len() {
                assert(init[j].0 == x);
            }
        }
        assert(targets[targets.len() - 1] == targets.last());
    }
}

/// Every creature that chases somebody stands in the group of whom it chases, and nobody
/// else does; a group is in the order of guids, and each player has one group at most.
pub proof fn chasers_stand_with_whom_they_chase(
    m: &MapState,
    targets: &Vec<(usize, Option<usize>)>,
    r: Vec<ChaseGroup>,
    j: int,
    g: int,
    a: int,
    b: int,
)
    requires
        forall|i: int| 0 <= i < targets@.len() ==> m@.creatures.contains_key((#[trigger] targets@[i]).0),
        call_ensures(MapState::group_chasers, (m, targets), r),
        0 <= j < targets@.len(),
        0 <= g < r@.len(),
        0 <= a < b < r@[g].creatures@.len(),
    ensures
        targets@[j].1 is Some ==> exists|i: int|
            0 <= i < r@.len() && (#[trigger] r@[i]).player == targets@[j].1->0 && r@[i].creatures@.contains(targets@[j].0),
        exists|i: int|
            0 <= i < targets@.len() && (#[trigger] targets@[i]).0 == r@[g].creatures@[a] && targets@[i].1 == Some(
                r@[g].player,
            ),
        m@.creatures[r@[g].creatures@[a]].guid <= m@.creatures[r@[g].creatures@[b]].guid,
        forall|i: int| 0 <= i < r@.len() && i != g ==> (#[trigger] r@[i]).player != r@[g].player,
{
    let t = targets@;
    let line = r@[g].creatures@;
    let from = chasers_of(t, r@[g].player);
    a_line_is_ordered_by_guid(m@, from);
    lemma_lined_up_same(m@, from, line[a]);
    assert(line.contains(line[a]));
    lemma_chasers(t, r@[g].player, line[a]);
    if t[j].1 is Some {
        let p = t[j].1->0;
        lemma_chasers(t, p, t[j].0);
        assert(chasers_of(t, p).contains(t[j].0));
        assert(chasers_of(t, p).len() > 0);
        assert(is_chased(r@, p));
        let i = choose|i: int| 0 <= i < r@.len() && (#[trigger] r@[i]).player == p;
        lemma_lined_up_same(m@, chasers_of(t, p), t[j].0);
        assert(r@[i].creatures@.contains(t[j].0));
    }
    assert forall|i: int| 0 <= i < r@.len() && i != g implies (#[trigger] r@[i]).player != r@[g].player by {
        if i < g {
            assert(r@[i].player != r@[g].player);
        } else {
            assert(r@[g].player != r@[i].player);
        }
    }
}

proof fn lemma_lined_up_same(v: MapView, keys: Seq<usize>, x: usize)
    ensures
        v.lined_up(keys).contains(x) <==> keys.contains(x),
{
    broadcast use vstd::seq_lib::group_to_multiset_ensures;

    a_line_is_ordered_by_guid(v, keys);
    assert(v.lined_up(keys).contains(x) <==> v.lined_up(keys).to_multiset().count(x) > 0);
    assert(keys.contains(x) <==> keys.to_multiset().count(x) > 0);
}

/// Whether no creature of `steps` runs twice.
pub open spec fn each_runs_once(steps: Seq<ChaseStep>) -> bool {
    forall|i: int, j: int| 0 <= i < j < steps.len() ==> (#[trigger] steps[i]).creature != (#[trigger] steps[j]).creature
}

proof fn lemma_one_ran(v: MapView, steps: Seq<ChaseStep>, threshold: u32, k: usize)
    requires
        each_runs_once(steps),
    ensures
        ({
            let (w, said) = v.all_ran(steps, threshold);
            &&& w.creatures.dom() == v.creatures.dom()
            &&& w.clients == v.clients
            &&& (forall|i: int| 0 <= i < steps.len() ==> (#[trigger] steps[i]).creature != k) ==> w.creatures[k]
                == v.creatures[k]
            &&& forall|i: int|
                0 <= i < steps.len() && (#[trigger] steps[i]).creature == k && v.creatures.contains_key(k) ==> {
                    if numeric::below(steps[i].dist, threshold) {
                        w.creatures[k] == v.creatures[k]
                    } else {
                        &&& w.creatures[k] == run_to(v.creatures[k], steps[i].to)
                        &&& said.contains(told_of_run(v.creatures[k], steps[i]))
                        &&& !(v.creatures[k].life_state is Respawning) ==> w.creature_cells.contains_key(k)
                            && w.creature_cells[k] == steps[i].to.cell
                    }
                }
        }),
    decreases steps.len(),
{
    if steps.len() > 0 {
        let front = steps.drop_last();
        let s = steps.last();
        assert(each_runs_once(front)) by {
            assert forall|i: int, j: int| 0 <= i < j < front.len() implies (#[trigger] front[i]).creature != (
            #[trigger] front[j]).creature by {
                assert(steps[i].creature != steps[j].creature);
            }
        }
        lemma_one_ran(v, front, threshold, k);
        let (x, before) = v.all_ran(front, threshold);
        let (w, said) = v.all_ran(steps, threshold);
        assert(w.creatures.dom() =~= v.creatures.dom());
        assert(steps[steps.len() - 1] == s);
        if s.creature == k {
            assert forall|i: int| 0 <= i < front.len() implies (#[trigger] front[i]).creature != k by {
                assert(steps[i].creature != steps[steps.len() - 1].creature);
            }
        }
        assert forall|i: int| 0 <= i < front.len() implies front[i] == #[trigger] steps[i] by {}
        if forall|i: int| 0 <= i < steps.len() ==> (#[trigger] steps[i]).creature != k {
            assert forall|i: int| 0 <= i < front.len() implies (#[trigger] front[i]).creature != k by {
                assert(steps[i].creature != k);
            }
        }
        assert forall|i: int|
            0 <= i < steps.len() && (#[trigger] steps[i]).creature == k && v.creatures.contains_key(k) implies {
            if numeric::below(steps[i].dist, threshold) {
                w.creatures[k] == v.creatures[k]
            } else {
                &&& w.creatures[k] == run_to(v.creatures[k], steps[i].to)
                &&& said.contains(told_of_run(v.creatures[k], steps[i]))
                &&& !(v.creatures[k].life_state is Respawning) ==> w.creature_cells.contains_key(k)
                    && w.creature_cells[k] == steps[i].to.cell
            }
        } by {
            let n = told_of_run(v.creatures[k], steps[i]);
            if i < front.len() {
                assert(front[i].creature == k);
                if !numeric::below(steps[i].dist, threshold) {
                    let j = choose|j: int| 0 <= j < before.len() && before[j] == n;
                    assert(said[j] == n);
                }
            } else if !numeric::below(steps[i].dist, threshold) {
                assert(x.creatures[k] == v.creatures[k]);
                assert(said[before.len() as int] == n);
            }
        }
    }
}

/// A creature that chases runs to where it is sent, is seated there, and those near that
/// place are told from where it came; one that is already closer than the threshold stays.
/// Nobody else moves.
pub proof fn chasers_run_to_their_places(
    m: &mut MapState,
    steps: &Vec<ChaseStep>,
    threshold: u32,
    out: &mut Vec<Outgoing>,
    u: (),
    i: int,
    other: usize,
)
    requires
        old(m).wf(),
        call_ensures(MapState::run_chasers, (m, steps, threshold, out), u),
        each_runs_once(steps@),
        0 <= i < steps@.len(),
        old(m)@.creatures.contains_key(steps@[i].creature),
        steps@[i].dist <= 0x7f80_0000,
        threshold <= 0x7f80_0000,
    ensures
        ({
            let s = steps@[i];
            let was = old(m)@.creatures[s.creature];
            let after = final(m)@.creatures[s.creature];
            &&& s.dist < threshold ==> after == was
            &&& threshold <= s.dist ==> {
                &&& after.info.position == s.to
                &&& after.info.orientation == was.info.orientation && after.info.flags == was.info.flags
                &&& after.health == was.health && after.guid == was.guid && after.life_state == was.life_state
                &&& after.cached_object is None
                &&& !(was.life_state is Respawning) ==> final(m)@.creature_cells[s.creature] == s.to.cell
                &&& final(out)@.contains(
                    Outgoing {
                        to: Audience::Near { map: was.map, place: s.to },
                        what: Notice::MonsterMove {
                            guid: was.guid,
                            from: was.info.position,
                            to: s.to,
                            duration_ms: s.duration_ms,
                        },
                    },
                )
            }
        }),
        (forall|j: int| 0 <= j < steps@.len() ==> (#[trigger] steps@[j]).creature != other) ==> final(m)@.creatures[other] == old(m)@.creatures[other],
        final(m)@.clients == old(m)@.clients,
{
    let s = steps@[i];
    lemma_one_ran(old(m)@, steps@, threshold, s.creature);
    lemma_one_ran(old(m)@, steps@, threshold, other);
    let said = old(m)@.all_ran(steps@, threshold).1;
    assert(steps@[i].creature == s.creature);
    if threshold <= s.dist {
        let n = told_of_run(old(m)@.creatures[s.creature], s);
        let j = choose|j: int| 0 <= j < said.len() && said[j] == n;
        assert(final(out)@[old(out)@.len() + j] == n);
    }
}

proof fn lemma_first_of_ties(
    clients: Map<usize, ClientView>,
    keys: Seq<usize>,
    dist_sq: Seq<u32>,
    n: nat,
    map: u32,
    range_sq: u32,
    p: int,
)
    requires
        0 <= p < n,
        range_sq <= 0x7f80_0000,
        forall|j: int| 0 <= j < n ==> #[trigger] dist_sq[j] <= 0x7f80_0000,
        chase_distance(clients[keys[p]], map, dist_sq[p], range_sq) is Some,
    ensures
        ({
            let b = nearest(clients, keys, dist_sq, n, map, range_sq);
            b is Some && 0 <= b->0 < n && (dist_sq[b->0] < dist_sq[p] || dist_sq[b->0] == dist_sq[p] && b->0 <= p)
        }),
    decreases n,
{
    let i = n - 1;
    if p < i {
        lemma_first_of_ties(clients, keys, dist_sq, (n - 1) as nat, map, range_sq, p);
        assert(dist_sq[i] <= 0x7f80_0000);
        let b = nearest(clients, keys, dist_sq, (n - 1) as nat, map, range_sq)->0;
        assert(dist_sq[b] <= 0x7f80_0000);
    } else {
        lemma_nearest_is_a_choice(clients, keys, dist_sq, (n - 1) as nat, map, range_sq);
        if let Some(b) = nearest(clients, keys, dist_sq, (n - 1) as nat, map, range_sq) {
            assert(dist_sq[b] <= 0x7f80_0000);
        }
        assert(dist_sq[i] <= 0x7f80_0000);
    }
}

/// Of several players who are equally near, the one who came first is chased.
pub proof fn the_first_of_the_nearest_is_chased(
    m: &MapState,
    dist_sq: &Vec<Vec<u32>>,
    range_sq: u32,
    now: u64,
    r: Vec<(usize, Option<usize>)>,
    i: int,
    p: int,
)
    requires
        m.wf(),
        dist_sq@.len() == m@.aggro.len(),
        forall|i: int| 0 <= i < dist_sq@.len() ==> (#[trigger] dist_sq@[i])@.len() == slabs::ordered(
            m@.clients.dom(),
        ).len(),
        forall|i: int| 0 <= i < m@.aggro.len() ==> m@.creatures.contains_key(#[trigger] m@.aggro[i]),
        call_ensures(MapState::pick_targets, (m, dist_sq, range_sq, now), r),
        0 <= i < m@.aggro.len(),
        0 <= p < slabs::ordered(m@.clients.dom()).len(),
        range_sq <= 0x7f80_0000,
        forall|j: int| 0 <= j < dist_sq@[i]@.len() ==> #[trigger] dist_sq@[i]@[j] <= 0x7f80_0000,
        m@.clients[slabs::ordered(m@.clients.dom())[p]].character.map == m@.creatures[m@.aggro[i]].map,
        dist_sq@[i]@[p] <= range_sq,
        r@[i].1 is Some,
    ensures
        exists|b: int|
            0 <= b < dist_sq@[i]@.len() && #[trigger] slabs::ordered(m@.clients.dom())[b] == r@[i].1->0 && (dist_sq@[i]@[b]
                < dist_sq@[i]@[p] || dist_sq@[i]@[b] == dist_sq@[i]@[p] && b <= p),
{
    let keys = slabs::ordered(m@.clients.dom());
    let c = m@.creatures[m@.aggro[i]];
    let d = dist_sq@[i]@;
    lemma_first_of_ties(m@.clients, keys, d, keys.len(), c.map, range_sq, p);
    assert(r@[i] == (m@.aggro[i], m@.target_of(m@.aggro[i], d, range_sq, now)));
    let b = nearest(m@.clients, keys, d, keys.len(), c.map, range_sq)->0;
    assert(keys[b] == r@[i].1->0);
}

} // verus!

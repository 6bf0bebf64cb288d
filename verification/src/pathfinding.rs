//! Where the ground is.
//!
//! The terrain of a map comes in tiles that are loaded when they are first asked
//! for.
use crate::tables;
use ahash::AHashSet;
use vstd::prelude::*;

verus! {

/// A map is 64 tiles wide and high.
pub const TILES: i32 = 64;

/// The tile of which the number is nearest to `t`.
pub open spec fn nearest_tile(t: i32) -> i32 {
    if t < 0 {
        0
    } else if t > 63 {
        63
    } else {
        t
    }
}

/// What is outside of a map belongs to the tiles at its edge.
pub fn clamp_tile(t: i32) -> (r: i32)
    ensures
        r == nearest_tile(t),
        0 <= r < TILES,
{
    if t < 0 {
        0
    } else if t > 63 {
        63
    } else {
        t
    }
}

/// How many threads build maps: two are left to others, but one builds in any
/// case.
pub fn build_threads(available: u32) -> (r: u32)
    ensures
        r == (if available > 3 {
            (available - 2) as u32
        } else {
            1
        }),
{
    let t: u32 = available.saturating_sub(2);
    if t == 0 {
        1
    } else {
        t
    }
}

/// The number that stands for a tile of a map.
pub open spec fn tile_key(map: u32, tile: (i32, i32)) -> int {
    map * 4096 + tile.0 * 64 + tile.1
}

/// What is to be done for the height of the ground in a tile.
#[derive(Debug, Clone, Copy, PartialEq, Eq, Structural)]
pub enum TileStep {
    /// There is no terrain of that map.
    NoMap,
    /// The tile is loaded first; where that fails there is no height.
    Load,
    /// The tile is asked.
    Query,
}

/// The tiles that were asked for.
#[derive(Debug)]
pub struct PathfindingMaps {
    attempted: AHashSet<u64>,
}

impl View for PathfindingMaps {
    type V = Set<u64>;

    closed spec fn view(&self) -> Set<u64> {
        tables::members(self.attempted)
    }
}

impl PathfindingMaps {
    pub fn new() -> (r: Self)
        ensures
            r@ == Set::<u64>::empty(),
    {
        PathfindingMaps { attempted: tables::members_new() }
    }

    /// How many tiles were asked for.
    pub fn attempted_adt_count(&self) -> (r: usize)
        ensures
            r as nat == self@.len(),
    {
        tables::members_len(&self.attempted)
    }

    /// Ask for the ground of a tile. A tile is loaded once, whether that succeeds
    /// or not.
    pub fn ask(&mut self, has_map: bool, map: u32, tile: (i32, i32)) -> (r: TileStep)
        requires
            0 <= tile.0 < TILES,
            0 <= tile.1 < TILES,
        ensures
            r == (if !has_map {
                TileStep::NoMap
            } else if old(self)@.contains(tile_key(map, tile) as u64) {
                TileStep::Query
            } else {
                TileStep::Load
            }),
            final(self)@ == (if has_map {
                old(self)@.insert(tile_key(map, tile) as u64)
            } else {
                old(self)@
            }),
    {
        if !has_map {
            return TileStep::NoMap;
        }
        let key: u64 = (map as u64) * 4096 + (tile.0 as u64) * 64 + tile.1 as u64;
        if tables::members_contains(&self.attempted, key) {
            assert(self@.insert(key) =~= self@);
            TileStep::Query
        } else {
            tables::members_insert(&mut self.attempted, key);
            TileStep::Load
        }
    }
}

/// No two tiles have the same number.
pub proof fn tiles_are_apart(a: u32, s: (i32, i32), b: u32, t: (i32, i32))
    requires
        0 <= s.0 < TILES,
        0 <= s.1 < TILES,
        0 <= t.0 < TILES,
        0 <= t.1 < TILES,
        tile_key(a, s) as u64 == tile_key(b, t) as u64,
    ensures
        a == b,
        s == t,
{
}

/// Whether the bit pattern is that of a number.
pub open spec fn is_number(bits: u32) -> bool {
    bits <= 0x7f80_0000
}

/// The nearest of the heights, given how far each lies off, as bit patterns: the
/// first of those that are as near. A distance that is no number is neither nearer
/// nor farther than another.
pub open spec fn nearest(off: Seq<u32>) -> int
    decreases off.len(),
{
    if off.len() <= 1 {
        0
    } else {
        let best = nearest(off.drop_last());
        if is_number(off.last()) && is_number(off[best]) && off.last() < off[best] {
            off.len() - 1
        } else {
            best
        }
    }
}

proof fn lemma_nearest(off: Seq<u32>)
    requires
        off.len() > 0,
    ensures
        0 <= nearest(off) < off.len(),
    decreases off.len(),
{
    if off.len() > 1 {
        lemma_nearest(off.drop_last());
    }
}

/// Pick the height of the ground in a column; there is none in an empty one.
pub fn closest_height(off: &Vec<u32>) -> (r: Option<usize>)
    ensures
        match r {
            Some(i) => off@.len() > 0 && i == nearest(off@) && i < off@.len(),
            None => off@.len() == 0,
        },
{
    if off.len() == 0 {
        return None;
    }
    let mut best: usize = 0;
    let mut i: usize = 1;
    assert(off@.take(1).len() == 1);
    while i < off.len()
        invariant
            1 <= i <= off@.len(),
            best < i,
            best == nearest(off@.take(i as int)),
        decreases off.len() - i,
    {
        proof {
            assert(off@.take(i + 1).drop_last() =~= off@.take(i as int));
            assert(off@.take(i + 1).last() == off@[i as int]);
        }
        if off[i] <= 0x7f80_0000 && off[best] <= 0x7f80_0000 && off[i] < off[best] {
            best = i;
        }
        i += 1;
    }
    assert(off@.take(i as int) =~= off@);
    Some(best)
}

/// No height lies nearer than the one that is picked.
pub proof fn nothing_is_nearer(off: Seq<u32>, i: int)
    requires
        0 <= i < off.len(),
        forall|j: int| 0 <= j < off.len() ==> is_number(#[trigger] off[j]),
    ensures
        0 <= nearest(off) < off.len(),
        off[nearest(off)] <= off[i],
    decreases off.len(),
{
    lemma_nearest(off);
    if off.len() > 1 {
        let front = off.drop_last();
        lemma_nearest(front);
        assert forall|j: int| 0 <= j < front.len() implies is_number(#[trigger] front[j]) by {
            assert(front[j] == off[j]);
        }
        assert(is_number(off[nearest(front)]));
        assert(is_number(off[off.len() - 1]));
        if i < off.len() - 1 {
            nothing_is_nearer(front, i);
        }
    }
}

/// A tile inside the map is its own nearest; outside it is the one at the edge.
pub proof fn tiles_are_cut_off_at_the_edge(t: i32, r: i32, available: u32, threads: u32)
    requires
        call_ensures(clamp_tile, (t,), r),
        call_ensures(build_threads, (available,), threads),
    ensures
        0 <= t < 64 ==> r == t,
        t < 0 ==> r == 0,
        t >= 64 ==> r == 63,
        available >= 3 ==> threads == available - 2,
        available < 3 ==> threads == 1,
{
}

/// A tile is loaded the first time that it is asked for, and not again; other tiles are not
/// touched. Without terrain there is nothing to load.
pub proof fn a_tile_is_loaded_once(
    a: &mut PathfindingMaps,
    map: u32,
    tile: (i32, i32),
    first: TileStep,
    b: &mut PathfindingMaps,
    then: TileStep,
    c: &mut PathfindingMaps,
    none: TileStep,
)
    requires
        0 <= tile.0 < 64,
        0 <= tile.1 < 64,
        call_ensures(PathfindingMaps::ask, (a, true, map, tile), first),
        *old(b) == *final(a),
        call_ensures(PathfindingMaps::ask, (b, true, map, tile), then),
        call_ensures(PathfindingMaps::ask, (c, false, map, tile), none),
    ensures
        !(first is NoMap),
        then is Query,
        old(a)@.len() == 0 && old(a)@.finite() ==> first is Load,
        none is NoMap && final(c)@ == old(c)@,
{
    if old(a)@.len() == 0 && old(a)@.finite() {
        assert(old(a)@ =~= Set::<u64>::empty());
    }
}

/// The height that is picked is one of those that there are, and none is nearer.
pub proof fn the_nearest_height_is_picked(off: &Vec<u32>, r: Option<usize>, i: int)
    requires
        call_ensures(closest_height, (off,), r),
        0 <= i < off@.len(),
        forall|j: int| 0 <= j < off@.len() ==> (#[trigger] off@[j]) <= 0x7f80_0000,
    ensures
        r is Some,
        r->0 < off@.len(),
        off@[r->0 as int] <= off@[i],
{
    assert forall|j: int| 0 <= j < off@.len() implies is_number(#[trigger] off@[j]) by {}
    nothing_is_nearer(off@, i);
}

} // verus!

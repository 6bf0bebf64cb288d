//! What a map does in a tick, one thing after the other, and how long it takes.
use crate::tick::Census;
use crate::world::PerCellTickResult;
use vstd::prelude::*;

verus! {

/// Something that a map does in a tick.
#[derive(Debug, Clone, Copy, PartialEq, Eq, Structural)]
pub enum Phase {
    /// What the clients sent is handled, and they swing at whom they attack.
    Clients,
    /// It is noted where everybody stands now.
    View,
    /// Those near hear of who moved.
    Movement,
    /// What came into sight is shown, what went out of it is withdrawn.
    Sight,
    /// Commands are carried out.
    Commands,
    /// Corpses vanish, and creatures come back.
    Corpses,
    /// Creatures chase and walk.
    Creatures,
    /// Who asked to leave does.
    Logouts,
    /// Broken connections are dropped.
    Stale,
    /// Who changed maps is taken off this one.
    Changers,
    /// The pacer learns how long it all took.
    Done,
}

/// What comes next.
pub open spec fn next_phase(p: Phase) -> Phase {
    match p {
        Phase::Clients => Phase::View,
        Phase::View => Phase::Movement,
        Phase::Movement => Phase::Sight,
        Phase::Sight => Phase::Commands,
        Phase::Commands => Phase::Corpses,
        Phase::Corpses => Phase::Creatures,
        Phase::Creatures => Phase::Logouts,
        Phase::Logouts => Phase::Stale,
        Phase::Stale => Phase::Changers,
        Phase::Changers => Phase::Done,
        Phase::Done => Phase::Done,
    }
}

/// The result in which `took` is the time of the phase. The pacer does not learn of
/// what comes after the logouts.
pub open spec fn timed(r: PerCellTickResult, p: Phase, took: u64) -> PerCellTickResult {
    match p {
        Phase::Clients => PerCellTickResult { t_per_client: took, ..r },
        Phase::View => PerCellTickResult { t_build_view: took, ..r },
        Phase::Movement => PerCellTickResult { t_flush: took, ..r },
        Phase::Sight => PerCellTickResult { t_aoi: took, ..r },
        Phase::Commands => PerCellTickResult { t_apply_cmds: took, ..r },
        Phase::Corpses => PerCellTickResult { t_corpses: took, ..r },
        Phase::Creatures => PerCellTickResult { t_creatures: took, ..r },
        Phase::Logouts => PerCellTickResult { t_logouts: took, ..r },
        _ => r,
    }
}

/// A tick under way: what is to be done, and what it came to so far.
#[derive(Debug, Clone, Copy, PartialEq, Eq, Structural)]
pub struct MapTick {
    pub phase: Phase,
    pub result: PerCellTickResult,
}

/// A tick that begins.
pub open spec fn fresh(map: u32) -> MapTick {
    MapTick { phase: Phase::Clients, result: PerCellTickResult { map, skipped: false, ..crate::world::no_result() } }
}

/// What comes of a map that is left out this time: nothing happened, and those on it
/// are counted all the same.
pub fn skip(map: u32, census: Census) -> (r: PerCellTickResult)
    ensures
        r == (PerCellTickResult { map, skipped: true, census, ..crate::world::no_result() }),
{
    let mut r = PerCellTickResult::empty();
    r.map = map;
    r.skipped = true;
    r.census = census;
    r
}

impl MapTick {
    /// The tick after its phase, which took `took`.
    pub open spec fn after(self, took: u64) -> MapTick {
        MapTick { phase: next_phase(self.phase), result: timed(self.result, self.phase, took) }
    }

    pub fn begin(map: u32) -> (r: Self)
        ensures
            r == fresh(map),
    {
        let mut result = PerCellTickResult::empty();
        result.map = map;
        result.skipped = false;
        MapTick { phase: Phase::Clients, result }
    }

    /// The phase was carried out and took `took`.
    pub fn finish(&mut self, took: u64)
        ensures
            *final(self) == old(self).after(took),
    {
        match self.phase {
            Phase::Clients => {
                self.result.t_per_client = took;
                self.phase = Phase::View;
            },
            Phase::View => {
                self.result.t_build_view = took;
                self.phase = Phase::Movement;
            },
            Phase::Movement => {
                self.result.t_flush = took;
                self.phase = Phase::Sight;
            },
            Phase::Sight => {
                self.result.t_aoi = took;
                self.phase = Phase::Commands;
            },
            Phase::Commands => {
                self.result.t_apply_cmds = took;
                self.phase = Phase::Corpses;
            },
            Phase::Corpses => {
                self.result.t_corpses = took;
                self.phase = Phase::Creatures;
            },
            Phase::Creatures => {
                self.result.t_creatures = took;
                self.phase = Phase::Logouts;
            },
            Phase::Logouts => {
                self.result.t_logouts = took;
                self.phase = Phase::Stale;
            },
            Phase::Stale => {
                self.phase = Phase::Changers;
            },
            Phase::Changers => {
                self.phase = Phase::Done;
            },
            Phase::Done => {
            },
        }
    }

    /// What came of the tick, with those who are on the map at its end.
    pub fn report(&self, census: Census) -> (r: PerCellTickResult)
        ensures
            r == (PerCellTickResult { census, ..self.result }),
    {
        let mut r = self.result;
        r.census = census;
        r
    }
}

/// The tick after the first phases, which took what `tooks` says.
pub open spec fn carried_out(start: MapTick, tooks: Seq<u64>) -> MapTick
    decreases tooks.len(),
{
    if tooks.len() == 0 {
        start
    } else {
        carried_out(start, tooks.drop_last()).after(tooks.last())
    }
}

/// How many phases come before this one.
pub open spec fn place(p: Phase) -> int {
    match p {
        Phase::Clients => 0,
        Phase::View => 1,
        Phase::Movement => 2,
        Phase::Sight => 3,
        Phase::Commands => 4,
        Phase::Corpses => 5,
        Phase::Creatures => 6,
        Phase::Logouts => 7,
        Phase::Stale => 8,
        Phase::Changers => 9,
        Phase::Done => 10,
    }
}

/// The sum of `tooks`.
pub open spec fn altogether(tooks: Seq<u64>) -> int
    decreases tooks.len(),
{
    if tooks.len() == 0 {
        0
    } else {
        altogether(tooks.drop_last()) + tooks.last()
    }
}

proof fn lemma_carried_out(map: u32, tooks: Seq<u64>)
    ensures
        ({
            let t = carried_out(fresh(map), tooks);
            let r = t.result;
            let n = tooks.len();
            &&& place(t.phase) == if n < 10 {
                n as int
            } else {
                10
            }
            &&& r == (PerCellTickResult {
                map,
                skipped: false,
                t_per_client: nth(tooks, 0),
                t_build_view: nth(tooks, 1),
                t_flush: nth(tooks, 2),
                t_aoi: nth(tooks, 3),
                t_apply_cmds: nth(tooks, 4),
                t_corpses: nth(tooks, 5),
                t_creatures: nth(tooks, 6),
                t_logouts: nth(tooks, 7),
                census: crate::world::no_result().census,
            })
        }),
    decreases tooks.len(),
{
    if tooks.len() > 0 {
        lemma_carried_out(map, tooks.drop_last());
    }
}

/// What stands at `i` in `tooks`, or nothing.
pub open spec fn nth(tooks: Seq<u64>, i: int) -> u64 {
    if i < tooks.len() {
        tooks[i]
    } else {
        0
    }
}

/// A tick goes through its phases in their order, each once, and then it is done;
/// what the pacer learns is what it took up to the logouts.
pub proof fn every_phase_has_its_turn(map: u32, tooks: Seq<u64>)
    ensures
        place(carried_out(fresh(map), tooks).phase) == if tooks.len() < 10 {
            tooks.len() as int
        } else {
            10
        },
        tooks.len() >= 8 ==> carried_out(fresh(map), tooks).result.total() == altogether(tooks.take(8)),
{
    lemma_carried_out(map, tooks);
    if tooks.len() >= 8 {
        let t = tooks.take(8);
        reveal_with_fuel(altogether, 9);
        assert(t.drop_last() =~= tooks.take(7));
        assert(tooks.take(7).drop_last() =~= tooks.take(6));
        assert(tooks.take(6).drop_last() =~= tooks.take(5));
        assert(tooks.take(5).drop_last() =~= tooks.take(4));
        assert(tooks.take(4).drop_last() =~= tooks.take(3));
        assert(tooks.take(3).drop_last() =~= tooks.take(2));
        assert(tooks.take(2).drop_last() =~= tooks.take(1));
        assert(tooks.take(1).drop_last() =~= tooks.take(0));
    }
}

/// A tick handles the clients first; then it is noted where everybody stands, who moved is
/// told, what is in sight is shown, commands are carried out, corpses vanish, creatures move,
/// who asked to leaves, broken connections are dropped, and map changers are taken off. Each
/// phase keeps how long it took.
pub proof fn phases_follow_each_other(map: u32, b: MapTick, t: &mut MapTick, took: u64, u: ())
    requires
        call_ensures(MapTick::begin, (map,), b),
        call_ensures(MapTick::finish, (t, took), u),
    ensures
        b.phase is Clients && b.result.map == map && !b.result.skipped,
        old(t).phase is Clients ==> final(t).phase is View && final(t).result.t_per_client == took,
        old(t).phase is View ==> final(t).phase is Movement && final(t).result.t_build_view == took,
        old(t).phase is Movement ==> final(t).phase is Sight && final(t).result.t_flush == took,
        old(t).phase is Sight ==> final(t).phase is Commands && final(t).result.t_aoi == took,
        old(t).phase is Commands ==> final(t).phase is Corpses && final(t).result.t_apply_cmds == took,
        old(t).phase is Corpses ==> final(t).phase is Creatures && final(t).result.t_corpses == took,
        old(t).phase is Creatures ==> final(t).phase is Logouts && final(t).result.t_creatures == took,
        old(t).phase is Logouts ==> final(t).phase is Stale && final(t).result.t_logouts == took,
        old(t).phase is Stale ==> final(t).phase is Changers,
        old(t).phase is Changers ==> final(t).phase is Done,
        old(t).phase is Done ==> final(t).phase is Done,
        !(old(t).phase is Clients) ==> final(t).result.t_per_client == old(t).result.t_per_client,
        !(old(t).phase is View) ==> final(t).result.t_build_view == old(t).result.t_build_view,
        !(old(t).phase is Movement) ==> final(t).result.t_flush == old(t).result.t_flush,
        !(old(t).phase is Sight) ==> final(t).result.t_aoi == old(t).result.t_aoi,
        !(old(t).phase is Commands) ==> final(t).result.t_apply_cmds == old(t).result.t_apply_cmds,
        !(old(t).phase is Corpses) ==> final(t).result.t_corpses == old(t).result.t_corpses,
        !(old(t).phase is Creatures) ==> final(t).result.t_creatures == old(t).result.t_creatures,
        !(old(t).phase is Logouts) ==> final(t).result.t_logouts == old(t).result.t_logouts,
        final(t).result.map == old(t).result.map && final(t).result.skipped == old(t).result.skipped
            && final(t).result.census == old(t).result.census,
{
}

/// A map that is left out takes no time and is counted all the same; what is reported of one
/// that was not is what it took, and who is there.
pub proof fn everybody_is_counted_either_way(map: u32, census: Census, s: PerCellTickResult, t: &MapTick, r: PerCellTickResult)
    requires
        call_ensures(skip, (map, census), s),
        call_ensures(MapTick::report, (t, census), r),
    ensures
        s.skipped && s.map == map && s.census == census && s.total() == 0,
        r.census == census && r.map == t.result.map && r.skipped == t.result.skipped && r.total() == t.result.total(),
        r.t_per_client == t.result.t_per_client && r.t_creatures == t.result.t_creatures && r.t_aoi == t.result.t_aoi,
{
}

} // verus!

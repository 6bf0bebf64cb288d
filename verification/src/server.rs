//! How the world is started, saved and stopped.
use crate::clock;
use crate::config::{CombatConfig, RespawnConfig};
use crate::creature::{Creature, Position};
use crate::database;
use crate::database::{DbView, WorldDatabase};
use crate::snapshot;
use crate::snapshot::{Cells, WorldSnapshot};
use vstd::prelude::*;

verus! {

/// When the world is saved.
#[derive(Debug, Clone, Copy, PartialEq, Eq, Structural)]
pub struct Saver {
    pub interval: u64,
    pub next_save: u64,
}

/// What follows a tick.
#[derive(Debug, Clone, Copy, PartialEq, Eq, Structural)]
pub struct AfterTick {
    pub save: bool,
    pub exit: bool,
}

impl Saver {
    /// What follows a tick that ended at `now`.
    pub open spec fn following(self, now: u64, shutdown: bool) -> AfterTick {
        AfterTick { save: shutdown || now >= self.next_save, exit: shutdown }
    }

    pub fn new(interval: u64, now: u64) -> (r: Self)
        ensures
            r == (Saver { interval, next_save: clock::later_spec(now, interval) }),
    {
        Saver { interval, next_save: clock::later(now, interval) }
    }

    /// Whether the world is saved after a tick, and whether it ends. It is saved
    /// when it is time and before it ends.
    pub fn after_tick(&mut self, now: u64, shutdown: bool) -> (r: AfterTick)
        ensures
            r == old(self).following(now, shutdown),
            *final(self) == (if r.save {
                Saver { next_save: clock::later_spec(now, old(self).interval), ..*old(self) }
            } else {
                *old(self)
            }),
    {
        let save: bool = shutdown || now >= self.next_save;
        if save {
            self.next_save = clock::later(now, self.interval);
        }
        AfterTick { save, exit: shutdown }
    }
}

/// The world does not end without being saved.
pub proof fn the_last_tick_is_saved(s: Saver, now: u64, shutdown: bool)
    ensures
        s.following(now, shutdown).exit ==> s.following(now, shutdown).save,
{
}

/// The characters to start with: those who were kept, or the first ones.
pub fn start_database(
    kept: Option<WorldSnapshot>,
    at: &Vec<Cells>,
    start: Position,
    combat: &CombatConfig,
) -> (r: WorldDatabase)
    requires
        kept is Some ==> at@.len() == kept->0.characters@.len(),
        kept is Some ==> forall|i: int|
            0 <= i < kept->0.characters@.len() ==> snapshot::fit((#[trigger] kept->0.characters@[i]).inventory@),
    ensures
        r.wf(),
        match kept {
            Some(s) => exists|cs: Seq<crate::character::Character>|
                #[trigger] snapshot::all_come_back(cs, s.characters@, at@, combat.pvp_max_health) && r@ == (DbView {
                    next_guid: s.next_guid,
                    ..database::empty_db().all_entered(cs)
                }),
            None => database::is_started(r@, start, combat.pvp_max_health),
        },
{
    match kept {
        Some(s) => s.restore_db_only(at, combat.pvp_max_health),
        None => WorldDatabase::new(start, combat),
    }
}

/// The creatures of a world of which nothing is known: one.
pub fn legacy_creatures(
    db: &mut WorldDatabase,
    position: Position,
    config: &RespawnConfig,
    now: u64,
) -> (r: Vec<Creature>)
    requires
        old(db).wf(),
        old(db)@.next_guid < u64::MAX,
    ensures
        final(db).wf(),
        final(db)@ == (DbView { next_guid: (old(db)@.next_guid + 1) as u64, ..old(db)@ }),
        r@.len() == 1,
        r@[0].name@ == "Thing"@,
        r@[0].guid == old(db)@.next_guid,
        r@[0].display_id == 646,
        r@[0].entry == 69,
        r@[0].is_fresh(position, *config, now),
{
    let guid: u64 = db.new_guid();
    let mut r: Vec<Creature> = Vec::new();
    r.push(Creature::new("Thing".to_string(), guid, position, config, now));
    r
}

/// The world is saved once the interval has passed since the last time, or when it ends, and
/// then not again before the interval has passed.
pub proof fn the_world_is_saved_in_time(s: &mut Saver, now: u64, shutdown: bool, r: AfterTick, interval: u64, start: u64, new: Saver)
    requires
        call_ensures(Saver::after_tick, (s, now, shutdown), r),
        call_ensures(Saver::new, (interval, start), new),
        now + old(s).interval <= u64::MAX,
        start + interval <= u64::MAX,
    ensures
        r.exit <==> shutdown,
        shutdown ==> r.save,
        !shutdown ==> (r.save <==> now >= old(s).next_save),
        r.save ==> final(s).next_save == now + old(s).interval,
        !r.save ==> final(s).next_save == old(s).next_save,
        final(s).interval == old(s).interval,
        new.next_save == start + interval && new.interval == interval,
{
}

/// A world of which nothing is known has one creature, which stands where it is put.
pub proof fn an_unknown_world_has_one_creature(
    db: &mut WorldDatabase,
    position: Position,
    config: &RespawnConfig,
    now: u64,
    r: Vec<Creature>,
)
    requires
        old(db).wf(),
        old(db)@.next_guid < u64::MAX,
        call_ensures(legacy_creatures, (db, position, config, now), r),
    ensures
        r@.len() == 1,
        r@[0].map == position.map && r@[0].info.position == position.place && r@[0].info.orientation
            == position.orientation,
        r@[0].guid == old(db)@.next_guid && final(db)@.next_guid == r@[0].guid + 1,
        r@[0].life_state is Alive && r@[0].health == config.default_creature_health,
{
}

/// A world starts with the characters who were kept, in their order, or else with three.
pub proof fn a_world_starts_with_who_was_kept(
    kept: Option<WorldSnapshot>,
    at: &Vec<Cells>,
    start: Position,
    combat: &CombatConfig,
    r: WorldDatabase,
    i: int,
)
    requires
        kept is Some ==> at@.len() == kept->0.characters@.len(),
        kept is Some ==> forall|i: int|
            0 <= i < kept->0.characters@.len() ==> snapshot::fit((#[trigger] kept->0.characters@[i]).inventory@),
        call_ensures(start_database, (kept, at, start, combat), r),
    ensures
        kept is None ==> r@.rows.len() == 3,
        kept is Some ==> r@.rows.len() == kept->0.characters@.len() && r@.next_guid == kept->0.next_guid,
        kept is Some && 0 <= i < r@.rows.len() ==> r@.rows[i].guid == kept->0.characters@[i].guid && r@.rows[i].name
            == kept->0.characters@[i].name && r@.rows[i].account == kept->0.characters@[i].account && r@.rows[i].map
            == kept->0.characters@[i].map && r@.rows[i].info.position.x == kept->0.characters@[i].x
            && r@.rows[i].info.position.y == kept->0.characters@[i].y && r@.rows[i].info.position.z
            == kept->0.characters@[i].z && r@.rows[i].current_health == combat.pvp_max_health,
{
    if let Some(s) = kept {
        let cs = choose|cs: Seq<crate::character::Character>|
            #[trigger] snapshot::all_come_back(cs, s.characters@, at@, combat.pvp_max_health) && r@ == (DbView {
                next_guid: s.next_guid,
                ..database::empty_db().all_entered(cs)
            });
        database::lemma_all_rows(database::empty_db(), cs);
        assert(r@.rows =~= cs);
        if 0 <= i < s.characters@.len() {
            assert(snapshot::comes_back(cs[i], s.characters@[i], at@[i], combat.pvp_max_health));
        }
    }
}

} // verus!

//! The creatures that a world starts with, from the rows of its database.
use crate::clock;
use crate::clock::MILLISECOND;
use crate::config;
use crate::config::RespawnConfig;
use crate::creature;
use crate::creature::{Creature, CreatureBehavior, CreatureLifeState};
use crate::keyed::KeyedTable;
use crate::movement::{MovementInfo, Place};
use crate::text;
use vstd::prelude::*;

verus! {

/// Keeps the guids of creatures apart from those of players.
pub const MANGOS_GUID_OFFSET: u64 = 0x1000_0000;

/// The bit pattern of one yard: whoever wanders wanders at least that far.
pub const MIN_WANDER_RADIUS: u32 = 0x3f80_0000;

/// A row of the table of spawns, with what the table of creatures says.
#[derive(Debug)]
pub struct RawRow {
    pub spawn_guid: i64,
    pub entry: u32,
    pub map_id: u32,
    pub position: Place,
    pub orientation: u32,
    pub spawndist: u32,
    pub movement_type: i32,
    pub cur_health: u32,
    pub spawn_model: u32,
    pub name: String,
    pub template_models: [u32; 4],
    pub min_level: u8,
    pub faction_alliance: u32,
    pub min_health: u32,
    pub max_health: u32,
}

/// A waypoint of a path.
#[derive(Debug, Clone, Copy)]
pub struct WaypointRow {
    pub key: i64,
    pub position: Place,
    pub waittime: u32,
}

/// A path, and how long to wait at each of its points.
#[derive(Debug)]
pub struct Path {
    pub points: Vec<Place>,
    pub waittimes: Vec<u32>,
}

/// Whether there is a map with the number `n`.
pub uninterp spec fn map_exists(n: u32) -> bool;

/// `Map::try_from` of `wow_world_base`: whether there is a map with that number.
#[verifier::external_body]
fn is_map(n: u32) -> (r: bool)
    ensures
        r == map_exists(n),
{
    wow_world_base::vanilla::Map::try_from(n).is_ok()
}

pub open spec fn placeholders(n: nat) -> Seq<char> {
    Seq::new(
        if n == 0 {
            0
        } else {
            (2 * n - 1) as nat
        },
        |i: int|
            if i % 2 == 0 {
                '?'
            } else {
                ','
            },
    )
}

/// As many question marks as there are parameters, with commas between them.
pub fn repeat_placeholders(n: usize) -> (r: String)
    ensures
        r@ == placeholders(n as nat),
{
    let mut s: Vec<char> = Vec::new();
    let mut i: usize = 0;
    assert(s@ =~= placeholders(0));
    while i < n
        invariant
            i <= n,
            s@ == placeholders(i as nat),
        decreases n - i,
    {
        if i > 0 {
            s.push(',');
        }
        s.push('?');
        i += 1;
        assert(s@ =~= placeholders(i as nat));
    }
    text::from_chars(&s)
}

/// The first of `models` at or behind `from` that is not zero.
pub open spec fn first_model(models: Seq<u32>, from: int) -> Option<u32>
    decreases models.len() - from,
{
    if from >= models.len() {
        None
    } else if models[from] != 0 {
        Some(models[from])
    } else {
        first_model(models, from + 1)
    }
}

/// The look of a spawn: its own, else the first that its kind has.
pub open spec fn chosen_display(spawn_model: u32, models: Seq<u32>) -> Option<u32> {
    if spawn_model != 0 {
        Some(spawn_model)
    } else {
        first_model(models, 0)
    }
}

pub fn pick_display_id(spawn_model: u32, template_models: &[u32; 4]) -> (r: Option<u32>)
    ensures
        r == chosen_display(spawn_model, template_models@),
{
    if spawn_model != 0 {
        return Some(spawn_model);
    }
    let mut i: usize = 0;
    while i < 4
        invariant
            i <= 4,
            spawn_model == 0,
            first_model(template_models@, 0) == first_model(template_models@, i as int),
        decreases 4 - i,
    {
        if template_models[i] != 0 {
            return Some(template_models[i]);
        }
        i += 1;
    }
    None
}

/// `v`, moved into the range from `lo` to `hi`.
pub open spec fn clamped(v: int, lo: int, hi: int) -> int {
    if v < lo {
        lo
    } else if v > hi {
        hi
    } else {
        v
    }
}

pub fn i64_to_u32(v: i64) -> (r: u32)
    ensures
        r == clamped(v as int, 0, u32::MAX as int),
{
    if v < 0 {
        0
    } else if v > 0xffff_ffff {
        0xffff_ffff
    } else {
        v as u32
    }
}

pub fn i64_to_i32(v: i64) -> (r: i32)
    ensures
        r == clamped(v as int, i32::MIN as int, i32::MAX as int),
{
    if v < -0x8000_0000 {
        i32::MIN
    } else if v > 0x7fff_ffff {
        i32::MAX
    } else {
        v as i32
    }
}

pub fn i64_to_u8(v: i64) -> (r: u8)
    ensures
        r == clamped(v as int, 0, u8::MAX as int),
{
    if v < 0 {
        0
    } else if v > 255 {
        255
    } else {
        v as u8
    }
}

/// The health of a kind of creature: the upper bound, else the lower one, else
/// what creatures have by default.
pub open spec fn chosen_health(max_health: u32, min_health: u32, default: u32) -> u32 {
    if max_health > 0 {
        max_health
    } else if min_health > 0 {
        min_health
    } else {
        default
    }
}

pub fn pick_health(max_health: u32, min_health: u32, config: &RespawnConfig) -> (r: u32)
    ensures
        r == chosen_health(max_health, min_health, config.default_creature_health),
{
    if max_health > 0 {
        max_health
    } else if min_health > 0 {
        min_health
    } else {
        creature::default_creature_health(config)
    }
}

/// The points of the rows with the key `key`, in order.
pub open spec fn points_of(rows: Seq<WaypointRow>, key: u64) -> Seq<Place>
    decreases rows.len(),
{
    if rows.len() == 0 {
        Seq::empty()
    } else {
        let before = points_of(rows.drop_last(), key);
        if rows.last().key as u64 == key {
            before.push(rows.last().position)
        } else {
            before
        }
    }
}

/// How long to wait at the points of the rows with the key `key`.
pub open spec fn waits_of(rows: Seq<WaypointRow>, key: u64) -> Seq<u32>
    decreases rows.len(),
{
    if rows.len() == 0 {
        Seq::empty()
    } else {
        let before = waits_of(rows.drop_last(), key);
        if rows.last().key as u64 == key {
            before.push(rows.last().waittime)
        } else {
            before
        }
    }
}

/// Whether the paths are those of the rows: for each key the points that have
/// it.
pub open spec fn are_paths(paths: Map<u64, Path>, rows: Seq<WaypointRow>) -> bool {
    &&& forall|k: u64| #[trigger]
        paths.contains_key(k) ==> paths[k].points@ == points_of(rows, k) && paths[k].waittimes@ == waits_of(rows, k)
    &&& forall|k: u64| #[trigger] paths.contains_key(k) <==> points_of(rows, k).len() > 0
}

/// Put the points of each path together.
pub fn collect_paths(rows: &Vec<WaypointRow>) -> (paths: KeyedTable<Path>)
    ensures
        paths.wf(),
        are_paths(paths@, rows@),
{
    let mut paths: KeyedTable<Path> = KeyedTable::new();
    let mut i: usize = 0;
    assert(rows@.take(0) =~= Seq::<WaypointRow>::empty());
    while i < rows.len()
        invariant
            i <= rows@.len(),
            paths.wf(),
            are_paths(paths@, rows@.take(i as int)),
        decreases rows.len() - i,
    {
        let row: WaypointRow = rows[i];
        let key: u64 = row.key as u64;
        let ghost before = paths@;
        let ghost done = rows@.take(i as int);
        proof {
            assert(rows@.take(i + 1).drop_last() =~= done);
            assert(rows@.take(i + 1).last() == row);
        }
        let mut known: bool = true;
        match paths.get_mut(key) {
            Some(p) => {
                p.points.push(row.position);
                p.waittimes.push(row.waittime);
            },
            None => {
                known = false;
            },
        }
        if !known {
            let mut points: Vec<Place> = Vec::new();
            points.push(row.position);
            let mut waittimes: Vec<u32> = Vec::new();
            waittimes.push(row.waittime);
            proof {
                assert(!before.contains_key(key));
                assert(points_of(done, key).len() == 0);
                lemma_same_len(done, key);
                assert(points@ =~= points_of(rows@.take(i + 1), key));
                assert(waittimes@ =~= waits_of(rows@.take(i + 1), key));
            }
            paths.insert(key, Path { points, waittimes });
        }
        proof {
            assert forall|k: u64| #[trigger] paths@.contains_key(k) implies paths@[k].points@ == points_of(
                rows@.take(i + 1),
                k,
            ) && paths@[k].waittimes@ == waits_of(rows@.take(i + 1), k) by {
                if k != key {
                    assert(before.contains_key(k));
                }
            }
            assert forall|k: u64| #[trigger] paths@.contains_key(k) <==> points_of(rows@.take(i + 1), k).len() > 0 by {
                assert(before.contains_key(k) <==> points_of(done, k).len() > 0);
            }
        }
        i += 1;
    }
    assert(rows@.take(i as int) =~= rows@);
    paths
}

proof fn lemma_same_len(rows: Seq<WaypointRow>, key: u64)
    ensures
        points_of(rows, key).len() == waits_of(rows, key).len(),
    decreases rows.len(),
{
    if rows.len() > 0 {
        lemma_same_len(rows.drop_last(), key);
    }
}

/// Every path has as many times to wait as points.
pub proof fn every_point_has_its_wait(paths: Map<u64, Path>, rows: Seq<WaypointRow>, key: u64)
    requires
        are_paths(paths, rows),
        paths.contains_key(key),
    ensures
        paths[key].points@.len() == paths[key].waittimes@.len(),
        paths[key].points@.len() > 0,
{
    lemma_same_len(rows, key);
}

/// How far whoever wanders wanders: at least a yard.
pub open spec fn wander_radius(spawndist: u32) -> u32 {
    if MIN_WANDER_RADIUS <= spawndist <= 0x7f80_0000 {
        spawndist
    } else {
        MIN_WANDER_RADIUS
    }
}

/// The path of a spawn: its own, else that of its kind.
pub open spec fn path_of(row: RawRow, spawn_paths: Map<u64, Path>, entry_paths: Map<u64, Path>) -> Option<Path> {
    if spawn_paths.contains_key(row.spawn_guid as u64) {
        Some(spawn_paths[row.spawn_guid as u64])
    } else if entry_paths.contains_key(row.entry as u64) {
        Some(entry_paths[row.entry as u64])
    } else {
        None
    }
}

/// Whether the row is of use: it is on a map that exists, and has a look.
pub open spec fn is_usable(row: RawRow) -> bool {
    map_exists(row.map_id) && chosen_display(row.spawn_model, row.template_models@) is Some
}

/// Whether the guid of the creature of the row is one.
pub open spec fn guid_fits(row: RawRow) -> bool {
    MANGOS_GUID_OFFSET + row.spawn_guid as u64 <= u64::MAX
}

/// Whether all creatures of rows that are of use have guids.
pub open spec fn guids_fit(rows: Seq<RawRow>) -> bool {
    forall|i: int| 0 <= i < rows.len() && is_usable(#[trigger] rows[i]) ==> guid_fits(rows[i])
}

/// Whether `b` is how the creature of the row behaves.
pub open spec fn behaves(
    b: CreatureBehavior,
    row: RawRow,
    spawn_paths: Map<u64, Path>,
    entry_paths: Map<u64, Path>,
    now: u64,
) -> bool {
    if row.movement_type == 1 {
        b == (CreatureBehavior::RandomWander {
            anchor: row.position,
            radius: wander_radius(row.spawndist),
            target: None,
            next_decision_at: clock::later_spec(
                now,
                config::span_spec(((row.spawn_guid as u64) % 4000) as u64, MILLISECOND),
            ),
        })
    } else if row.movement_type == 2 {
        match path_of(row, spawn_paths, entry_paths) {
            Some(p) => b matches CreatureBehavior::Waypoint { waypoints, waittimes_ms, current, idle_until }
                && waypoints@ == p.points@ && waittimes_ms@ == p.waittimes@ && current == 0 && idle_until is None,
            None => b is Idle,
        }
    } else {
        b is Idle
    }
}

/// Whether `c` is the creature of the row.
pub open spec fn is_creature_of(
    c: Creature,
    row: RawRow,
    spawn_paths: Map<u64, Path>,
    entry_paths: Map<u64, Path>,
    config: RespawnConfig,
    now: u64,
) -> bool {
    let max_health = chosen_health(row.max_health, row.min_health, config.default_creature_health);
    &&& c.name@ == row.name@
    &&& c.guid == MANGOS_GUID_OFFSET + row.spawn_guid as u64
    &&& c.info == (MovementInfo {
        flags: 0,
        timestamp: 0,
        position: row.position,
        orientation: row.orientation,
        fall_time: 0,
    })
    &&& c.map == row.map_id
    &&& c.level == (if row.min_level == 0 {
        1
    } else {
        row.min_level
    })
    &&& Some(c.display_id) == (match chosen_display(row.spawn_model, row.template_models@) {
        Some(d) => Some(d as u16),
        None => None,
    })
    &&& c.entry == row.entry
    &&& c.faction_template == row.faction_alliance
    &&& c.max_health == max_health
    &&& c.health == (if row.cur_health == 0 || row.cur_health > max_health {
        max_health
    } else {
        row.cur_health
    })
    &&& c.root_until is None
    &&& behaves(c.behavior, row, spawn_paths, entry_paths, now)
    &&& c.last_advanced_at == now
    &&& c.last_heartbeat_at == now
    &&& c.spawn_position == row.position
    &&& c.spawn_orientation == row.orientation
    &&& c.life_state is Alive
    &&& c.last_alive_at == now
    &&& c.respawn_delay == config::span_spec(config.initial_respawn_delay_secs, clock::SECOND)
    &&& c.cached_object is None
}

/// The rows that are of use.
pub open spec fn usable(rows: Seq<RawRow>) -> Seq<RawRow> {
    rows.filter(|r: RawRow| is_usable(r))
}

/// How many creatures were loaded, by how they behave, and how many rows were of
/// no use.
#[derive(Debug, Clone, Copy, PartialEq, Eq, Structural)]
pub struct LoadCounts {
    pub idle: usize,
    pub wander: usize,
    pub waypoint: usize,
    pub skipped: usize,
}

fn copy_places(v: &Vec<Place>) -> (r: Vec<Place>)
    ensures
        r@ == v@,
{
    let mut r: Vec<Place> = Vec::new();
    let mut i: usize = 0;
    while i < v.len()
        invariant
            i <= v@.len(),
            r@ == v@.take(i as int),
        decreases v.len() - i,
    {
        r.push(v[i]);
        i += 1;
        assert(r@ =~= v@.take(i as int));
    }
    assert(v@.take(i as int) =~= v@);
    r
}

fn copy_waits(v: &Vec<u32>) -> (r: Vec<u32>)
    ensures
        r@ == v@,
{
    let mut r: Vec<u32> = Vec::new();
    let mut i: usize = 0;
    while i < v.len()
        invariant
            i <= v@.len(),
            r@ == v@.take(i as int),
        decreases v.len() - i,
    {
        r.push(v[i]);
        i += 1;
        assert(r@ =~= v@.take(i as int));
    }
    assert(v@.take(i as int) =~= v@);
    r
}

fn behavior_of(
    row: &RawRow,
    spawn_paths: &KeyedTable<Path>,
    entry_paths: &KeyedTable<Path>,
    now: u64,
) -> (b: CreatureBehavior)
    requires
        spawn_paths.wf(),
        entry_paths.wf(),
    ensures
        behaves(b, *row, spawn_paths@, entry_paths@, now),
{
    if row.movement_type == 1 {
        let radius: u32 = if row.spawndist >= MIN_WANDER_RADIUS && row.spawndist <= 0x7f80_0000 {
            row.spawndist
        } else {
            MIN_WANDER_RADIUS
        };
        let jitter: u64 = (row.spawn_guid as u64) % 4000;
        return CreatureBehavior::RandomWander {
            anchor: row.position,
            radius,
            target: None,
            next_decision_at: clock::later(now, config::span(jitter, MILLISECOND)),
        };
    }
    if row.movement_type == 2 {
        let path = match spawn_paths.get(row.spawn_guid as u64) {
            Some(p) => Some(p),
            None => entry_paths.get(row.entry as u64),
        };
        if let Some(p) = path {
            return CreatureBehavior::Waypoint {
                waypoints: copy_places(&p.points),
                waittimes_ms: copy_waits(&p.waittimes),
                current: 0,
                idle_until: None,
            };
        }
    }
    CreatureBehavior::Idle
}

/// The creature of a row that is of use.
pub fn creature_of(
    row: &RawRow,
    spawn_paths: &KeyedTable<Path>,
    entry_paths: &KeyedTable<Path>,
    config: &RespawnConfig,
    now: u64,
) -> (r: Option<Creature>)
    requires
        spawn_paths.wf(),
        entry_paths.wf(),
        chosen_display(row.spawn_model, row.template_models@) is Some ==> guid_fits(*row),
    ensures
        r is Some <==> chosen_display(row.spawn_model, row.template_models@) is Some,
        r is Some ==> is_creature_of(r->0, *row, spawn_paths@, entry_paths@, *config, now),
{
    let display_id: u32 = match pick_display_id(row.spawn_model, &row.template_models) {
        Some(d) => d,
        None => {
            return None;
        },
    };
    let max_health: u32 = pick_health(row.max_health, row.min_health, config);
    let health: u32 = if row.cur_health == 0 || row.cur_health > max_health {
        max_health
    } else {
        row.cur_health
    };
    Some(
        Creature {
            name: row.name.clone(),
            guid: MANGOS_GUID_OFFSET + row.spawn_guid as u64,
            info: MovementInfo {
                flags: 0,
                timestamp: 0,
                position: row.position,
                orientation: row.orientation,
                fall_time: 0,
            },
            map: row.map_id,
            level: if row.min_level == 0 {
                1
            } else {
                row.min_level
            },
            display_id: display_id as u16,
            entry: row.entry,
            faction_template: row.faction_alliance,
            health,
            max_health,
            root_until: None,
            behavior: behavior_of(row, spawn_paths, entry_paths, now),
            last_advanced_at: now,
            last_heartbeat_at: now,
            spawn_position: row.position,
            spawn_orientation: row.orientation,
            life_state: CreatureLifeState::Alive,
            last_alive_at: now,
            respawn_delay: creature::initial_respawn_delay(config),
            cached_object: None,
        },
    )
}

/// How many of the rows are of that use: 0 for creatures that stand still, 1 and
/// 2 for those that wander and follow waypoints, 3 for rows of no use.
pub open spec fn used_for(
    rows: Seq<RawRow>,
    use_: int,
    spawn_paths: Map<u64, Path>,
    entry_paths: Map<u64, Path>,
) -> nat
    decreases rows.len(),
{
    if rows.len() == 0 {
        0
    } else {
        used_for(rows.drop_last(), use_, spawn_paths, entry_paths) + if use_of(
            rows.last(),
            spawn_paths,
            entry_paths,
        ) == use_ {
            1nat
        } else {
            0nat
        }
    }
}

/// What a row is of use for.
pub open spec fn use_of(row: RawRow, spawn_paths: Map<u64, Path>, entry_paths: Map<u64, Path>) -> int {
    if !is_usable(row) {
        3
    } else if row.movement_type == 1 {
        1
    } else if row.movement_type == 2 && path_of(row, spawn_paths, entry_paths) is Some {
        2
    } else {
        0
    }
}

/// Make the creatures of the rows that are of use, in order, and count them.
pub fn load_creatures(
    rows: &Vec<RawRow>,
    spawn_paths: &KeyedTable<Path>,
    entry_paths: &KeyedTable<Path>,
    config: &RespawnConfig,
    now: u64,
) -> (r: (Vec<Creature>, LoadCounts))
    requires
        spawn_paths.wf(),
        entry_paths.wf(),
        guids_fit(rows@),
    ensures
        r.0@.len() == usable(rows@).len(),
        forall|i: int|
            0 <= i < r.0@.len() ==> is_creature_of(
                #[trigger] r.0@[i],
                usable(rows@)[i],
                spawn_paths@,
                entry_paths@,
                *config,
                now,
            ),
        r.1.idle == used_for(rows@, 0, spawn_paths@, entry_paths@),
        r.1.wander == used_for(rows@, 1, spawn_paths@, entry_paths@),
        r.1.waypoint == used_for(rows@, 2, spawn_paths@, entry_paths@),
        r.1.skipped == used_for(rows@, 3, spawn_paths@, entry_paths@),
{
    let mut out: Vec<Creature> = Vec::new();
    let mut n = LoadCounts { idle: 0, wander: 0, waypoint: 0, skipped: 0 };
    let mut i: usize = 0;
    proof {
        reveal(Seq::filter);
        assert(rows@.take(0) =~= Seq::<RawRow>::empty());
    }
    while i < rows.len()
        invariant
            i <= rows@.len(),
            spawn_paths.wf(),
            entry_paths.wf(),
            guids_fit(rows@),
            out@.len() == usable(rows@.take(i as int)).len(),
            forall|j: int|
                0 <= j < out@.len() ==> is_creature_of(
                    #[trigger] out@[j],
                    usable(rows@.take(i as int))[j],
                    spawn_paths@,
                    entry_paths@,
                    *config,
                    now,
                ),
            n.idle <= i,
            n.wander <= i,
            n.waypoint <= i,
            n.skipped <= i,
            n.idle == used_for(rows@.take(i as int), 0, spawn_paths@, entry_paths@),
            n.wander == used_for(rows@.take(i as int), 1, spawn_paths@, entry_paths@),
            n.waypoint == used_for(rows@.take(i as int), 2, spawn_paths@, entry_paths@),
            n.skipped == used_for(rows@.take(i as int), 3, spawn_paths@, entry_paths@),
        decreases rows.len() - i,
    {
        let row = &rows[i];
        let ghost had = out@;
        proof {
            reveal(Seq::filter);
            assert(rows@.take(i + 1).drop_last() =~= rows@.take(i as int));
            assert(rows@.take(i + 1).last() == *row);
            assert(is_usable(rows@[i as int]) ==> guid_fits(rows@[i as int]));
        }
        let made: Option<Creature> = if is_map(row.map_id) {
            creature_of(row, spawn_paths, entry_paths, config, now)
        } else {
            None
        };
        match made {
            Some(c) => {
                match &c.behavior {
                    CreatureBehavior::RandomWander { .. } => {
                        n.wander = n.wander + 1;
                    },
                    CreatureBehavior::Waypoint { .. } => {
                        n.waypoint = n.waypoint + 1;
                    },
                    _ => {
                        n.idle = n.idle + 1;
                    },
                }
                out.push(c);
            },
            None => {
                n.skipped = n.skipped + 1;
            },
        }
        proof {
            let all = usable(rows@.take(i + 1));
            let before = usable(rows@.take(i as int));
            assert forall|j: int| 0 <= j < out@.len() implies is_creature_of(
                #[trigger] out@[j],
                all[j],
                spawn_paths@,
                entry_paths@,
                *config,
                now,
            ) by {
                if j < had.len() {
                    assert(out@[j] == had[j]);
                    assert(all[j] == before[j]);
                }
            }
        }
        i += 1;
    }
    assert(rows@.take(i as int) =~= rows@);
    (out, n)
}

/// Make the creatures of the rows that are of use, unless one of them has no guid.
pub fn try_load_creatures(
    rows: &Vec<RawRow>,
    spawn_paths: &KeyedTable<Path>,
    entry_paths: &KeyedTable<Path>,
    config: &RespawnConfig,
    now: u64,
) -> (r: Option<(Vec<Creature>, LoadCounts)>)
    requires
        spawn_paths.wf(),
        entry_paths.wf(),
    ensures
        r is Some <==> guids_fit(rows@),
        r matches Some(loaded) ==> {
            &&& loaded.0@.len() == usable(rows@).len()
            &&& forall|i: int|
                0 <= i < loaded.0@.len() ==> is_creature_of(
                    #[trigger] loaded.0@[i],
                    usable(rows@)[i],
                    spawn_paths@,
                    entry_paths@,
                    *config,
                    now,
                )
            &&& loaded.1.idle == used_for(rows@, 0, spawn_paths@, entry_paths@)
            &&& loaded.1.wander == used_for(rows@, 1, spawn_paths@, entry_paths@)
            &&& loaded.1.waypoint == used_for(rows@, 2, spawn_paths@, entry_paths@)
            &&& loaded.1.skipped == used_for(rows@, 3, spawn_paths@, entry_paths@)
        },
{
    let mut i: usize = 0;
    while i < rows.len()
        invariant
            i <= rows@.len(),
            forall|j: int| 0 <= j < i && is_usable(#[trigger] rows@[j]) ==> guid_fits(rows@[j]),
        decreases rows.len() - i,
    {
        let row = &rows[i];
        if row.spawn_guid as u64 > u64::MAX - MANGOS_GUID_OFFSET && is_map(row.map_id) && pick_display_id(
            row.spawn_model,
            &row.template_models,
        ).is_some() {
            assert(is_usable(rows@[i as int]));
            return None;
        }
        i += 1;
    }
    Some(load_creatures(rows, spawn_paths, entry_paths, config, now))
}

/// The spawns and kinds whose paths have to be loaded: those that follow
/// waypoints.
pub fn waypoint_ids(rows: &Vec<RawRow>) -> (r: (Vec<i64>, Vec<i64>))
    ensures
        r.0@ == rows@.filter(|row: RawRow| row.movement_type == 2).map_values(|row: RawRow| row.spawn_guid),
        r.1@ == rows@.filter(|row: RawRow| row.movement_type == 2).map_values(|row: RawRow| row.entry as i64),
{
    let mut spawns: Vec<i64> = Vec::new();
    let mut entries: Vec<i64> = Vec::new();
    let ghost walks = |row: RawRow| row.movement_type == 2;
    let ghost spawn = |row: RawRow| row.spawn_guid;
    let ghost entry = |row: RawRow| row.entry as i64;
    let mut i: usize = 0;
    proof {
        reveal(Seq::filter);
        assert(rows@.take(0) =~= Seq::<RawRow>::empty());
        assert(spawns@ =~= rows@.take(0).filter(walks).map_values(spawn));
        assert(entries@ =~= rows@.take(0).filter(walks).map_values(entry));
    }
    while i < rows.len()
        invariant
            i <= rows@.len(),
            walks == (|row: RawRow| row.movement_type == 2),
            spawn == (|row: RawRow| row.spawn_guid),
            entry == (|row: RawRow| row.entry as i64),
            spawns@ == rows@.take(i as int).filter(walks).map_values(spawn),
            entries@ == rows@.take(i as int).filter(walks).map_values(entry),
        decreases rows.len() - i,
    {
        let ghost before = rows@.take(i as int).filter(walks);
        proof {
            reveal(Seq::filter);
            assert(rows@.take(i + 1).drop_last() =~= rows@.take(i as int));
            assert(rows@.take(i + 1).last() == rows@[i as int]);
        }
        if rows[i].movement_type == 2 {
            spawns.push(rows[i].spawn_guid);
            entries.push(rows[i].entry as i64);
            assert(spawns@ =~= before.push(rows@[i as int]).map_values(spawn));
            assert(entries@ =~= before.push(rows@[i as int]).map_values(entry));
        }
        i += 1;
    }
    assert(rows@.take(i as int) =~= rows@);
    (spawns, entries)
}

/// Every creature that is loaded lives, has a level and health between nothing
/// and its most, unless its most is nothing.
pub proof fn who_is_loaded_is_well(
    c: Creature,
    row: RawRow,
    spawn_paths: Map<u64, Path>,
    entry_paths: Map<u64, Path>,
    config: RespawnConfig,
    now: u64,
)
    requires
        is_creature_of(c, row, spawn_paths, entry_paths, config, now),
    ensures
        c.life_state is Alive,
        c.level >= 1,
        c.health <= c.max_health,
        config.default_creature_health > 0 ==> c.health > 0,
{
}

/// No creature has the guid of a player or of another creature, as long as there
/// are not too many players.
pub proof fn guids_are_apart(
    a: Creature,
    b: Creature,
    x: RawRow,
    y: RawRow,
    spawn_paths: Map<u64, Path>,
    entry_paths: Map<u64, Path>,
    config: RespawnConfig,
    now: u64,
)
    requires
        is_creature_of(a, x, spawn_paths, entry_paths, config, now),
        is_creature_of(b, y, spawn_paths, entry_paths, config, now),
        x.spawn_guid != y.spawn_guid,
        x.spawn_guid >= 0,
        y.spawn_guid >= 0,
    ensures
        a.guid != b.guid,
        a.guid >= MANGOS_GUID_OFFSET,
{
}

/// What clients are told of a kind of creature.
#[derive(Debug)]
pub struct CreatureTemplate {
    pub name: String,
    pub sub_name: String,
    pub type_flags: u32,
    pub creature_type: u32,
    pub creature_family: u32,
    pub creature_rank: u32,
    pub display_id: u32,
    pub civilian: u8,
    pub racial_leader: u8,
}

/// The kinds of creatures that are known, by their entries.
pub struct CreatureTemplates {
    known: KeyedTable<CreatureTemplate>,
}

impl View for CreatureTemplates {
    type V = Map<u64, CreatureTemplate>;

    closed spec fn view(&self) -> Map<u64, CreatureTemplate> {
        self.known@
    }
}

impl CreatureTemplates {
    pub closed spec fn wf(&self) -> bool {
        self.known.wf()
    }

    pub fn new() -> (r: Self)
        ensures
            r.wf(),
            r@ == Map::<u64, CreatureTemplate>::empty(),
    {
        CreatureTemplates { known: KeyedTable::new() }
    }

    /// Make a kind known. One that was known under the entry is replaced.
    pub fn register_template(&mut self, entry: u32, t: CreatureTemplate)
        requires
            old(self).wf(),
        ensures
            final(self).wf(),
            final(self)@ == old(self)@.insert(entry as u64, t),
    {
        self.known.insert(entry as u64, t);
    }

    pub fn lookup_template(&self, entry: u32) -> (r: Option<&CreatureTemplate>)
        requires
            self.wf(),
        ensures
            r == (if self@.contains_key(entry as u64) {
                Some(&self@[entry as u64])
            } else {
                None
            }),
    {
        self.known.get(entry as u64)
    }
}

/// Whether the row is on a map that exists and has a look, of its own or of its kind.
pub open spec fn can_be_placed(row: RawRow) -> bool {
    map_exists(row.map_id) && (row.spawn_model != 0 || exists|j: int|
        0 <= j < 4 && #[trigger] row.template_models@[j] != 0)
}

proof fn lemma_first_model(models: Seq<u32>, from: int)
    requires
        0 <= from,
    ensures
        match first_model(models, from) {
            Some(d) => d != 0 && exists|i: int|
                from <= i < models.len() && #[trigger] models[i] == d && forall|j: int|
                    from <= j < i ==> models[j] == 0,
            None => forall|j: int| from <= j < models.len() ==> models[j] == 0,
        },
    decreases models.len() - from,
{
    if from < models.len() {
        if models[from] != 0 {
            assert(models[from] == first_model(models, from)->0);
        } else {
            lemma_first_model(models, from + 1);
            if let Some(d) = first_model(models, from + 1) {
                let i = choose|i: int|
                    from + 1 <= i < models.len() && #[trigger] models[i] == d && forall|j: int|
                        from + 1 <= j < i ==> models[j] == 0;
                assert(models[i] == d);
            }
        }
    }
}

proof fn lemma_usable(row: RawRow)
    ensures
        is_usable(row) == can_be_placed(row),
{
    lemma_first_model(row.template_models@, 0);
    if exists|j: int| 0 <= j < 4 && #[trigger] row.template_models@[j] != 0 {
        let j = choose|j: int| 0 <= j < 4 && #[trigger] row.template_models@[j] != 0;
        assert(row.template_models@[j] != 0);
    }
    assert(row.template_models@.len() == 4);
}

proof fn lemma_same_filter(rows: Seq<RawRow>)
    ensures
        usable(rows) == rows.filter(|r: RawRow| can_be_placed(r)),
    decreases rows.len(),
{
    reveal(Seq::filter);
    if rows.len() > 0 {
        lemma_same_filter(rows.drop_last());
        lemma_usable(rows.last());
    }
}

/// A spawn has the look that it is given, else the first that its kind has; without any it
/// has none.
pub proof fn the_first_look_is_taken(spawn_model: u32, template_models: &[u32; 4], r: Option<u32>, i: int)
    requires
        call_ensures(pick_display_id, (spawn_model, template_models), r),
        0 <= i < 4,
    ensures
        spawn_model != 0 ==> r == Some(spawn_model),
        spawn_model == 0 && template_models@[i] != 0 && (forall|j: int| 0 <= j < i ==> template_models@[j] == 0) ==> r
            == Some(template_models@[i]),
        spawn_model == 0 && (forall|j: int| 0 <= j < 4 ==> template_models@[j] == 0) ==> r is None,
{
    lemma_first_model(template_models@, 0);
    assert(template_models@.len() == 4);
}

/// A creature has the most health that its kind has, else the least, else the default.
pub proof fn the_most_health_is_taken(max_health: u32, min_health: u32, config: &RespawnConfig, r: u32)
    requires
        call_ensures(pick_health, (max_health, min_health, config), r),
    ensures
        max_health > 0 ==> r == max_health,
        max_health == 0 && min_health > 0 ==> r == min_health,
        max_health == 0 && min_health == 0 ==> r == config.default_creature_health,
{
}

/// A number that does not fit becomes the nearest that does.
pub proof fn numbers_are_cut_off(v: i64, a: u32, b: i32, c: u8)
    requires
        call_ensures(i64_to_u32, (v,), a),
        call_ensures(i64_to_i32, (v,), b),
        call_ensures(i64_to_u8, (v,), c),
    ensures
        0 <= v <= u32::MAX ==> a == v,
        v < 0 ==> a == 0 && c == 0,
        v > u32::MAX ==> a == u32::MAX,
        i32::MIN <= v <= i32::MAX ==> b == v,
        v < i32::MIN ==> b == i32::MIN,
        v > i32::MAX ==> b == i32::MAX,
        0 <= v <= u8::MAX ==> c == v,
        v > u8::MAX ==> c == u8::MAX,
{
}

/// What a creature is that comes from a row: on the map of the row, where the row says and
/// looking as it says, both now and whenever it comes back; alive, with the guid of the
/// spawn, and with the level, kind, faction and health that the row gives.
pub open spec fn stands_for(c: Creature, row: RawRow, config: RespawnConfig, now: u64) -> bool {
    let most = if row.max_health > 0 {
        row.max_health
    } else if row.min_health > 0 {
        row.min_health
    } else {
        config.default_creature_health
    };
    &&& c.map == row.map_id
    &&& c.info.position == row.position && c.spawn_position == row.position
    &&& c.info.orientation == row.orientation && c.spawn_orientation == row.orientation
    &&& c.info.flags == 0
    &&& c.guid == 0x1000_0000 + row.spawn_guid as u64
    &&& c.name@ == row.name@
    &&& c.entry == row.entry
    &&& c.faction_template == row.faction_alliance
    &&& c.level >= 1 && (row.min_level >= 1 ==> c.level == row.min_level)
    &&& c.max_health == most
    &&& c.health == (if 0 < row.cur_health <= most {
        row.cur_health
    } else {
        most
    })
    &&& row.spawn_model != 0 ==> c.display_id == row.spawn_model as u16
    &&& c.life_state is Alive && c.last_alive_at == now && c.root_until is None
    &&& config.initial_respawn_delay_secs * 1_000_000_000 <= u64::MAX ==> c.respawn_delay
        == config.initial_respawn_delay_secs * 1_000_000_000
    &&& c.cached_object is None
}

/// How a creature of a row behaves: it wanders around where it stands, at least a yard
/// far; it walks its own path, or else that of its kind, from the first point on; or it
/// stands still.
pub open spec fn behaves_as_told(
    b: CreatureBehavior,
    row: RawRow,
    spawn_paths: Map<u64, Path>,
    entry_paths: Map<u64, Path>,
) -> bool {
    let own = row.spawn_guid as u64;
    let kind = row.entry as u64;
    &&& row.movement_type == 1 ==> b is RandomWander && b->anchor == row.position && b->RandomWander_target is None && (
    0x3f80_0000 <= row.spawndist <= 0x7f80_0000 ==> b->radius == row.spawndist) && (row.spawndist < 0x3f80_0000
        ==> b->radius == 0x3f80_0000)
    &&& row.movement_type == 2 && spawn_paths.contains_key(own) ==> b is Waypoint && b->waypoints@
        == spawn_paths[own].points@ && b->waittimes_ms@ == spawn_paths[own].waittimes@ && b->current == 0
        && b->idle_until is None
    &&& row.movement_type == 2 && !spawn_paths.contains_key(own) && entry_paths.contains_key(kind) ==> b is Waypoint
        && b->waypoints@ == entry_paths[kind].points@ && b->waittimes_ms@ == entry_paths[kind].waittimes@ && b->current
        == 0 && b->idle_until is None
    &&& row.movement_type == 2 && !spawn_paths.contains_key(own) && !entry_paths.contains_key(kind) ==> b is Idle
    &&& row.movement_type != 1 && row.movement_type != 2 ==> b is Idle
}

/// The creature of a row is on the map that the row names, stands where the row says, and
/// is what the row says.
pub proof fn a_creature_is_what_its_row_says(
    row: &RawRow,
    spawn_paths: &KeyedTable<Path>,
    entry_paths: &KeyedTable<Path>,
    config: &RespawnConfig,
    now: u64,
    r: Option<Creature>,
)
    requires
        spawn_paths.wf(),
        entry_paths.wf(),
        chosen_display(row.spawn_model, row.template_models@) is Some ==> guid_fits(*row),
        call_ensures(creature_of, (row, spawn_paths, entry_paths, config, now), r),
    ensures
        r is Some <==> row.spawn_model != 0 || exists|j: int| 0 <= j < 4 && #[trigger] row.template_models@[j] != 0,
        r is Some ==> r->0.map == row.map_id && r->0.info.position == row.position,
        r is Some ==> stands_for(r->0, *row, *config, now) && behaves_as_told(
            r->0.behavior,
            *row,
            spawn_paths@,
            entry_paths@,
        ),
{
    lemma_first_model(row.template_models@, 0);
    if exists|j: int| 0 <= j < 4 && #[trigger] row.template_models@[j] != 0 {
        let j = choose|j: int| 0 <= j < 4 && #[trigger] row.template_models@[j] != 0;
        assert(row.template_models@[j] != 0);
    }
    assert(row.template_models@.len() == 4);
}

/// Every row on a map that exists, and with a look, gives one creature, in order; each is on
/// the map that its row names, stands where its row says, and is what its row says. They are
/// counted by how they behave, and the other rows are counted as well.
pub proof fn who_is_loaded_is_where_the_rows_say(
    rows: &Vec<RawRow>,
    spawn_paths: &KeyedTable<Path>,
    entry_paths: &KeyedTable<Path>,
    config: &RespawnConfig,
    now: u64,
    r: (Vec<Creature>, LoadCounts),
    i: int,
)
    requires
        spawn_paths.wf(),
        entry_paths.wf(),
        guids_fit(rows@),
        call_ensures(load_creatures, (rows, spawn_paths, entry_paths, config, now), r),
        0 <= i < r.0@.len(),
    ensures
        ({
            let placed = rows@.filter(|row: RawRow| can_be_placed(row));
            &&& r.0@.len() == placed.len()
            &&& r.0@[i].map == placed[i].map_id
            &&& r.0@[i].info.position == placed[i].position
            &&& stands_for(r.0@[i], placed[i], *config, now)
            &&& behaves_as_told(r.0@[i].behavior, placed[i], spawn_paths@, entry_paths@)
            &&& r.1.idle + r.1.wander + r.1.waypoint == r.0@.len()
            &&& r.1.skipped + r.0@.len() == rows@.len()
        }),
{
    lemma_same_filter(rows@);
    lemma_counts(rows@, spawn_paths@, entry_paths@);
    let c = r.0@[i];
    assert(is_creature_of(c, usable(rows@)[i], spawn_paths@, entry_paths@, *config, now));
}

proof fn lemma_counts(rows: Seq<RawRow>, spawn_paths: Map<u64, Path>, entry_paths: Map<u64, Path>)
    ensures
        used_for(rows, 0, spawn_paths, entry_paths) + used_for(rows, 1, spawn_paths, entry_paths) + used_for(
            rows,
            2,
            spawn_paths,
            entry_paths,
        ) == usable(rows).len(),
        used_for(rows, 3, spawn_paths, entry_paths) + usable(rows).len() == rows.len(),
    decreases rows.len(),
{
    reveal(Seq::filter);
    if rows.len() > 0 {
        lemma_counts(rows.drop_last(), spawn_paths, entry_paths);
    }
}

/// Loading gives what it gives unless a creature would have no guid; then it gives nothing.
pub proof fn loading_succeeds_where_guids_do(
    rows: &Vec<RawRow>,
    spawn_paths: &KeyedTable<Path>,
    entry_paths: &KeyedTable<Path>,
    config: &RespawnConfig,
    now: u64,
    r: Option<(Vec<Creature>, LoadCounts)>,
    i: int,
)
    requires
        spawn_paths.wf(),
        entry_paths.wf(),
        call_ensures(try_load_creatures, (rows, spawn_paths, entry_paths, config, now), r),
    ensures
        (forall|j: int| 0 <= j < rows@.len() ==> 0 <= (#[trigger] rows@[j]).spawn_guid) ==> r is Some,
        r is Some ==> {
            let placed = rows@.filter(|row: RawRow| can_be_placed(row));
            &&& (r->0).0@.len() == placed.len()
            &&& 0 <= i < placed.len() ==> (r->0).0@[i].map == placed[i].map_id && (r->0).0@[i].info.position
                == placed[i].position && stands_for((r->0).0@[i], placed[i], *config, now) && behaves_as_told(
                (r->0).0@[i].behavior,
                placed[i],
                spawn_paths@,
                entry_paths@,
            )
        },
{
    lemma_same_filter(rows@);
    if forall|j: int| 0 <= j < rows@.len() ==> 0 <= (#[trigger] rows@[j]).spawn_guid {
        assert forall|j: int| 0 <= j < rows@.len() && is_usable(#[trigger] rows@[j]) implies guid_fits(rows@[j]) by {
            assert(0 <= rows@[j].spawn_guid);
        }
    }
    if r is Some && 0 <= i < usable(rows@).len() {
        let c = (r->0).0@[i];
        assert(is_creature_of(c, usable(rows@)[i], spawn_paths@, entry_paths@, *config, now));
    }
}

/// A path has the points of the rows with its key, in the order of the rows, each with its
/// time to wait; there is a path for every key that a row has, and no other.
pub proof fn a_path_has_its_points(rows: &Vec<WaypointRow>, paths: KeyedTable<Path>, k: u64)
    requires
        call_ensures(collect_paths, (rows,), paths),
    ensures
        ({
            let own = rows@.filter(|row: WaypointRow| row.key as u64 == k);
            &&& paths@.contains_key(k) <==> own.len() > 0
            &&& paths@.contains_key(k) ==> paths@[k].points@ == own.map_values(|row: WaypointRow| row.position)
                && paths@[k].waittimes@ == own.map_values(|row: WaypointRow| row.waittime)
        }),
{
    lemma_points(rows@, k);
}

proof fn lemma_points(rows: Seq<WaypointRow>, k: u64)
    ensures
        ({
            let own = rows.filter(|row: WaypointRow| row.key as u64 == k);
            &&& points_of(rows, k) == own.map_values(|row: WaypointRow| row.position)
            &&& waits_of(rows, k) == own.map_values(|row: WaypointRow| row.waittime)
        }),
    decreases rows.len(),
{
    reveal(Seq::filter);
    let f = |row: WaypointRow| row.key as u64 == k;
    let own = rows.filter(f);
    if rows.len() > 0 {
        lemma_points(rows.drop_last(), k);
        let before = rows.drop_last().filter(f);
        if f(rows.last()) {
            assert(own == before.push(rows.last()));
        }
    }
    assert(points_of(rows, k) =~= own.map_values(|row: WaypointRow| row.position));
    assert(waits_of(rows, k) =~= own.map_values(|row: WaypointRow| row.waittime));
}

/// There are as many question marks as parameters, and a comma between any two.
pub proof fn every_parameter_has_its_mark(n: usize, r: String, i: int)
    requires
        call_ensures(repeat_placeholders, (n,), r),
        0 <= i < n,
    ensures
        r@.len() == 2 * n - 1,
        r@[2 * i] == '?',
        i + 1 < n ==> r@[2 * i + 1] == ',',
{
}

/// A kind of creature that was made known is found, the latest under its entry, and others
/// are found as before.
pub proof fn kinds_are_found(
    t: &mut CreatureTemplates,
    entry: u32,
    kind: CreatureTemplate,
    u: (),
    after: &CreatureTemplates,
    other: u32,
    r: Option<&CreatureTemplate>,
)
    requires
        old(t).wf(),
        call_ensures(CreatureTemplates::register_template, (t, entry, kind), u),
        *after == *final(t),
        call_ensures(CreatureTemplates::lookup_template, (after, other), r),
    ensures
        other == entry ==> r == Some(&kind),
        other != entry ==> (r is Some <==> old(t)@.contains_key(other as u64)),
        other != entry && r is Some ==> *r->0 == old(t)@[other as u64],
{
}

} // verus!

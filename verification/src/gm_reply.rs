//! What game masters are answered.
//!
//! A number that is not an integer comes in as it is written.
use crate::cell::PacerSnapshot;
use crate::character::Character;
use crate::creature::{Creature, Position};
use crate::gm_command::{HabitCounts, PlayersReport, RegionsReport, REGIONS_LISTED};
use crate::gm_parser;
use crate::rank::Ranked;
use crate::text;
use vstd::prelude::*;

verus! {

/// A number as it is written.
pub open spec fn shown(n: int) -> Seq<char> {
    text::decimal(n as nat)
}

/// A place as it is written on each axis.
#[derive(Debug, Clone)]
pub struct WrittenPlace {
    pub x: String,
    pub y: String,
    pub z: String,
}

/// The coordinates of a place.
pub open spec fn coordinates(at: WrittenPlace) -> Seq<char> {
    "x: "@ + at.x@ + ", y: "@ + at.y@ + ", z: "@ + at.z@
}

fn write_coordinates(s: &mut String, at: &WrittenPlace)
    ensures
        final(s)@ == old(s)@ + coordinates(*at),
{
    let ghost was = s@;
    s.append("x: ");
    s.append(at.x.as_str());
    s.append(", y: ");
    s.append(at.y.as_str());
    s.append(", z: ");
    s.append(at.z.as_str());
    assert(s@ =~= was + coordinates(*at));
}

/// Where somebody is.
pub fn where_text(me: &Character, at: &WrittenPlace) -> (r: String)
    ensures
        r@ == "You are on '"@ + gm_parser::map_named(me.map) + "' ("@ + shown(me.map as int) + "), "@ + coordinates(*at),
{
    let map = gm_parser::map_name(me.map);
    let number = text::to_decimal(me.map as u64);
    let mut r = text::join5("You are on '", map.as_str(), "' (", number.as_str(), "), ");
    write_coordinates(&mut r, at);
    r
}

/// What is told of a new creature.
pub fn spawned_text(name: &str, display_id: u16) -> (r: String)
    ensures
        r@ == "Spawned '"@ + name@ + "' (display "@ + shown(display_id as int) + ")"@,
{
    let number = text::to_decimal(display_id as u64);
    text::join5("Spawned '", name, "' (display ", number.as_str(), ")")
}

/// How far away the target is.
pub fn range_text(range: &str) -> (r: String)
    ensures
        r@ == "Range to target: '"@ + range@ + "'"@,
{
    text::join3("Range to target: '", range, "'")
}

/// What is told of the creatures and what they are up to.
pub fn habits_text(n: &HabitCounts) -> (r: String)
    requires
        n.idle + n.wander + n.waypoint + n.aggro <= usize::MAX,
    ensures
        r@ == "creatures: "@ + shown(n.idle + n.wander + n.waypoint + n.aggro) + " (idle "@ + shown(n.idle as int)
            + ", wander "@ + shown(n.wander as int) + ", waypoint "@ + shown(n.waypoint as int) + ", aggro "@ + shown(
            n.aggro as int,
        ) + ")"@,
{
    let total = text::to_decimal((n.idle + n.wander + n.waypoint + n.aggro) as u64);
    let idle = text::to_decimal(n.idle as u64);
    let wander = text::to_decimal(n.wander as u64);
    let waypoint = text::to_decimal(n.waypoint as u64);
    let aggro = text::to_decimal(n.aggro as u64);
    let mut r = text::join5("creatures: ", total.as_str(), " (idle ", idle.as_str(), ", wander ");
    r.append(wander.as_str());
    r.append(", waypoint ");
    r.append(waypoint.as_str());
    r.append(", aggro ");
    r.append(aggro.as_str());
    r.append(")");
    r
}

/// How many players there are on each of the maps.
pub open spec fn per_map(maps: Seq<Ranked>) -> Seq<char>
    decreases maps.len(),
{
    if maps.len() == 0 {
        Seq::empty()
    } else {
        let m = maps.last();
        let own = gm_parser::map_named(m.key as u32) + "="@ + shown(m.major as int);
        if maps.len() == 1 {
            own
        } else {
            per_map(maps.drop_last()) + ", "@ + own
        }
    }
}

fn write_per_map(maps: &Vec<Ranked>) -> (r: String)
    ensures
        r@ == per_map(maps@),
{
    let mut r = String::new();
    let mut i: usize = 0;
    assert(maps@.take(0) =~= Seq::<Ranked>::empty());
    assert(r@ =~= Seq::<char>::empty());
    while i < maps.len()
        invariant
            i <= maps@.len(),
            r@ == per_map(maps@.take(i as int)),
        decreases maps.len() - i,
    {
        let m = maps[i];
        let ghost was = r@;
        proof {
            assert(maps@.take(i + 1).drop_last() =~= maps@.take(i as int));
            assert(maps@.take(i + 1).last() == m);
        }
        if i > 0 {
            r.append(", ");
        }
        let map = gm_parser::map_name(m.key as u32);
        let count = text::to_decimal(m.major as u64);
        r.append(map.as_str());
        r.append("=");
        r.append(count.as_str());
        proof {
            let own = gm_parser::map_named(m.key as u32) + "="@ + shown(m.major as int);
            if i == 0 {
                assert(was =~= Seq::<char>::empty());
                assert(r@ =~= own);
            } else {
                assert(r@ =~= was + ", "@ + own);
            }
        }
        i += 1;
    }
    assert(maps@.take(i as int) =~= maps@);
    r
}

/// What stands in several texts.
pub open spec fn lines(v: Seq<String>) -> Seq<Seq<char>> {
    v.map_values(|s: String| s@)
}

/// The lines that tell of the players. Maps are told of if there are any.
pub open spec fn players_told(n: PlayersReport, map: u32, radius: Seq<char>) -> Seq<Seq<char>> {
    let c = n.creatures;
    let first = "Players in-world: "@ + shown(n.total as int) + " (near you: "@ + shown(n.near as int) + " within "@
        + radius + "yd on '"@ + gm_parser::map_named(map) + "')"@;
    let last = "Creatures: "@ + shown(c.alive + c.corpse + c.respawning) + " (alive "@ + shown(c.alive as int)
        + ", corpse "@ + shown(c.corpse as int) + ", respawning "@ + shown(c.respawning as int) + ")"@;
    if n.per_map@.len() == 0 {
        seq![first, last]
    } else {
        seq![first, "Per-map: "@ + per_map(n.per_map@), last]
    }
}

pub fn players_lines(n: &PlayersReport, map: u32, radius: &str) -> (r: Vec<String>)
    requires
        n.creatures.alive + n.creatures.corpse + n.creatures.respawning <= usize::MAX,
    ensures
        lines(r@) == players_told(*n, map, radius@),
{
    let mut r: Vec<String> = Vec::new();
    let total = text::to_decimal(n.total as u64);
    let near = text::to_decimal(n.near as u64);
    let name = gm_parser::map_name(map);
    let mut first = text::join5("Players in-world: ", total.as_str(), " (near you: ", near.as_str(), " within ");
    first.append(radius);
    first.append("yd on '");
    first.append(name.as_str());
    first.append("')");
    r.push(first);
    if n.per_map.len() > 0 {
        let maps = write_per_map(&n.per_map);
        let mut second = "Per-map: ".to_string();
        second.append(maps.as_str());
        r.push(second);
    }
    let all = text::to_decimal((n.creatures.alive + n.creatures.corpse + n.creatures.respawning) as u64);
    let alive = text::to_decimal(n.creatures.alive as u64);
    let corpse = text::to_decimal(n.creatures.corpse as u64);
    let respawning = text::to_decimal(n.creatures.respawning as u64);
    let mut last = text::join5("Creatures: ", all.as_str(), " (alive ", alive.as_str(), ", corpse ");
    last.append(corpse.as_str());
    last.append(", respawning ");
    last.append(respawning.as_str());
    last.append(")");
    r.push(last);
    proof {
        let told = players_told(*n, map, radius@);
        assert(lines(r@).len() == told.len());
        assert forall|i: int| 0 <= i < told.len() implies lines(r@)[i] == told[i] by {
            assert(lines(r@)[i] == r@[i]@);
        }
        assert(lines(r@) =~= told);
    }
    r
}

/// How a pacer stands; `ema` is its average.
pub open spec fn pacer_told(s: Option<PacerSnapshot>, ema: Seq<char>) -> Seq<char> {
    match s {
        Some(p) => shown(p.current_interval_ms as int) + "ms last="@ + shown(p.last_tick_ms as int) + "ms ema="@ + ema
            + " streak="@ + shown(p.healthy_streak as int),
        None => "<no pacer state>"@,
    }
}

pub fn pacer_text(s: &Option<PacerSnapshot>, ema: &str) -> (r: String)
    ensures
        r@ == pacer_told(*s, ema@),
{
    match s {
        Some(p) => {
            let interval = text::to_decimal(p.current_interval_ms);
            let last = text::to_decimal(p.last_tick_ms);
            let streak = text::to_decimal(p.healthy_streak as u64);
            let mut r = text::join5(interval.as_str(), "ms last=", last.as_str(), "ms ema=", ema);
            r.append(" streak=");
            r.append(streak.as_str());
            r
        },
        None => "<no pacer state>".to_string(),
    }
}

/// A region as it is written, and how its pacer stands.
#[derive(Debug, Clone)]
pub struct WrittenRegion {
    pub name: String,
    pub pacer: String,
}

/// What is told of one region.
pub open spec fn region_told(r: Ranked, w: WrittenRegion) -> Seq<char> {
    "  "@ + w.name@ + ": players="@ + shown(r.major as int) + ", creatures="@ + shown(r.minor as int) + ", pacer="@
        + w.pacer@
}

/// The lines that tell of the fullest regions, each of them `size` yards wide.
pub open spec fn regions_told(n: RegionsReport, written: Seq<WrittenRegion>, size: Seq<char>) -> Seq<Seq<char>> {
    let named = if n.populated < REGIONS_LISTED {
        n.populated
    } else {
        REGIONS_LISTED
    };
    let head = "Regions: "@ + shown(n.populated as int) + " populated ("@ + size + "-yd each); top "@ + shown(named as int)
        + " by player count"@;
    let each = Seq::new(n.top@.len(), |i: int| region_told(n.top@[i], written[i]));
    let all = seq![head] + each;
    if n.populated > REGIONS_LISTED {
        all.push("  … "@ + shown(n.populated - REGIONS_LISTED) + " more populated regions truncated"@)
    } else {
        all
    }
}

fn region_line(r: &Ranked, w: &WrittenRegion) -> (s: String)
    ensures
        s@ == region_told(*r, *w),
{
    let players = text::to_decimal(r.major as u64);
    let creatures = text::to_decimal(r.minor as u64);
    let mut s = text::join5("  ", w.name.as_str(), ": players=", players.as_str(), ", creatures=");
    s.append(creatures.as_str());
    s.append(", pacer=");
    s.append(w.pacer.as_str());
    s
}

pub fn regions_lines(n: &RegionsReport, written: &Vec<WrittenRegion>, size: &str) -> (r: Vec<String>)
    requires
        written@.len() == n.top@.len(),
    ensures
        lines(r@) == regions_told(*n, written@, size@),
{
    let named: usize = if n.populated < REGIONS_LISTED {
        n.populated
    } else {
        REGIONS_LISTED
    };
    let populated = text::to_decimal(n.populated as u64);
    let top = text::to_decimal(named as u64);
    let mut head = text::join5("Regions: ", populated.as_str(), " populated (", size, "-yd each); top ");
    head.append(top.as_str());
    head.append(" by player count");
    let ghost first = head@;
    let mut r: Vec<String> = Vec::new();
    r.push(head);
    let mut i: usize = 0;
    while i < n.top.len()
        invariant
            i <= n.top@.len(),
            written@.len() == n.top@.len(),
            r@.len() == i + 1,
            r@[0]@ == first,
            forall|j: int| 0 <= j < i ==> (#[trigger] r@[j + 1])@ == region_told(n.top@[j], written@[j]),
        decreases n.top.len() - i,
    {
        r.push(region_line(&n.top[i], &written[i]));
        i += 1;
    }
    let ghost many = r@;
    if n.populated > REGIONS_LISTED {
        let rest = text::to_decimal((n.populated - REGIONS_LISTED) as u64);
        r.push(text::join3("  … ", rest.as_str(), " more populated regions truncated"));
    }
    proof {
        let told = regions_told(*n, written@, size@);
        assert(lines(r@).len() == told.len());
        assert forall|k: int| 0 <= k < told.len() implies lines(r@)[k] == told[k] by {
            assert(lines(r@)[k] == r@[k]@);
            if 0 < k <= n.top@.len() {
                assert(r@[(k - 1) + 1] == many[(k - 1) + 1]);
                assert(many[(k - 1) + 1]@ == region_told(n.top@[k - 1], written@[k - 1]));
            }
        }
        assert(lines(r@) =~= told);
    }
    r
}

/// What is told of a player. Gender, and race and class, come in as they are written.
pub fn player_text(c: &Character, gender: &str, race: &str, at: &WrittenPlace) -> (r: String)
    ensures
        r@ == "Player '"@ + c.name@ + "' ("@ + shown(c.guid as int) + ")\nLevel "@ + shown(c.level as int) + " "@ + gender@
            + " "@ + race@ + "\n"@ + gm_parser::map_named(c.map) + " "@ + coordinates(*at),
{
    let guid = text::to_decimal(c.guid);
    let level = text::to_decimal(c.level as u64);
    let map = gm_parser::map_name(c.map);
    let mut r = text::join5("Player '", c.name.as_str(), "' (", guid.as_str(), ")\nLevel ");
    r.append(level.as_str());
    r.append(" ");
    r.append(gender);
    r.append(" ");
    r.append(race);
    r.append("\n");
    r.append(map.as_str());
    r.append(" ");
    write_coordinates(&mut r, at);
    r
}

/// What is told of a creature.
pub fn creature_text(c: &Creature, at: &WrittenPlace) -> (r: String)
    ensures
        r@ == "Creature '"@ + c.name@ + "' ("@ + shown(c.guid as int) + ")\n"@ + gm_parser::map_named(c.map) + " "@
            + coordinates(*at) + " (Client movement not supported)"@,
{
    let guid = text::to_decimal(c.guid);
    let map = gm_parser::map_name(c.map);
    let mut r = text::join5("Creature '", c.name.as_str(), "' (", guid.as_str(), ")\n");
    r.append(map.as_str());
    r.append(" ");
    write_coordinates(&mut r, at);
    r.append(" (Client movement not supported)");
    r
}

/// What is told where there is no such target.
pub fn no_target_text(guid: u64) -> (r: String)
    ensures
        r@ == "Unable to find target '"@ + shown(guid as int) + "'"@,
{
    let number = text::to_decimal(guid);
    text::join3("Unable to find target '", number.as_str(), "'")
}

/// What is told where there is no such player.
pub fn no_player_text(guid: u64) -> (r: String)
    ensures
        r@ == "Unable to find player '"@ + shown(guid as int) + "'"@,
{
    let number = text::to_decimal(guid);
    text::join3("Unable to find player '", number.as_str(), "'")
}

/// What a look at the terrain between two players showed.
#[derive(Debug, Clone)]
pub enum LineOfSight {
    Clear,
    Blocked,
    Failed { why: String },
    NoTerrain,
}

/// What is told of a look from somebody on `map` at the player with that name.
pub open spec fn sight_told(s: LineOfSight, name: Seq<char>, map: u32) -> Seq<char> {
    match s {
        LineOfSight::Clear => "Has line of sight to "@ + name,
        LineOfSight::Blocked => "Has no line of sight to "@ + name,
        LineOfSight::Failed { why } => "LOS check failed: "@ + why@,
        LineOfSight::NoTerrain => "Unable to find map '"@ + gm_parser::map_named(map) + "' in pathfinding maps"@,
    }
}

pub fn sight_text(s: &LineOfSight, name: &str, map: u32) -> (r: String)
    ensures
        r@ == sight_told(*s, name@, map),
{
    match s {
        LineOfSight::Clear => {
            let mut r = "Has line of sight to ".to_string();
            r.append(name);
            r
        },
        LineOfSight::Blocked => {
            let mut r = "Has no line of sight to ".to_string();
            r.append(name);
            r
        },
        LineOfSight::Failed { why } => {
            let mut r = "LOS check failed: ".to_string();
            r.append(why.as_str());
            r
        },
        LineOfSight::NoTerrain => {
            let map = gm_parser::map_name(map);
            text::join3("Unable to find map '", map.as_str(), "' in pathfinding maps")
        },
    }
}

/// Names, each in quotes and with a comma behind it.
pub open spec fn quoted(names: Seq<String>) -> Seq<char>
    decreases names.len(),
{
    if names.len() == 0 {
        Seq::empty()
    } else {
        quoted(names.drop_last()) + "\""@ + names.last()@ + "\","@
    }
}

pub open spec fn truth(b: bool) -> Seq<char> {
    if b {
        "true"@
    } else {
        "false"@
    }
}

fn truth_text(b: bool) -> (r: &'static str)
    ensures
        r@ == truth(b),
{
    if b {
        "true"
    } else {
        "false"
    }
}

/// The first map of the first expansion.
pub const OUTLAND: u32 = 530;

/// The first map of the second expansion.
pub const NORTHREND: u32 = 571;

/// The line that is kept of a place that somebody on `own_map` marked.
pub open spec fn mark_kept(
    names: Seq<String>,
    map: u32,
    at: WrittenPlace,
    orientation: Seq<char>,
    own_map: u32,
) -> Seq<char> {
    "RawPosition::new("@ + shown(map as int) + ", "@ + at.x@ + ", "@ + at.y@ + ", "@ + at.z@ + ", "@ + orientation
        + ", vec!["@ + quoted(names) + "], ValidVersions::new(false, "@ + truth(own_map == OUTLAND) + ", "@ + truth(
        own_map == NORTHREND || own_map == OUTLAND,
    ) + ")),\n"@
}

pub fn mark_line(names: &Vec<String>, p: &Position, at: &WrittenPlace, orientation: &str, own_map: u32) -> (r: String)
    ensures
        r@ == mark_kept(names@, p.map, *at, orientation@, own_map),
{
    let map = text::to_decimal(p.map as u64);
    let mut r = text::join5("RawPosition::new(", map.as_str(), ", ", at.x.as_str(), ", ");
    r.append(at.y.as_str());
    r.append(", ");
    r.append(at.z.as_str());
    r.append(", ");
    r.append(orientation);
    r.append(", vec![");
    let ghost head = r@;
    let mut i: usize = 0;
    assert(names@.take(0) =~= Seq::<String>::empty());
    assert(r@ =~= head + quoted(names@.take(0)));
    while i < names.len()
        invariant
            i <= names@.len(),
            r@ == head + quoted(names@.take(i as int)),
        decreases names.len() - i,
    {
        proof {
            assert(names@.take(i + 1).drop_last() =~= names@.take(i as int));
            assert(names@.take(i + 1).last() == names@[i as int]);
        }
        r.append("\"");
        r.append(names[i].as_str());
        r.append("\",");
        assert(r@ =~= head + quoted(names@.take(i + 1)));
        i += 1;
    }
    assert(names@.take(i as int) =~= names@);
    r.append("], ValidVersions::new(false, ");
    r.append(truth_text(own_map == OUTLAND));
    r.append(", ");
    r.append(truth_text(own_map == NORTHREND || own_map == OUTLAND));
    r.append(")),\n");
    assert(r@ =~= mark_kept(names@, p.map, *at, orientation@, own_map));
    r
}

/// What is told of a mark.
pub fn marked_text(line: &str) -> (r: String)
    ensures
        r@ == "You added "@ + line@,
{
    let mut r = "You added ".to_string();
    r.append(line);
    r
}

/// The players of a map are told of behind those of the maps before, with the name of the
/// map and how many there are.
pub proof fn every_map_is_told_of(maps: Seq<Ranked>, m: Ranked)
    ensures
        maps.len() > 0 ==> per_map(maps.push(m)) == per_map(maps) + ", "@ + gm_parser::map_named(m.key as u32) + "="@
            + text::decimal(m.major as nat),
        maps.len() == 0 ==> per_map(maps.push(m)) == gm_parser::map_named(m.key as u32) + "="@ + text::decimal(
            m.major as nat,
        ),
        per_map(Seq::<Ranked>::empty()).len() == 0,
{
    let s = maps.push(m);
    assert(s.drop_last() =~= maps);
    assert(s.last() == m);
    let own = gm_parser::map_named(m.key as u32) + "="@ + text::decimal(m.major as nat);
    assert(per_map(maps) + ", "@ + own =~= per_map(maps) + ", "@ + gm_parser::map_named(m.key as u32) + "="@
        + text::decimal(m.major as nat));
}

/// A report tells how many players there are and how many of them near, then the maps if
/// there are any, and last how many creatures live, lie dead and wait.
pub proof fn a_report_tells_everything(n: &PlayersReport, map: u32, radius: &str, r: Vec<String>)
    requires
        n.creatures.alive + n.creatures.corpse + n.creatures.respawning <= usize::MAX,
        call_ensures(players_lines, (n, map, radius), r),
    ensures
        r@.len() == (if n.per_map@.len() == 0 {
            2int
        } else {
            3
        }),
        r@[0]@ == "Players in-world: "@ + text::decimal(n.total as nat) + " (near you: "@ + text::decimal(n.near as nat)
            + " within "@ + radius@ + "yd on '"@ + gm_parser::map_named(map) + "')"@,
        n.per_map@.len() > 0 ==> r@[1]@ == "Per-map: "@ + per_map(n.per_map@),
        r@.last()@ == "Creatures: "@ + text::decimal(
            (n.creatures.alive + n.creatures.corpse + n.creatures.respawning) as nat,
        ) + " (alive "@ + text::decimal(n.creatures.alive as nat) + ", corpse "@ + text::decimal(
            n.creatures.corpse as nat,
        ) + ", respawning "@ + text::decimal(n.creatures.respawning as nat) + ")"@,
{
    let l = lines(r@);
    assert(l.len() == r@.len());
    assert(l[0] == r@[0]@);
    assert(l[l.len() - 1] == r@[r@.len() - 1]@);
    if n.per_map@.len() > 0 {
        assert(l[1] == r@[1]@);
    }
}

/// Every region that is listed has a line of its own, behind the first, with its players and
/// creatures; where there are more than four, it is said how many are left out.
pub proof fn every_region_is_told_of(n: &RegionsReport, written: &Vec<WrittenRegion>, size: &str, r: Vec<String>, i: int)
    requires
        written@.len() == n.top@.len(),
        call_ensures(regions_lines, (n, written, size), r),
    ensures
        n.populated > 4 ==> r@.len() == n.top@.len() + 2,
        n.populated <= 4 ==> r@.len() == n.top@.len() + 1,
        0 <= i < n.top@.len() ==> r@[i + 1]@ == "  "@ + written@[i].name@ + ": players="@ + text::decimal(
            n.top@[i].major as nat,
        ) + ", creatures="@ + text::decimal(n.top@[i].minor as nat) + ", pacer="@ + written@[i].pacer@,
        n.populated <= 4 ==> r@[0]@ == "Regions: "@ + text::decimal(n.populated as nat) + " populated ("@ + size@
            + "-yd each); top "@ + text::decimal(n.populated as nat) + " by player count"@,
        n.populated > 4 ==> r@[0]@ == "Regions: "@ + text::decimal(n.populated as nat) + " populated ("@ + size@
            + "-yd each); top "@ + text::decimal(4) + " by player count"@,
{
    let l = lines(r@);
    assert(l.len() == r@.len());
    assert(l[0] == r@[0]@);
    if 0 <= i < n.top@.len() {
        assert(l[i + 1] == r@[i + 1]@);
    }
}

/// A name is quoted behind those before it, and a comma follows.
pub proof fn every_name_is_quoted(names: Seq<String>, name: String)
    ensures
        quoted(names.push(name)) == quoted(names) + "\""@ + name@ + "\","@,
        quoted(Seq::<String>::empty()).len() == 0,
{
    assert(names.push(name).drop_last() =~= names);
}

/// A mark keeps the place and its names, and is for the versions that know the map where the
/// game master is: the first expansion knows its own, and the second both.
pub proof fn a_mark_is_for_its_versions(
    names: &Vec<String>,
    p: &Position,
    at: &WrittenPlace,
    orientation: &str,
    own_map: u32,
    r: String,
)
    requires
        call_ensures(mark_line, (names, p, at, orientation, own_map), r),
    ensures
        ({
            let start = "RawPosition::new("@ + text::decimal(p.map as nat) + ", "@ + at.x@ + ", "@ + at.y@ + ", "@
                + at.z@ + ", "@ + orientation@ + ", vec!["@ + quoted(names@) + "], ValidVersions::new(false, "@;
            &&& own_map == 530 ==> r@ == start + "true"@ + ", "@ + "true"@ + ")),\n"@
            &&& own_map == 571 ==> r@ == start + "false"@ + ", "@ + "true"@ + ")),\n"@
            &&& own_map != 530 && own_map != 571 ==> r@ == start + "false"@ + ", "@ + "false"@ + ")),\n"@
        }),
{
}

/// How a pacer stands is told with its interval, the last tick, the average and the streak;
/// what a look at the terrain showed, with the name of whom it was at.
pub proof fn pace_and_sight_are_told(
    p: PacerSnapshot,
    ema: &str,
    some: String,
    none: String,
    s: &LineOfSight,
    name: &str,
    map: u32,
    r: String,
)
    requires
        call_ensures(pacer_text, (&Some(p), ema), some),
        call_ensures(pacer_text, (&None, ema), none),
        call_ensures(sight_text, (s, name, map), r),
    ensures
        some@ == text::decimal(p.current_interval_ms as nat) + "ms last="@ + text::decimal(p.last_tick_ms as nat)
            + "ms ema="@ + ema@ + " streak="@ + text::decimal(p.healthy_streak as nat),
        none@ == "<no pacer state>"@,
        *s is Clear ==> r@ == "Has line of sight to "@ + name@,
        *s is Blocked ==> r@ == "Has no line of sight to "@ + name@,
        *s is Failed ==> r@ == "LOS check failed: "@ + s->why@,
        *s is NoTerrain ==> r@ == "Unable to find map '"@ + gm_parser::map_named(map) + "' in pathfinding maps"@,
{
}

/// Somebody is told where they are by the name and number of the map and their coordinates,
/// in their order.
pub proof fn places_are_told_in_order(me: &Character, at: &WrittenPlace, r: String)
    requires
        call_ensures(where_text, (me, at), r),
    ensures
        r@ == "You are on '"@ + gm_parser::map_named(me.map) + "' ("@ + text::decimal(me.map as nat) + "), "@ + ("x: "@
            + at.x@ + ", y: "@ + at.y@ + ", z: "@ + at.z@),
{
}

} // verus!

//! The commands that game masters type.
use crate::cell::{PlayerRegistry, RegistryView};
use crate::character::Character;
use crate::creature::Position;
use crate::entities::Entity;
use crate::item;
use crate::item::ItemData;
use crate::map_state::{MapState, MapView};
use crate::slabs;
use crate::text;
use vstd::prelude::*;
use vstd::string::StringExecFns;

verus! {

/// A position by its bare numbers.
#[derive(Debug, Clone, Copy, PartialEq, Eq, Structural)]
pub struct RawPosition {
    pub map: u32,
    pub x: u32,
    pub y: u32,
    pub z: u32,
    pub orientation: u32,
}

#[derive(Debug, Clone, Copy, PartialEq, Eq, Structural)]
pub enum Direction {
    North,
    South,
    East,
    West,
}

/// A command, with what it needs.
#[derive(Debug)]
pub enum GmCommand {
    WhereAmI,
    /// Go five yards in that direction.
    Step(Direction),
    /// Go where somebody is.
    Teleport(Position),
    /// Go to those coordinates.
    TeleportTo(RawPosition),
    /// Go so many yards ahead.
    Extend(u32),
    /// Go so many yards up.
    Float(u32),
    /// Run so many times as fast as usual.
    SetRunSpeed(u32),
    Mark { names: Vec<String>, p: Position },
    /// Tell how far away that is.
    RangeToTarget(Position),
    AddItem(ItemData),
    MoveNpc,
    Spawn { display_id: Option<u16>, name: Option<String> },
    Boom,
    Nova,
    WorldDbInfo,
    Information(u64),
    ShouldHaveLineOfSight(u64),
    ShouldNotHaveLineOfSight(u64),
    Swifty,
    Players,
    Cells,
}

/// A command, as contracts speak of it.
pub enum GmView {
    Mark { names: Seq<Seq<char>>, p: Position },
    Spawn { display_id: Option<u16>, name: Option<Seq<char>> },
    Other(GmCommand),
}

/// The characters of a list of texts.
pub open spec fn texts_of(v: Seq<String>) -> Seq<Seq<char>> {
    v.map_values(|s: String| s@)
}

impl View for GmCommand {
    type V = GmView;

    open spec fn view(&self) -> GmView {
        match *self {
            GmCommand::Mark { names, p } => GmView::Mark { names: texts_of(names@), p },
            GmCommand::Spawn { display_id, name } => GmView::Spawn {
                display_id,
                name: match name {
                    Some(n) => Some(n@),
                    None => None,
                },
            },
            c => GmView::Other(c),
        }
    }
}

/// What a number was to be.
#[derive(Debug, Clone, Copy, PartialEq, Eq, Structural)]
pub enum Argument {
    Coordinate,
    MapNumber,
    Speed,
}

/// Why a command was not understood.
#[derive(Debug, Clone, Copy, PartialEq, Eq, Structural)]
pub enum GmErrorKind {
    NoTargetSelected,
    NotAGuid,
    LocationNotFound,
    GoNeedsTarget,
    TargetNotFound(u64),
    PlayerNotFound,
    OnlyTwoCoordinates,
    Invalid(Argument),
    NotAMap(i32),
    TooManyArguments,
    MarkNeedsNames,
    RangeNoTarget,
    RangeSelf,
    RangeTargetNotFound(u64),
    RangeOtherMap { target: u64, their_map: u32, own_map: u32 },
    NotAnItem,
    InvalidDisplayId,
    InvalidCommand,
}

/// Why a command was not understood, and the text at fault where there is one.
#[derive(Debug)]
pub struct GmError {
    pub kind: GmErrorKind,
    pub about: String,
}

/// What the game data answers.
#[derive(Debug, Clone, Copy)]
pub struct Lookups {
    pub location: Option<RawPosition>,
    pub item_by_number: Option<ItemData>,
    pub item_by_name: Option<ItemData>,
    pub map: Option<u32>,
}

/// The position that the game data has under a name.
pub uninterp spec fn location(name: Seq<char>) -> Option<RawPosition>;

/// `position_from_str` of `wow_world_base`: the position with that name, if
/// there is one.
#[verifier::external_body]
fn position_from_str(name: &str) -> (r: Option<RawPosition>)
    ensures
        r == location(name@),
{
    let p = wow_world_base::vanilla::position::position_from_str(name)?;
    Some(RawPosition {
        map: p.map.as_int(),
        x: p.x.to_bits(),
        y: p.y.to_bits(),
        z: p.z.to_bits(),
        orientation: p.orientation.to_bits(),
    })
}

/// The first item in whose name `name` occurs.
pub uninterp spec fn item_named(name: Seq<char>) -> Option<ItemData>;

/// `lookup_item_by_name` of `wow_items`: the first item in whose name the text
/// occurs, in whatever case, if there is one.
#[verifier::external_body]
fn lookup_item_by_name(name: &str) -> (r: Option<ItemData>)
    ensures
        r == item_named(name@),
{
    let item = wow_items::vanilla::lookup_item_by_name(name)?;
    Some(ItemData {
        entry: item.entry(),
        display_id: item.display_id(),
        inventory_type: item.inventory_type().as_int(),
        bag_family: item.bag_family().as_int(),
        max_durability: item.max_durability(),
        random_property: item.random_property(),
    })
}

/// The map with the number `n`.
pub uninterp spec fn map_numbered(n: i32) -> Option<u32>;

/// `Map::try_from` of `wow_world_base`: the number of the map that `n` stands
/// for, if there is such a map. That is `n` itself.
#[verifier::external_body]
fn map_from(n: i32) -> (r: Option<u32>)
    ensures
        r == map_numbered(n),
        r is Some ==> r->0 == n,
{
    wow_world_base::vanilla::Map::try_from(n).ok().map(|m| m.as_int())
}

/// The name of the map with the number `n`.
pub uninterp spec fn map_named(n: u32) -> Seq<char>;

/// `Display` of `Map` of `wow_world_base`, for a map by its number: its name. A
/// number that no map has is given the name of the first map.
#[verifier::external_body]
pub(crate) fn map_name(n: u32) -> (r: String)
    ensures
        r@ == map_named(n),
{
    wow_world_base::vanilla::Map::try_from(n).unwrap_or_default().to_string()
}

/// The bit pattern of five yards.
pub const FIVE_YARDS: u32 = 0x40a0_0000;

/// What the float that the `i`th word writes is, if it writes one.
pub open spec fn reading(readings: Seq<Option<u32>>, i: int) -> Option<u32> {
    if 0 <= i < readings.len() {
        readings[i]
    } else {
        None
    }
}

pub open spec fn five_or(distance: Option<u32>) -> u32 {
    match distance {
        Some(d) => d,
        None => FIVE_YARDS,
    }
}

/// The first of the first three words that is no number.
pub open spec fn bad_coordinate(readings: Seq<Option<u32>>) -> Option<int> {
    if reading(readings, 0) is None {
        Some(0)
    } else if reading(readings, 1) is None {
        Some(1)
    } else if reading(readings, 2) is None {
        Some(2)
    } else {
        None
    }
}

type Parsed = Result<GmView, (GmErrorKind, Seq<char>)>;

/// A command that takes no text.
pub open spec fn plain(c: GmCommand) -> Parsed {
    Ok(GmView::Other(c))
}

/// A refusal, about some text.
pub open spec fn refused(kind: GmErrorKind, about: Seq<char>) -> Parsed {
    Err((kind, about))
}

pub open spec fn nothing() -> Seq<char> {
    Seq::empty()
}

pub open spec fn parsed_info(arg: Seq<char>, me: Character) -> Parsed {
    match text::unsigned(arg, u64::MAX as int) {
        Some(n) => plain(GmCommand::Information(n as u64)),
        None => if me.target != 0 {
            plain(GmCommand::Information(me.target))
        } else if arg.len() == 0 {
            refused(GmErrorKind::NoTargetSelected, nothing())
        } else {
            refused(GmErrorKind::NotAGuid, arg)
        },
    }
}

pub open spec fn parsed_go(
    words: Seq<Seq<char>>,
    me: Character,
    v: MapView,
    reg: RegistryView,
    readings: Seq<Option<u32>>,
    map: Option<u32>,
) -> Parsed {
    if words.len() == 0 {
        if me.target == 0 {
            refused(GmErrorKind::GoNeedsTarget, nothing())
        } else {
            match v.entity(me.target) {
                Some(e) => plain(GmCommand::Teleport(v.position_of(e))),
                None => match reg.by_guid(me.target) {
                    Some(p) => plain(GmCommand::Teleport(p)),
                    None => refused(GmErrorKind::TargetNotFound(me.target), nothing()),
                },
            }
        }
    } else if words.len() == 1 {
        match reg.by_name(text::lowercased(words[0])) {
            Some(p) => plain(GmCommand::Teleport(p)),
            None => refused(GmErrorKind::PlayerNotFound, words[0]),
        }
    } else if words.len() == 2 {
        refused(GmErrorKind::OnlyTwoCoordinates, nothing())
    } else if words.len() > 4 {
        refused(GmErrorKind::TooManyArguments, nothing())
    } else {
        match bad_coordinate(readings) {
            Some(i) => refused(GmErrorKind::Invalid(Argument::Coordinate), words[i]),
            None => {
                let x = reading(readings, 0)->0;
                let y = reading(readings, 1)->0;
                let z = reading(readings, 2)->0;
                let orientation = me.info.orientation;
                if words.len() == 3 {
                    plain(GmCommand::TeleportTo(RawPosition { map: me.map, x, y, z, orientation }))
                } else {
                    match text::signed(words[3], i32::MIN as int, i32::MAX as int) {
                        None => refused(GmErrorKind::Invalid(Argument::MapNumber), words[3]),
                        Some(n) => match map {
                            Some(map) => plain(GmCommand::TeleportTo(RawPosition { map, x, y, z, orientation })),
                            None => refused(GmErrorKind::NotAMap(n as i32), nothing()),
                        },
                    }
                }
            },
        }
    }
}

/// The name of an entity.
pub open spec fn name_of(v: MapView, e: Entity) -> Seq<char> {
    match e {
        Entity::Player(k) => v.clients[k].character.name@,
        Entity::Creature(k) => v.creatures[k].name@,
    }
}

pub open spec fn parsed_range(me: Character, v: MapView) -> Parsed {
    if me.target == 0 {
        refused(GmErrorKind::RangeNoTarget, nothing())
    } else if me.target == me.guid {
        refused(GmErrorKind::RangeSelf, nothing())
    } else {
        match v.entity(me.target) {
            None => refused(GmErrorKind::RangeTargetNotFound(me.target), nothing()),
            Some(e) => {
                let p = v.position_of(e);
                if p.map == me.map {
                    plain(GmCommand::RangeToTarget(p))
                } else {
                    refused(
                        GmErrorKind::RangeOtherMap { target: me.target, their_map: p.map, own_map: me.map },
                        name_of(v, e),
                    )
                }
            },
        }
    }
}

/// The names between the commas.
pub open spec fn listed_names(args: Seq<char>) -> Seq<Seq<char>> {
    text::pieces(args, ',').map_values(|p: Seq<char>| text::trimmed(p))
}

pub open spec fn parsed_spawn(arg: Seq<char>) -> Parsed {
    if arg.len() == 0 {
        Ok(GmView::Spawn { display_id: None, name: None })
    } else {
        let (id, name) = text::split_first(arg, ' ');
        match text::unsigned(id, u16::MAX as int) {
            None => refused(GmErrorKind::InvalidDisplayId, id),
            Some(n) => Ok(
                GmView::Spawn {
                    display_id: Some(n as u16),
                    name: if text::trimmed(name).len() == 0 {
                        None
                    } else {
                        Some(text::trimmed(name))
                    },
                },
            ),
        }
    }
}

/// The position of a character.
pub open spec fn whereabouts(c: Character) -> Position {
    Position { map: c.map, place: c.info.position, orientation: c.info.orientation }
}

/// What a message that `me` typed means. `readings` holds the floats that the
/// words of its arguments write, and `whole` the one that all of them together
/// write.
pub open spec fn parsed(
    message: Seq<char>,
    me: Character,
    v: MapView,
    reg: RegistryView,
    readings: Seq<Option<u32>>,
    whole: Option<u32>,
    found: Lookups,
) -> Parsed {
    let (command, args) = text::split_first(message, ' ');
    let arg = text::trimmed(args);
    if command == "north"@ {
        plain(GmCommand::Step(Direction::North))
    } else if command == "south"@ {
        plain(GmCommand::Step(Direction::South))
    } else if command == "east"@ {
        plain(GmCommand::Step(Direction::East))
    } else if command == "west"@ {
        plain(GmCommand::Step(Direction::West))
    } else if command == "whereami"@ {
        plain(GmCommand::WhereAmI)
    } else if command == "info"@ {
        parsed_info(arg, me)
    } else if command == "tp"@ {
        match found.location {
            Some(p) => plain(GmCommand::TeleportTo(p)),
            None => refused(GmErrorKind::LocationNotFound, arg),
        }
    } else if command == "go"@ {
        parsed_go(text::words(args), me, v, reg, readings, found.map)
    } else if command == "speed"@ {
        match whole {
            Some(s) => plain(GmCommand::SetRunSpeed(s)),
            None => refused(GmErrorKind::Invalid(Argument::Speed), arg),
        }
    } else if command == "mark"@ {
        if args.len() == 0 {
            refused(GmErrorKind::MarkNeedsNames, nothing())
        } else {
            Ok(GmView::Mark { names: listed_names(args), p: whereabouts(me) })
        }
    } else if command == "range"@ {
        parsed_range(me, v)
    } else if command == "extend"@ {
        plain(GmCommand::Extend(five_or(whole)))
    } else if command == "float"@ {
        plain(GmCommand::Float(five_or(whole)))
    } else if command == "additem"@ {
        match found.item_by_number {
            Some(i) => plain(GmCommand::AddItem(i)),
            None => match found.item_by_name {
                Some(i) => plain(GmCommand::AddItem(i)),
                None => refused(GmErrorKind::NotAnItem, arg),
            },
        }
    } else if command == "move"@ {
        plain(GmCommand::MoveNpc)
    } else if command == "spawn"@ {
        parsed_spawn(arg)
    } else if command == "boom"@ {
        plain(GmCommand::Boom)
    } else if command == "nova"@ {
        plain(GmCommand::Nova)
    } else if command == "worlddbinfo"@ {
        plain(GmCommand::WorldDbInfo)
    } else if command == "los"@ {
        plain(GmCommand::ShouldHaveLineOfSight(me.target))
    } else if command == "nolos"@ {
        plain(GmCommand::ShouldNotHaveLineOfSight(me.target))
    } else if command == "swifty"@ {
        plain(GmCommand::Swifty)
    } else if command == "players"@ || command == "playercount"@ {
        plain(GmCommand::Players)
    } else if command == "cells"@ {
        plain(GmCommand::Cells)
    } else {
        refused(GmErrorKind::InvalidCommand, message)
    }
}

/// What the game data answers to a message.
pub open spec fn answers(message: Seq<char>) -> Lookups {
    let args = text::split_first(message, ' ').1;
    let arg = text::trimmed(args);
    let words = text::words(args);
    Lookups {
        location: location(arg),
        item_by_number: match text::unsigned(arg, u32::MAX as int) {
            Some(n) => item::item_data(n as u32),
            None => None,
        },
        item_by_name: item_named(arg),
        map: if words.len() == 4 {
            match text::signed(words[3], i32::MIN as int, i32::MAX as int) {
                Some(n) => map_numbered(n as i32),
                None => None,
            }
        } else {
            None
        },
    }
}

/// What `r` says, as contracts speak of it.
pub open spec fn result_of(r: Result<GmCommand, GmError>) -> Parsed {
    match r {
        Ok(c) => Ok(c@),
        Err(e) => Err((e.kind, e.about@)),
    }
}

fn refuse(kind: GmErrorKind) -> (r: Result<GmCommand, GmError>)
    ensures
        result_of(r) == refused(kind, nothing()),
{
    let about = String::new();
    assert(about@ =~= nothing());
    Err(GmError { kind, about })
}

fn refuse_about(kind: GmErrorKind, about: &Vec<char>) -> (r: Result<GmCommand, GmError>)
    ensures
        result_of(r) == refused(kind, about@),
{
    Err(GmError { kind, about: text::from_chars(about) })
}

fn parse_info(arg: &Vec<char>, me: &Character) -> (r: Result<GmCommand, GmError>)
    ensures
        result_of(r) == parsed_info(arg@, *me),
{
    match text::parse_unsigned(arg, u64::MAX) {
        Some(n) => Ok(GmCommand::Information(n)),
        None => if me.target != 0 {
            Ok(GmCommand::Information(me.target))
        } else if arg.len() == 0 {
            refuse(GmErrorKind::NoTargetSelected)
        } else {
            refuse_about(GmErrorKind::NotAGuid, arg)
        },
    }
}

fn read_float(readings: &Vec<Option<u32>>, i: usize) -> (r: Option<u32>)
    ensures
        r == reading(readings@, i as int),
{
    if i < readings.len() {
        readings[i]
    } else {
        None
    }
}

fn parse_coordinates(
    words: &Vec<Vec<char>>,
    me: &Character,
    readings: &Vec<Option<u32>>,
    map: Option<u32>,
) -> (r: Result<GmCommand, GmError>)
    requires
        words@.len() == 3 || words@.len() == 4,
    ensures
        forall|v: MapView, reg: RegistryView|
            result_of(r) == #[trigger] parsed_go(text::texts(words@), *me, v, reg, readings@, map),
{
    let ghost ws = text::texts(words@);
    assert(ws.len() == words@.len());
    assert(ws[0] == words@[0]@);
    assert(ws[1] == words@[1]@);
    assert(ws[2] == words@[2]@);
    let x: u32 = match read_float(readings, 0) {
        Some(x) => x,
        None => {
            return refuse_about(GmErrorKind::Invalid(Argument::Coordinate), &words[0]);
        },
    };
    let y: u32 = match read_float(readings, 1) {
        Some(y) => y,
        None => {
            return refuse_about(GmErrorKind::Invalid(Argument::Coordinate), &words[1]);
        },
    };
    let z: u32 = match read_float(readings, 2) {
        Some(z) => z,
        None => {
            return refuse_about(GmErrorKind::Invalid(Argument::Coordinate), &words[2]);
        },
    };
    let orientation: u32 = me.info.orientation;
    if words.len() == 3 {
        return Ok(GmCommand::TeleportTo(RawPosition { map: me.map, x, y, z, orientation }));
    }
    assert(ws[3] == words@[3]@);
    match text::parse_i32(&words[3]) {
        None => refuse_about(GmErrorKind::Invalid(Argument::MapNumber), &words[3]),
        Some(n) => match map {
            Some(map) => Ok(GmCommand::TeleportTo(RawPosition { map, x, y, z, orientation })),
            None => refuse(GmErrorKind::NotAMap(n)),
        },
    }
}

fn parse_go(
    words: &Vec<Vec<char>>,
    me: &Character,
    map_state: &MapState,
    registry: &PlayerRegistry,
    readings: &Vec<Option<u32>>,
    map: Option<u32>,
) -> (r: Result<GmCommand, GmError>)
    requires
        registry.wf(),
    ensures
        result_of(r) == parsed_go(text::texts(words@), *me, map_state@, registry@, readings@, map),
{
    let ghost ws = text::texts(words@);
    assert(ws.len() == words@.len());
    if words.len() == 0 {
        if me.target == 0 {
            return refuse(GmErrorKind::GoNeedsTarget);
        }
        if let Some(p) = map_state.find_position(me.target) {
            return Ok(GmCommand::Teleport(p));
        }
        return match registry.lookup_player_position(me.target) {
            Some(p) => Ok(GmCommand::Teleport(p)),
            None => refuse(GmErrorKind::TargetNotFound(me.target)),
        };
    }
    if words.len() == 1 {
        assert(ws[0] == words@[0]@);
        let name = text::from_chars(&words[0]);
        let lower = text::to_lowercase(name.as_str());
        return match registry.lookup_player_position_by_name(lower.as_str()) {
            Some(p) => Ok(GmCommand::Teleport(p)),
            None => refuse_about(GmErrorKind::PlayerNotFound, &words[0]),
        };
    }
    if words.len() == 2 {
        return refuse(GmErrorKind::OnlyTwoCoordinates);
    }
    if words.len() > 4 {
        return refuse(GmErrorKind::TooManyArguments);
    }
    parse_coordinates(words, me, readings, map)
}

fn parse_range(me: &Character, map_state: &MapState) -> (r: Result<GmCommand, GmError>)
    ensures
        result_of(r) == parsed_range(*me, map_state@),
{
    if me.target == 0 {
        return refuse(GmErrorKind::RangeNoTarget);
    }
    if me.target == me.guid {
        return refuse(GmErrorKind::RangeSelf);
    }
    let e = match map_state.find_guid(me.target) {
        Some(e) => e,
        None => {
            return refuse(GmErrorKind::RangeTargetNotFound(me.target));
        },
    };
    let p = match map_state.find_position(me.target) {
        Some(p) => p,
        None => {
            return refuse(GmErrorKind::RangeTargetNotFound(me.target));
        },
    };
    if p.map == me.map {
        return Ok(GmCommand::RangeToTarget(p));
    }
    let kind = GmErrorKind::RangeOtherMap { target: me.target, their_map: p.map, own_map: me.map };
    let about = match e {
        Entity::Player(k) => match slabs::clients_get(&map_state.clients, k) {
            Some(c) => {
                assert(c@ == map_state@.clients[k]);
                c.character.name.clone()
            },
            None => String::new(),
        },
        Entity::Creature(k) => match slabs::creatures_get(&map_state.creatures, k) {
            Some(c) => c.name.clone(),
            None => String::new(),
        },
    };
    Err(GmError { kind, about })
}

fn parse_names(args: &Vec<char>) -> (r: Vec<String>)
    ensures
        texts_of(r@) == listed_names(args@),
{
    let all = text::split(args, ',');
    let ghost pieces = text::texts(all@);
    let mut r: Vec<String> = Vec::new();
    let mut i: usize = 0;
    while i < all.len()
        invariant
            i <= all@.len(),
            r@.len() == i,
            pieces == text::texts(all@),
            forall|j: int| 0 <= j < i ==> (#[trigger] r@[j])@ == text::trimmed(pieces[j]),
        decreases all.len() - i,
    {
        assert(pieces[i as int] == all@[i as int]@);
        r.push(text::from_chars(&text::trim(&all[i])));
        i += 1;
    }
    assert(texts_of(r@) =~= listed_names(args@));
    r
}

fn parse_spawn(arg: &Vec<char>) -> (r: Result<GmCommand, GmError>)
    ensures
        result_of(r) == parsed_spawn(arg@),
{
    if arg.len() == 0 {
        return Ok(GmCommand::Spawn { display_id: None, name: None });
    }
    let (id, name) = text::split_once_or_all(arg, ' ');
    match text::parse_unsigned(&id, 0xffff) {
        None => refuse_about(GmErrorKind::InvalidDisplayId, &id),
        Some(n) => {
            let name = text::trim(&name);
            Ok(
                GmCommand::Spawn {
                    display_id: Some(n as u16),
                    name: if name.len() == 0 {
                        None
                    } else {
                        Some(text::from_chars(&name))
                    },
                },
            )
        },
    }
}

impl GmCommand {
    /// Understand a message, given what the game data answers.
    pub fn from_answers(
        message: &str,
        me: &Character,
        map_state: &MapState,
        registry: &PlayerRegistry,
        readings: &Vec<Option<u32>>,
        whole: Option<u32>,
        found: Lookups,
    ) -> (r: Result<GmCommand, GmError>)
        requires
            registry.wf(),
        ensures
            result_of(r) == parsed(message@, *me, map_state@, registry@, readings@, whole, found),
    {
        let (command, args) = text::split_once_or_all(&text::chars_of(message), ' ');
        let arg = text::trim(&args);
        let command = text::from_chars(&command);
        let command = command.as_str();
        if text::same(command, "north") {
            Ok(GmCommand::Step(Direction::North))
        } else if text::same(command, "south") {
            Ok(GmCommand::Step(Direction::South))
        } else if text::same(command, "east") {
            Ok(GmCommand::Step(Direction::East))
        } else if text::same(command, "west") {
            Ok(GmCommand::Step(Direction::West))
        } else if text::same(command, "whereami") {
            Ok(GmCommand::WhereAmI)
        } else if text::same(command, "info") {
            parse_info(&arg, me)
        } else if text::same(command, "tp") {
            match found.location {
                Some(p) => Ok(GmCommand::TeleportTo(p)),
                None => refuse_about(GmErrorKind::LocationNotFound, &arg),
            }
        } else if text::same(command, "go") {
            parse_go(&text::split_whitespace(&args), me, map_state, registry, readings, found.map)
        } else if text::same(command, "speed") {
            match whole {
                Some(s) => Ok(GmCommand::SetRunSpeed(s)),
                None => refuse_about(GmErrorKind::Invalid(Argument::Speed), &arg),
            }
        } else if text::same(command, "mark") {
            if args.len() == 0 {
                refuse(GmErrorKind::MarkNeedsNames)
            } else {
                Ok(
                    GmCommand::Mark {
                        names: parse_names(&args),
                        p: Position { map: me.map, place: me.info.position, orientation: me.info.orientation },
                    },
                )
            }
        } else if text::same(command, "range") {
            parse_range(me, map_state)
        } else if text::same(command, "extend") {
            Ok(
                GmCommand::Extend(
                    match whole {
                        Some(d) => d,
                        None => FIVE_YARDS,
                    },
                ),
            )
        } else if text::same(command, "float") {
            Ok(
                GmCommand::Float(
                    match whole {
                        Some(d) => d,
                        None => FIVE_YARDS,
                    },
                ),
            )
        } else if text::same(command, "additem") {
            match found.item_by_number {
                Some(i) => Ok(GmCommand::AddItem(i)),
                None => match found.item_by_name {
                    Some(i) => Ok(GmCommand::AddItem(i)),
                    None => refuse_about(GmErrorKind::NotAnItem, &arg),
                },
            }
        } else if text::same(command, "move") {
            Ok(GmCommand::MoveNpc)
        } else if text::same(command, "spawn") {
            parse_spawn(&arg)
        } else if text::same(command, "boom") {
            Ok(GmCommand::Boom)
        } else if text::same(command, "nova") {
            Ok(GmCommand::Nova)
        } else if text::same(command, "worlddbinfo") {
            Ok(GmCommand::WorldDbInfo)
        } else if text::same(command, "los") {
            Ok(GmCommand::ShouldHaveLineOfSight(me.target))
        } else if text::same(command, "nolos") {
            Ok(GmCommand::ShouldNotHaveLineOfSight(me.target))
        } else if text::same(command, "swifty") {
            Ok(GmCommand::Swifty)
        } else if text::same(command, "players") || text::same(command, "playercount") {
            Ok(GmCommand::Players)
        } else if text::same(command, "cells") {
            Ok(GmCommand::Cells)
        } else {
            Err(GmError { kind: GmErrorKind::InvalidCommand, about: message.to_string() })
        }
    }

    /// Understand a message that a game master typed.
    pub fn from_player_command(
        message: &str,
        me: &Character,
        map_state: &MapState,
        registry: &PlayerRegistry,
        readings: &Vec<Option<u32>>,
        whole: Option<u32>,
    ) -> (r: Result<GmCommand, GmError>)
        requires
            registry.wf(),
        ensures
            result_of(r) == parsed(
                message@,
                *me,
                map_state@,
                registry@,
                readings@,
                whole,
                answers(message@),
            ),
    {
        let (command, args) = text::split_once_or_all(&text::chars_of(message), ' ');
        let command = text::from_chars(&command);
        let arg = text::trim(&args);
        let name = text::from_chars(&arg);
        let words = text::split_whitespace(&args);
        let ghost ws = text::texts(words@);
        assert(ws.len() == words@.len());
        let mut map: Option<u32> = None;
        if words.len() == 4 {
            assert(ws[3] == words@[3]@);
            if let Some(n) = text::parse_i32(&words[3]) {
                map = map_from(n);
            }
        }
        let mut item_by_number: Option<ItemData> = None;
        let mut item_by_name: Option<ItemData> = None;
        if text::same(command.as_str(), "additem") {
            if let Some(n) = text::parse_unsigned(&arg, 0xffff_ffff) {
                item_by_number = item::lookup_item(n as u32);
            }
            if item_by_number.is_none() {
                item_by_name = lookup_item_by_name(name.as_str());
            }
        }
        let found = Lookups {
            location: position_from_str(name.as_str()),
            item_by_number,
            item_by_name,
            map,
        };
        Self::from_answers(message, me, map_state, registry, readings, whole, found)
    }
}

/// What is said of an argument that is no number.
pub open spec fn invalid_text(argument_name: Seq<char>, v: Seq<char>) -> Seq<char> {
    "invalid "@ + argument_name + ": '"@ + v + "'"@
}

/// Read an integer.
pub fn parse_int(v: &str, argument_name: &str) -> (r: Result<i32, String>)
    ensures
        match r {
            Ok(n) => text::signed(v@, i32::MIN as int, i32::MAX as int) == Some(n as int),
            Err(e) => text::signed(v@, i32::MIN as int, i32::MAX as int) is None && e@ == invalid_text(
                argument_name@,
                v@,
            ),
        },
{
    match text::parse_i32(&text::chars_of(v)) {
        Some(n) => Ok(n),
        None => Err(text::join5("invalid ", argument_name, ": '", v, "'")),
    }
}

/// The float that `v` writes, given what reading it gave.
pub fn parse_float(v: &str, reading: Option<u32>, argument_name: &str) -> (r: Result<u32, String>)
    ensures
        match r {
            Ok(n) => reading == Some(n),
            Err(e) => reading is None && e@ == invalid_text(argument_name@, v@),
        },
{
    match reading {
        Some(n) => Ok(n),
        None => Err(text::join5("invalid ", argument_name, ": '", v, "'")),
    }
}

/// A number with its sign, in decimal digits.
pub open spec fn signed_decimal(n: int) -> Seq<char> {
    if n < 0 {
        "-"@ + text::decimal((-n) as nat)
    } else {
        text::decimal(n as nat)
    }
}

fn to_signed_decimal(n: i32) -> (r: String)
    ensures
        r@ == signed_decimal(n as int),
{
    if n < 0 {
        let digits = text::to_decimal((0i64 - n as i64) as u64);
        let mut r = "-".to_string();
        r.append(digits.as_str());
        r
    } else {
        text::to_decimal(n as u64)
    }
}

pub open spec fn argument_name(a: Argument) -> Seq<char> {
    match a {
        Argument::Coordinate => "coordinate"@,
        Argument::MapNumber => "map"@,
        Argument::Speed => "speed argument"@,
    }
}

/// What a game master is told of a command that was not understood.
pub open spec fn error_text(kind: GmErrorKind, about: Seq<char>) -> Seq<char> {
    match kind {
        GmErrorKind::NoTargetSelected => "No target selected"@,
        GmErrorKind::NotAGuid => "Parameter '"@ + about + "' is not a valid GUID"@,
        GmErrorKind::LocationNotFound => "Location not found: '"@ + about + "'"@,
        GmErrorKind::GoNeedsTarget => "Must have a target for .go command without arguments"@,
        GmErrorKind::TargetNotFound(g) => "Unable to find target '"@ + text::decimal(g as nat) + "'"@,
        GmErrorKind::PlayerNotFound => "Unable to find player '"@ + about + "'"@,
        GmErrorKind::OnlyTwoCoordinates => "Can not teleport with only x and y coordinates"@,
        GmErrorKind::Invalid(a) => invalid_text(argument_name(a), about),
        GmErrorKind::NotAMap(n) => ""@ + signed_decimal(n as int) + " is not a valid map"@,
        GmErrorKind::TooManyArguments => "Incorrect '.go' command: Too many arguments"@,
        GmErrorKind::MarkNeedsNames =>
            ".mark a list of names separated by a comma, like '.mark Honor Hold,HH'"@,
        GmErrorKind::RangeNoTarget => "Unable to find range: No target"@,
        GmErrorKind::RangeSelf => "Unable to find range: You are targeting yourself"@,
        GmErrorKind::RangeTargetNotFound(g) => "Unable to find range: Unable to find target '"@ + text::decimal(
            g as nat,
        ) + "'"@,
        GmErrorKind::RangeOtherMap { target, their_map, own_map } => "Unable to find range: Target '"@ + about
            + "' ("@ + text::decimal(target as nat) + ") is on map '"@ + map_named(their_map)
            + "' while you are on '"@ + map_named(own_map) + "'"@,
        GmErrorKind::NotAnItem => "Unable to additem: '"@ + about + "' is not a valid entry"@,
        GmErrorKind::InvalidDisplayId => "Invalid display_id: '"@ + about + "'"@,
        GmErrorKind::InvalidCommand => "Invalid GM command: "@ + about + ""@,
    }
}

impl GmError {
    pub fn text(&self) -> (r: String)
        ensures
            r@ == error_text(self.kind, self.about@),
    {
        let about = self.about.as_str();
        match self.kind {
            GmErrorKind::NoTargetSelected => "No target selected".to_string(),
            GmErrorKind::NotAGuid => text::join3("Parameter '", about, "' is not a valid GUID"),
            GmErrorKind::LocationNotFound => text::join3("Location not found: '", about, "'"),
            GmErrorKind::GoNeedsTarget => "Must have a target for .go command without arguments".to_string(),
            GmErrorKind::TargetNotFound(g) => {
                let n = text::to_decimal(g);
                text::join3("Unable to find target '", n.as_str(), "'")
            },
            GmErrorKind::PlayerNotFound => text::join3("Unable to find player '", about, "'"),
            GmErrorKind::OnlyTwoCoordinates => "Can not teleport with only x and y coordinates".to_string(),
            GmErrorKind::Invalid(a) => {
                let name = match a {
                    Argument::Coordinate => "coordinate",
                    Argument::MapNumber => "map",
                    Argument::Speed => "speed argument",
                };
                text::join5("invalid ", name, ": '", about, "'")
            },
            GmErrorKind::NotAMap(n) => {
                let n = to_signed_decimal(n);
                text::join3("", n.as_str(), " is not a valid map")
            },
            GmErrorKind::TooManyArguments => "Incorrect '.go' command: Too many arguments".to_string(),
            GmErrorKind::MarkNeedsNames =>
                ".mark a list of names separated by a comma, like '.mark Honor Hold,HH'".to_string(),
            GmErrorKind::RangeNoTarget => "Unable to find range: No target".to_string(),
            GmErrorKind::RangeSelf => "Unable to find range: You are targeting yourself".to_string(),
            GmErrorKind::RangeTargetNotFound(g) => {
                let n = text::to_decimal(g);
                text::join3("Unable to find range: Unable to find target '", n.as_str(), "'")
            },
            GmErrorKind::RangeOtherMap { target, their_map, own_map } => {
                let n = text::to_decimal(target);
                let theirs = map_name(their_map);
                let own = map_name(own_map);
                let mut r = text::join5(
                    "Unable to find range: Target '",
                    about,
                    "' (",
                    n.as_str(),
                    ") is on map '",
                );
                r.append(theirs.as_str());
                r.append("' while you are on '");
                r.append(own.as_str());
                r.append("'");
                r
            },
            GmErrorKind::NotAnItem => text::join3("Unable to additem: '", about, "' is not a valid entry"),
            GmErrorKind::InvalidDisplayId => text::join3("Invalid display_id: '", about, "'"),
            GmErrorKind::InvalidCommand => text::join3("Invalid GM command: ", about, ""),
        }
    }
}

/// Whether a message is a command, alone or with its arguments behind a blank.
pub open spec fn typed(message: Seq<char>, command: Seq<char>, args: Seq<char>) -> bool {
    message == command.push(' ') + args || message == command && args.len() == 0
}

proof fn lemma_typed(message: Seq<char>, command: Seq<char>, args: Seq<char>)
    requires
        !command.contains(' '),
    ensures
        typed(message, command, args) ==> text::split_first(message, ' ') == (command, args),
{
    text::lemma_split(command, ' ', args);
    if args.len() == 0 {
        assert(args =~= Seq::<char>::empty());
    }
}

/// The words that are commands all differ, and none holds a blank.
#[verifier::rlimit(60)]
proof fn the_commands_differ()
    ensures
        "north"@ != "south"@,
        "north"@ != "east"@,
        "north"@ != "west"@,
        "north"@ != "whereami"@,
        "north"@ != "info"@,
        "north"@ != "tp"@,
        "north"@ != "go"@,
        "north"@ != "speed"@,
        "north"@ != "mark"@,
        "north"@ != "range"@,
        "north"@ != "extend"@,
        "north"@ != "float"@,
        "north"@ != "additem"@,
        "north"@ != "move"@,
        "north"@ != "spawn"@,
        "north"@ != "boom"@,
        "north"@ != "nova"@,
        "north"@ != "worlddbinfo"@,
        "north"@ != "los"@,
        "north"@ != "nolos"@,
        "north"@ != "swifty"@,
        "north"@ != "players"@,
        "north"@ != "playercount"@,
        "north"@ != "cells"@,
        "south"@ != "east"@,
        "south"@ != "west"@,
        "south"@ != "whereami"@,
        "south"@ != "info"@,
        "south"@ != "tp"@,
        "south"@ != "go"@,
        "south"@ != "speed"@,
        "south"@ != "mark"@,
        "south"@ != "range"@,
        "south"@ != "extend"@,
        "south"@ != "float"@,
        "south"@ != "additem"@,
        "south"@ != "move"@,
        "south"@ != "spawn"@,
        "south"@ != "boom"@,
        "south"@ != "nova"@,
        "south"@ != "worlddbinfo"@,
        "south"@ != "los"@,
        "south"@ != "nolos"@,
        "south"@ != "swifty"@,
        "south"@ != "players"@,
        "south"@ != "playercount"@,
        "south"@ != "cells"@,
        "east"@ != "west"@,
        "east"@ != "whereami"@,
        "east"@ != "info"@,
        "east"@ != "tp"@,
        "east"@ != "go"@,
        "east"@ != "speed"@,
        "east"@ != "mark"@,
        "east"@ != "range"@,
        "east"@ != "extend"@,
        "east"@ != "float"@,
        "east"@ != "additem"@,
        "east"@ != "move"@,
        "east"@ != "spawn"@,
        "east"@ != "boom"@,
        "east"@ != "nova"@,
        "east"@ != "worlddbinfo"@,
        "east"@ != "los"@,
        "east"@ != "nolos"@,
        "east"@ != "swifty"@,
        "east"@ != "players"@,
        "east"@ != "playercount"@,
        "east"@ != "cells"@,
        "west"@ != "whereami"@,
        "west"@ != "info"@,
        "west"@ != "tp"@,
        "west"@ != "go"@,
        "west"@ != "speed"@,
        "west"@ != "mark"@,
        "west"@ != "range"@,
        "west"@ != "extend"@,
        "west"@ != "float"@,
        "west"@ != "additem"@,
        "west"@ != "move"@,
        "west"@ != "spawn"@,
        "west"@ != "boom"@,
        "west"@ != "nova"@,
        "west"@ != "worlddbinfo"@,
        "west"@ != "los"@,
        "west"@ != "nolos"@,
        "west"@ != "swifty"@,
        "west"@ != "players"@,
        "west"@ != "playercount"@,
        "west"@ != "cells"@,
        "whereami"@ != "info"@,
        "whereami"@ != "tp"@,
        "whereami"@ != "go"@,
        "whereami"@ != "speed"@,
        "whereami"@ != "mark"@,
        "whereami"@ != "range"@,
        "whereami"@ != "extend"@,
        "whereami"@ != "float"@,
        "whereami"@ != "additem"@,
        "whereami"@ != "move"@,
        "whereami"@ != "spawn"@,
        "whereami"@ != "boom"@,
        "whereami"@ != "nova"@,
        "whereami"@ != "worlddbinfo"@,
        "whereami"@ != "los"@,
        "whereami"@ != "nolos"@,
        "whereami"@ != "swifty"@,
        "whereami"@ != "players"@,
        "whereami"@ != "playercount"@,
        "whereami"@ != "cells"@,
        "info"@ != "tp"@,
        "info"@ != "go"@,
        "info"@ != "speed"@,
        "info"@ != "mark"@,
        "info"@ != "range"@,
        "info"@ != "extend"@,
        "info"@ != "float"@,
        "info"@ != "additem"@,
        "info"@ != "move"@,
        "info"@ != "spawn"@,
        "info"@ != "boom"@,
        "info"@ != "nova"@,
        "info"@ != "worlddbinfo"@,
        "info"@ != "los"@,
        "info"@ != "nolos"@,
        "info"@ != "swifty"@,
        "info"@ != "players"@,
        "info"@ != "playercount"@,
        "info"@ != "cells"@,
        "tp"@ != "go"@,
        "tp"@ != "speed"@,
        "tp"@ != "mark"@,
        "tp"@ != "range"@,
        "tp"@ != "extend"@,
        "tp"@ != "float"@,
        "tp"@ != "additem"@,
        "tp"@ != "move"@,
        "tp"@ != "spawn"@,
        "tp"@ != "boom"@,
        "tp"@ != "nova"@,
        "tp"@ != "worlddbinfo"@,
        "tp"@ != "los"@,
        "tp"@ != "nolos"@,
        "tp"@ != "swifty"@,
        "tp"@ != "players"@,
        "tp"@ != "playercount"@,
        "tp"@ != "cells"@,
        "go"@ != "speed"@,
        "go"@ != "mark"@,
        "go"@ != "range"@,
        "go"@ != "extend"@,
        "go"@ != "float"@,
        "go"@ != "additem"@,
        "go"@ != "move"@,
        "go"@ != "spawn"@,
        "go"@ != "boom"@,
        "go"@ != "nova"@,
        "go"@ != "worlddbinfo"@,
        "go"@ != "los"@,
        "go"@ != "nolos"@,
        "go"@ != "swifty"@,
        "go"@ != "players"@,
        "go"@ != "playercount"@,
        "go"@ != "cells"@,
        "speed"@ != "mark"@,
        "speed"@ != "range"@,
        "speed"@ != "extend"@,
        "speed"@ != "float"@,
        "speed"@ != "additem"@,
        "speed"@ != "move"@,
        "speed"@ != "spawn"@,
        "speed"@ != "boom"@,
        "speed"@ != "nova"@,
        "speed"@ != "worlddbinfo"@,
        "speed"@ != "los"@,
        "speed"@ != "nolos"@,
        "speed"@ != "swifty"@,
        "speed"@ != "players"@,
        "speed"@ != "playercount"@,
        "speed"@ != "cells"@,
        "mark"@ != "range"@,
        "mark"@ != "extend"@,
        "mark"@ != "float"@,
        "mark"@ != "additem"@,
        "mark"@ != "move"@,
        "mark"@ != "spawn"@,
        "mark"@ != "boom"@,
        "mark"@ != "nova"@,
        "mark"@ != "worlddbinfo"@,
        "mark"@ != "los"@,
        "mark"@ != "nolos"@,
        "mark"@ != "swifty"@,
        "mark"@ != "players"@,
        "mark"@ != "playercount"@,
        "mark"@ != "cells"@,
        "range"@ != "extend"@,
        "range"@ != "float"@,
        "range"@ != "additem"@,
        "range"@ != "move"@,
        "range"@ != "spawn"@,
        "range"@ != "boom"@,
        "range"@ != "nova"@,
        "range"@ != "worlddbinfo"@,
        "range"@ != "los"@,
        "range"@ != "nolos"@,
        "range"@ != "swifty"@,
        "range"@ != "players"@,
        "range"@ != "playercount"@,
        "range"@ != "cells"@,
        "extend"@ != "float"@,
        "extend"@ != "additem"@,
        "extend"@ != "move"@,
        "extend"@ != "spawn"@,
        "extend"@ != "boom"@,
        "extend"@ != "nova"@,
        "extend"@ != "worlddbinfo"@,
        "extend"@ != "los"@,
        "extend"@ != "nolos"@,
        "extend"@ != "swifty"@,
        "extend"@ != "players"@,
        "extend"@ != "playercount"@,
        "extend"@ != "cells"@,
        "float"@ != "additem"@,
        "float"@ != "move"@,
        "float"@ != "spawn"@,
        "float"@ != "boom"@,
        "float"@ != "nova"@,
        "float"@ != "worlddbinfo"@,
        "float"@ != "los"@,
        "float"@ != "nolos"@,
        "float"@ != "swifty"@,
        "float"@ != "players"@,
        "float"@ != "playercount"@,
        "float"@ != "cells"@,
        "additem"@ != "move"@,
        "additem"@ != "spawn"@,
        "additem"@ != "boom"@,
        "additem"@ != "nova"@,
        "additem"@ != "worlddbinfo"@,
        "additem"@ != "los"@,
        "additem"@ != "nolos"@,
        "additem"@ != "swifty"@,
        "additem"@ != "players"@,
        "additem"@ != "playercount"@,
        "additem"@ != "cells"@,
        "move"@ != "spawn"@,
        "move"@ != "boom"@,
        "move"@ != "nova"@,
        "move"@ != "worlddbinfo"@,
        "move"@ != "los"@,
        "move"@ != "nolos"@,
        "move"@ != "swifty"@,
        "move"@ != "players"@,
        "move"@ != "playercount"@,
        "move"@ != "cells"@,
        "spawn"@ != "boom"@,
        "spawn"@ != "nova"@,
        "spawn"@ != "worlddbinfo"@,
        "spawn"@ != "los"@,
        "spawn"@ != "nolos"@,
        "spawn"@ != "swifty"@,
        "spawn"@ != "players"@,
        "spawn"@ != "playercount"@,
        "spawn"@ != "cells"@,
        "boom"@ != "nova"@,
        "boom"@ != "worlddbinfo"@,
        "boom"@ != "los"@,
        "boom"@ != "nolos"@,
        "boom"@ != "swifty"@,
        "boom"@ != "players"@,
        "boom"@ != "playercount"@,
        "boom"@ != "cells"@,
        "nova"@ != "worlddbinfo"@,
        "nova"@ != "los"@,
        "nova"@ != "nolos"@,
        "nova"@ != "swifty"@,
        "nova"@ != "players"@,
        "nova"@ != "playercount"@,
        "nova"@ != "cells"@,
        "worlddbinfo"@ != "los"@,
        "worlddbinfo"@ != "nolos"@,
        "worlddbinfo"@ != "swifty"@,
        "worlddbinfo"@ != "players"@,
        "worlddbinfo"@ != "playercount"@,
        "worlddbinfo"@ != "cells"@,
        "los"@ != "nolos"@,
        "los"@ != "swifty"@,
        "los"@ != "players"@,
        "los"@ != "playercount"@,
        "los"@ != "cells"@,
        "nolos"@ != "swifty"@,
        "nolos"@ != "players"@,
        "nolos"@ != "playercount"@,
        "nolos"@ != "cells"@,
        "swifty"@ != "players"@,
        "swifty"@ != "playercount"@,
        "swifty"@ != "cells"@,
        "players"@ != "playercount"@,
        "players"@ != "cells"@,
        "playercount"@ != "cells"@,
        !"north"@.contains(' '),
        !"south"@.contains(' '),
        !"east"@.contains(' '),
        !"west"@.contains(' '),
        !"whereami"@.contains(' '),
        !"info"@.contains(' '),
        !"tp"@.contains(' '),
        !"go"@.contains(' '),
        !"speed"@.contains(' '),
        !"mark"@.contains(' '),
        !"range"@.contains(' '),
        !"extend"@.contains(' '),
        !"float"@.contains(' '),
        !"additem"@.contains(' '),
        !"move"@.contains(' '),
        !"spawn"@.contains(' '),
        !"boom"@.contains(' '),
        !"nova"@.contains(' '),
        !"worlddbinfo"@.contains(' '),
        !"los"@.contains(' '),
        !"nolos"@.contains(' '),
        !"swifty"@.contains(' '),
        !"players"@.contains(' '),
        !"playercount"@.contains(' '),
        !"cells"@.contains(' '),
{
    reveal_strlit("north");
    assert("north"@ =~= seq!['n', 'o', 'r', 't', 'h']);
    reveal_strlit("south");
    assert("south"@ =~= seq!['s', 'o', 'u', 't', 'h']);
    reveal_strlit("east");
    assert("east"@ =~= seq!['e', 'a', 's', 't']);
    reveal_strlit("west");
    assert("west"@ =~= seq!['w', 'e', 's', 't']);
    reveal_strlit("whereami");
    assert("whereami"@ =~= seq!['w', 'h', 'e', 'r', 'e', 'a', 'm', 'i']);
    reveal_strlit("info");
    assert("info"@ =~= seq!['i', 'n', 'f', 'o']);
    reveal_strlit("tp");
    assert("tp"@ =~= seq!['t', 'p']);
    reveal_strlit("go");
    assert("go"@ =~= seq!['g', 'o']);
    reveal_strlit("speed");
    assert("speed"@ =~= seq!['s', 'p', 'e', 'e', 'd']);
    reveal_strlit("mark");
    assert("mark"@ =~= seq!['m', 'a', 'r', 'k']);
    reveal_strlit("range");
    assert("range"@ =~= seq!['r', 'a', 'n', 'g', 'e']);
    reveal_strlit("extend");
    assert("extend"@ =~= seq!['e', 'x', 't', 'e', 'n', 'd']);
    reveal_strlit("float");
    assert("float"@ =~= seq!['f', 'l', 'o', 'a', 't']);
    reveal_strlit("additem");
    assert("additem"@ =~= seq!['a', 'd', 'd', 'i', 't', 'e', 'm']);
    reveal_strlit("move");
    assert("move"@ =~= seq!['m', 'o', 'v', 'e']);
    reveal_strlit("spawn");
    assert("spawn"@ =~= seq!['s', 'p', 'a', 'w', 'n']);
    reveal_strlit("boom");
    assert("boom"@ =~= seq!['b', 'o', 'o', 'm']);
    reveal_strlit("nova");
    assert("nova"@ =~= seq!['n', 'o', 'v', 'a']);
    reveal_strlit("worlddbinfo");
    assert("worlddbinfo"@ =~= seq!['w', 'o', 'r', 'l', 'd', 'd', 'b', 'i', 'n', 'f', 'o']);
    reveal_strlit("los");
    assert("los"@ =~= seq!['l', 'o', 's']);
    reveal_strlit("nolos");
    assert("nolos"@ =~= seq!['n', 'o', 'l', 'o', 's']);
    reveal_strlit("swifty");
    assert("swifty"@ =~= seq!['s', 'w', 'i', 'f', 't', 'y']);
    reveal_strlit("players");
    assert("players"@ =~= seq!['p', 'l', 'a', 'y', 'e', 'r', 's']);
    reveal_strlit("playercount");
    assert("playercount"@ =~= seq!['p', 'l', 'a', 'y', 'e', 'r', 'c', 'o', 'u', 'n', 't']);
    reveal_strlit("cells");
    assert("cells"@ =~= seq!['c', 'e', 'l', 'l', 's']);
    assert("north"@[0] != "south"@[0]);
    assert("north"@.len() != "east"@.len());
    assert("north"@.len() != "west"@.len());
    assert("north"@.len() != "whereami"@.len());
    assert("north"@.len() != "info"@.len());
    assert("north"@.len() != "tp"@.len());
    assert("north"@.len() != "go"@.len());
    assert("north"@[0] != "speed"@[0]);
    assert("north"@.len() != "mark"@.len());
    assert("north"@[0] != "range"@[0]);
    assert("north"@.len() != "extend"@.len());
    assert("north"@[0] != "float"@[0]);
    assert("north"@.len() != "additem"@.len());
    assert("north"@.len() != "move"@.len());
    assert("north"@[0] != "spawn"@[0]);
    assert("north"@.len() != "boom"@.len());
    assert("north"@.len() != "nova"@.len());
    assert("north"@.len() != "worlddbinfo"@.len());
    assert("north"@.len() != "los"@.len());
    assert("north"@[2] != "nolos"@[2]);
    assert("north"@.len() != "swifty"@.len());
    assert("north"@.len() != "players"@.len());
    assert("north"@.len() != "playercount"@.len());
    assert("north"@[0] != "cells"@[0]);
    assert("south"@.len() != "east"@.len());
    assert("south"@.len() != "west"@.len());
    assert("south"@.len() != "whereami"@.len());
    assert("south"@.len() != "info"@.len());
    assert("south"@.len() != "tp"@.len());
    assert("south"@.len() != "go"@.len());
    assert("south"@[1] != "speed"@[1]);
    assert("south"@.len() != "mark"@.len());
    assert("south"@[0] != "range"@[0]);
    assert("south"@.len() != "extend"@.len());
    assert("south"@[0] != "float"@[0]);
    assert("south"@.len() != "additem"@.len());
    assert("south"@.len() != "move"@.len());
    assert("south"@[1] != "spawn"@[1]);
    assert("south"@.len() != "boom"@.len());
    assert("south"@.len() != "nova"@.len());
    assert("south"@.len() != "worlddbinfo"@.len());
    assert("south"@.len() != "los"@.len());
    assert("south"@[0] != "nolos"@[0]);
    assert("south"@.len() != "swifty"@.len());
    assert("south"@.len() != "players"@.len());
    assert("south"@.len() != "playercount"@.len());
    assert("south"@[0] != "cells"@[0]);
    assert("east"@[0] != "west"@[0]);
    assert("east"@.len() != "whereami"@.len());
    assert("east"@[0] != "info"@[0]);
    assert("east"@.len() != "tp"@.len());
    assert("east"@.len() != "go"@.len());
    assert("east"@.len() != "speed"@.len());
    assert("east"@[0] != "mark"@[0]);
    assert("east"@.len() != "range"@.len());
    assert("east"@.len() != "extend"@.len());
    assert("east"@.len() != "float"@.len());
    assert("east"@.len() != "additem"@.len());
    assert("east"@[0] != "move"@[0]);
    assert("east"@.len() != "spawn"@.len());
    assert("east"@[0] != "boom"@[0]);
    assert("east"@[0] != "nova"@[0]);
    assert("east"@.len() != "worlddbinfo"@.len());
    assert("east"@.len() != "los"@.len());
    assert("east"@.len() != "nolos"@.len());
    assert("east"@.len() != "swifty"@.len());
    assert("east"@.len() != "players"@.len());
    assert("east"@.len() != "playercount"@.len());
    assert("east"@.len() != "cells"@.len());
    assert("west"@.len() != "whereami"@.len());
    assert("west"@[0] != "info"@[0]);
    assert("west"@.len() != "tp"@.len());
    assert("west"@.len() != "go"@.len());
    assert("west"@.len() != "speed"@.len());
    assert("west"@[0] != "mark"@[0]);
    assert("west"@.len() != "range"@.len());
    assert("west"@.len() != "extend"@.len());
    assert("west"@.len() != "float"@.len());
    assert("west"@.len() != "additem"@.len());
    assert("west"@[0] != "move"@[0]);
    assert("west"@.len() != "spawn"@.len());
    assert("west"@[0] != "boom"@[0]);
    assert("west"@[0] != "nova"@[0]);
    assert("west"@.len() != "worlddbinfo"@.len());
    assert("west"@.len() != "los"@.len());
    assert("west"@.len() != "nolos"@.len());
    assert("west"@.len() != "swifty"@.len());
    assert("west"@.len() != "players"@.len());
    assert("west"@.len() != "playercount"@.len());
    assert("west"@.len() != "cells"@.len());
    assert("whereami"@.len() != "info"@.len());
    assert("whereami"@.len() != "tp"@.len());
    assert("whereami"@.len() != "go"@.len());
    assert("whereami"@.len() != "speed"@.len());
    assert("whereami"@.len() != "mark"@.len());
    assert("whereami"@.len() != "range"@.len());
    assert("whereami"@.len() != "extend"@.len());
    assert("whereami"@.len() != "float"@.len());
    assert("whereami"@.len() != "additem"@.len());
    assert("whereami"@.len() != "move"@.len());
    assert("whereami"@.len() != "spawn"@.len());
    assert("whereami"@.len() != "boom"@.len());
    assert("whereami"@.len() != "nova"@.len());
    assert("whereami"@.len() != "worlddbinfo"@.len());
    assert("whereami"@.len() != "los"@.len());
    assert("whereami"@.len() != "nolos"@.len());
    assert("whereami"@.len() != "swifty"@.len());
    assert("whereami"@.len() != "players"@.len());
    assert("whereami"@.len() != "playercount"@.len());
    assert("whereami"@.len() != "cells"@.len());
    assert("info"@.len() != "tp"@.len());
    assert("info"@.len() != "go"@.len());
    assert("info"@.len() != "speed"@.len());
    assert("info"@[0] != "mark"@[0]);
    assert("info"@.len() != "range"@.len());
    assert("info"@.len() != "extend"@.len());
    assert("info"@.len() != "float"@.len());
    assert("info"@.len() != "additem"@.len());
    assert("info"@[0] != "move"@[0]);
    assert("info"@.len() != "spawn"@.len());
    assert("info"@[0] != "boom"@[0]);
    assert("info"@[0] != "nova"@[0]);
    assert("info"@.len() != "worlddbinfo"@.len());
    assert("info"@.len() != "los"@.len());
    assert("info"@.len() != "nolos"@.len());
    assert("info"@.len() != "swifty"@.len());
    assert("info"@.len() != "players"@.len());
    assert("info"@.len() != "playercount"@.len());
    assert("info"@.len() != "cells"@.len());
    assert("tp"@[0] != "go"@[0]);
    assert("tp"@.len() != "speed"@.len());
    assert("tp"@.len() != "mark"@.len());
    assert("tp"@.len() != "range"@.len());
    assert("tp"@.len() != "extend"@.len());
    assert("tp"@.len() != "float"@.len());
    assert("tp"@.len() != "additem"@.len());
    assert("tp"@.len() != "move"@.len());
    assert("tp"@.len() != "spawn"@.len());
    assert("tp"@.len() != "boom"@.len());
    assert("tp"@.len() != "nova"@.len());
    assert("tp"@.len() != "worlddbinfo"@.len());
    assert("tp"@.len() != "los"@.len());
    assert("tp"@.len() != "nolos"@.len());
    assert("tp"@.len() != "swifty"@.len());
    assert("tp"@.len() != "players"@.len());
    assert("tp"@.len() != "playercount"@.len());
    assert("tp"@.len() != "cells"@.len());
    assert("go"@.len() != "speed"@.len());
    assert("go"@.len() != "mark"@.len());
    assert("go"@.len() != "range"@.len());
    assert("go"@.len() != "extend"@.len());
    assert("go"@.len() != "float"@.len());
    assert("go"@.len() != "additem"@.len());
    assert("go"@.len() != "move"@.len());
    assert("go"@.len() != "spawn"@.len());
    assert("go"@.len() != "boom"@.len());
    assert("go"@.len() != "nova"@.len());
    assert("go"@.len() != "worlddbinfo"@.len());
    assert("go"@.len() != "los"@.len());
    assert("go"@.len() != "nolos"@.len());
    assert("go"@.len() != "swifty"@.len());
    assert("go"@.len() != "players"@.len());
    assert("go"@.len() != "playercount"@.len());
    assert("go"@.len() != "cells"@.len());
    assert("speed"@.len() != "mark"@.len());
    assert("speed"@[0] != "range"@[0]);
    assert("speed"@.len() != "extend"@.len());
    assert("speed"@[0] != "float"@[0]);
    assert("speed"@.len() != "additem"@.len());
    assert("speed"@.len() != "move"@.len());
    assert("speed"@[2] != "spawn"@[2]);
    assert("speed"@.len() != "boom"@.len());
    assert("speed"@.len() != "nova"@.len());
    assert("speed"@.len() != "worlddbinfo"@.len());
    assert("speed"@.len() != "los"@.len());
    assert("speed"@[0] != "nolos"@[0]);
    assert("speed"@.len() != "swifty"@.len());
    assert("speed"@.len() != "players"@.len());
    assert("speed"@.len() != "playercount"@.len());
    assert("speed"@[0] != "cells"@[0]);
    assert("mark"@.len() != "range"@.len());
    assert("mark"@.len() != "extend"@.len());
    assert("mark"@.len() != "float"@.len());
    assert("mark"@.len() != "additem"@.len());
    assert("mark"@[1] != "move"@[1]);
    assert("mark"@.len() != "spawn"@.len());
    assert("mark"@[0] != "boom"@[0]);
    assert("mark"@[0] != "nova"@[0]);
    assert("mark"@.len() != "worlddbinfo"@.len());
    assert("mark"@.len() != "los"@.len());
    assert("mark"@.len() != "nolos"@.len());
    assert("mark"@.len() != "swifty"@.len());
    assert("mark"@.len() != "players"@.len());
    assert("mark"@.len() != "playercount"@.len());
    assert("mark"@.len() != "cells"@.len());
    assert("range"@.len() != "extend"@.len());
    assert("range"@[0] != "float"@[0]);
    assert("range"@.len() != "additem"@.len());
    assert("range"@.len() != "move"@.len());
    assert("range"@[0] != "spawn"@[0]);
    assert("range"@.len() != "boom"@.len());
    assert("range"@.len() != "nova"@.len());
    assert("range"@.len() != "worlddbinfo"@.len());
    assert("range"@.len() != "los"@.len());
    assert("range"@[0] != "nolos"@[0]);
    assert("range"@.len() != "swifty"@.len());
    assert("range"@.len() != "players"@.len());
    assert("range"@.len() != "playercount"@.len());
    assert("range"@[0] != "cells"@[0]);
    assert("extend"@.len() != "float"@.len());
    assert("extend"@.len() != "additem"@.len());
    assert("extend"@.len() != "move"@.len());
    assert("extend"@.len() != "spawn"@.len());
    assert("extend"@.len() != "boom"@.len());
    assert("extend"@.len() != "nova"@.len());
    assert("extend"@.len() != "worlddbinfo"@.len());
    assert("extend"@.len() != "los"@.len());
    assert("extend"@.len() != "nolos"@.len());
    assert("extend"@[0] != "swifty"@[0]);
    assert("extend"@.len() != "players"@.len());
    assert("extend"@.len() != "playercount"@.len());
    assert("extend"@.len() != "cells"@.len());
    assert("float"@.len() != "additem"@.len());
    assert("float"@.len() != "move"@.len());
    assert("float"@[0] != "spawn"@[0]);
    assert("float"@.len() != "boom"@.len());
    assert("float"@.len() != "nova"@.len());
    assert("float"@.len() != "worlddbinfo"@.len());
    assert("float"@.len() != "los"@.len());
    assert("float"@[0] != "nolos"@[0]);
    assert("float"@.len() != "swifty"@.len());
    assert("float"@.len() != "players"@.len());
    assert("float"@.len() != "playercount"@.len());
    assert("float"@[0] != "cells"@[0]);
    assert("additem"@.len() != "move"@.len());
    assert("additem"@.len() != "spawn"@.len());
    assert("additem"@.len() != "boom"@.len());
    assert("additem"@.len() != "nova"@.len());
    assert("additem"@.len() != "worlddbinfo"@.len());
    assert("additem"@.len() != "los"@.len());
    assert("additem"@.len() != "nolos"@.len());
    assert("additem"@.len() != "swifty"@.len());
    assert("additem"@[0] != "players"@[0]);
    assert("additem"@.len() != "playercount"@.len());
    assert("additem"@.len() != "cells"@.len());
    assert("move"@.len() != "spawn"@.len());
    assert("move"@[0] != "boom"@[0]);
    assert("move"@[0] != "nova"@[0]);
    assert("move"@.len() != "worlddbinfo"@.len());
    assert("move"@.len() != "los"@.len());
    assert("move"@.len() != "nolos"@.len());
    assert("move"@.len() != "swifty"@.len());
    assert("move"@.len() != "players"@.len());
    assert("move"@.len() != "playercount"@.len());
    assert("move"@.len() != "cells"@.len());
    assert("spawn"@.len() != "boom"@.len());
    assert("spawn"@.len() != "nova"@.len());
    assert("spawn"@.len() != "worlddbinfo"@.len());
    assert("spawn"@.len() != "los"@.len());
    assert("spawn"@[0] != "nolos"@[0]);
    assert("spawn"@.len() != "swifty"@.len());
    assert("spawn"@.len() != "players"@.len());
    assert("spawn"@.len() != "playercount"@.len());
    assert("spawn"@[0] != "cells"@[0]);
    assert("boom"@[0] != "nova"@[0]);
    assert("boom"@.len() != "worlddbinfo"@.len());
    assert("boom"@.len() != "los"@.len());
    assert("boom"@.len() != "nolos"@.len());
    assert("boom"@.len() != "swifty"@.len());
    assert("boom"@.len() != "players"@.len());
    assert("boom"@.len() != "playercount"@.len());
    assert("boom"@.len() != "cells"@.len());
    assert("nova"@.len() != "worlddbinfo"@.len());
    assert("nova"@.len() != "los"@.len());
    assert("nova"@.len() != "nolos"@.len());
    assert("nova"@.len() != "swifty"@.len());
    assert("nova"@.len() != "players"@.len());
    assert("nova"@.len() != "playercount"@.len());
    assert("nova"@.len() != "cells"@.len());
    assert("worlddbinfo"@.len() != "los"@.len());
    assert("worlddbinfo"@.len() != "nolos"@.len());
    assert("worlddbinfo"@.len() != "swifty"@.len());
    assert("worlddbinfo"@.len() != "players"@.len());
    assert("worlddbinfo"@[0] != "playercount"@[0]);
    assert("worlddbinfo"@.len() != "cells"@.len());
    assert("los"@.len() != "nolos"@.len());
    assert("los"@.len() != "swifty"@.len());
    assert("los"@.len() != "players"@.len());
    assert("los"@.len() != "playercount"@.len());
    assert("los"@.len() != "cells"@.len());
    assert("nolos"@.len() != "swifty"@.len());
    assert("nolos"@.len() != "players"@.len());
    assert("nolos"@.len() != "playercount"@.len());
    assert("nolos"@[0] != "cells"@[0]);
    assert("swifty"@.len() != "players"@.len());
    assert("swifty"@.len() != "playercount"@.len());
    assert("swifty"@.len() != "cells"@.len());
    assert("players"@.len() != "playercount"@.len());
    assert("players"@.len() != "cells"@.len());
    assert("playercount"@.len() != "cells"@.len());
}

/// A command without arguments means what it says, whatever stands behind it.
pub proof fn plain_commands_mean_what_they_say(
    message: &str,
    me: &Character,
    m: &MapState,
    registry: &PlayerRegistry,
    readings: &Vec<Option<u32>>,
    whole: Option<u32>,
    found: Lookups,
    r: Result<GmCommand, GmError>,
    args: Seq<char>,
)
    requires
        registry.wf(),
        call_ensures(GmCommand::from_answers, (message, me, m, registry, readings, whole, found), r),
    ensures
        typed(message@, "north"@, args) ==> r == Ok::<GmCommand, GmError>(GmCommand::Step(Direction::North)),
        typed(message@, "south"@, args) ==> r == Ok::<GmCommand, GmError>(GmCommand::Step(Direction::South)),
        typed(message@, "east"@, args) ==> r == Ok::<GmCommand, GmError>(GmCommand::Step(Direction::East)),
        typed(message@, "west"@, args) ==> r == Ok::<GmCommand, GmError>(GmCommand::Step(Direction::West)),
        typed(message@, "whereami"@, args) ==> r == Ok::<GmCommand, GmError>(GmCommand::WhereAmI),
        typed(message@, "move"@, args) ==> r == Ok::<GmCommand, GmError>(GmCommand::MoveNpc),
        typed(message@, "boom"@, args) ==> r == Ok::<GmCommand, GmError>(GmCommand::Boom),
        typed(message@, "nova"@, args) ==> r == Ok::<GmCommand, GmError>(GmCommand::Nova),
        typed(message@, "worlddbinfo"@, args) ==> r == Ok::<GmCommand, GmError>(GmCommand::WorldDbInfo),
        typed(message@, "los"@, args) ==> r == Ok::<GmCommand, GmError>(GmCommand::ShouldHaveLineOfSight(me.target)),
        typed(message@, "nolos"@, args) ==> r == Ok::<GmCommand, GmError>(GmCommand::ShouldNotHaveLineOfSight(me.target)),
        typed(message@, "swifty"@, args) ==> r == Ok::<GmCommand, GmError>(GmCommand::Swifty),
        typed(message@, "players"@, args) ==> r == Ok::<GmCommand, GmError>(GmCommand::Players),
        typed(message@, "playercount"@, args) ==> r == Ok::<GmCommand, GmError>(GmCommand::Players),
        typed(message@, "cells"@, args) ==> r == Ok::<GmCommand, GmError>(GmCommand::Cells),
{
    the_commands_differ();
    lemma_typed(message@, "north"@, args);
    lemma_typed(message@, "south"@, args);
    lemma_typed(message@, "east"@, args);
    lemma_typed(message@, "west"@, args);
    lemma_typed(message@, "whereami"@, args);
    lemma_typed(message@, "move"@, args);
    lemma_typed(message@, "boom"@, args);
    lemma_typed(message@, "nova"@, args);
    lemma_typed(message@, "worlddbinfo"@, args);
    lemma_typed(message@, "los"@, args);
    lemma_typed(message@, "nolos"@, args);
    lemma_typed(message@, "swifty"@, args);
    lemma_typed(message@, "players"@, args);
    lemma_typed(message@, "playercount"@, args);
    lemma_typed(message@, "cells"@, args);
}

/// What is no command is refused, and the refusal repeats the message.
pub proof fn what_is_no_command_is_refused(
    message: &str,
    me: &Character,
    m: &MapState,
    registry: &PlayerRegistry,
    readings: &Vec<Option<u32>>,
    whole: Option<u32>,
    found: Lookups,
    r: Result<GmCommand, GmError>,
    word: Seq<char>,
    args: Seq<char>,
)
    requires
        registry.wf(),
        call_ensures(GmCommand::from_answers, (message, me, m, registry, readings, whole, found), r),
        typed(message@, word, args),
        !word.contains(' '),
        word != "north"@ && word != "south"@ && word != "east"@ && word != "west"@ && word != "whereami"@ && word != "info"@ && word != "tp"@ && word != "go"@ && word != "speed"@ && word != "mark"@ && word != "range"@ && word != "extend"@ && word != "float"@ && word != "additem"@ && word != "move"@ && word != "spawn"@ && word != "boom"@ && word != "nova"@ && word != "worlddbinfo"@ && word != "los"@ && word != "nolos"@ && word != "swifty"@ && word != "players"@ && word != "playercount"@ && word != "cells"@,
    ensures
        r is Err && r->Err_0.kind == GmErrorKind::InvalidCommand && r->Err_0.about@ == message@,
{
    lemma_typed(message@, word, args);
}

/// `go` with three numbers means those coordinates, in their order, on the map where the
/// typist is, and looking as the typist looks; with a map behind them, it means the same on
/// that map.
pub proof fn go_leads_to_the_coordinates(
    message: &str,
    me: &Character,
    m: &MapState,
    registry: &PlayerRegistry,
    readings: &Vec<Option<u32>>,
    whole: Option<u32>,
    found: Lookups,
    r: Result<GmCommand, GmError>,
    args: Seq<char>,
    a: u32,
    b: u32,
    c: u32,
)
    requires
        registry.wf(),
        call_ensures(GmCommand::from_answers, (message, me, m, registry, readings, whole, found), r),
        typed(message@, "go"@, args),
        readings@.len() >= 3,
        readings@[0] == Some(a),
        readings@[1] == Some(b),
        readings@[2] == Some(c),
    ensures
        text::words(args).len() == 3 ==> r is Ok && r->Ok_0 is TeleportTo && r->Ok_0->TeleportTo_0.map == me.map
            && r->Ok_0->TeleportTo_0.x == a && r->Ok_0->TeleportTo_0.y == b && r->Ok_0->TeleportTo_0.z == c
            && r->Ok_0->TeleportTo_0.orientation == me.info.orientation,
        text::words(args).len() == 4 && text::signed(text::words(args)[3], i32::MIN as int, i32::MAX as int) is Some
            && found.map is Some ==> r is Ok && r->Ok_0 is TeleportTo && r->Ok_0->TeleportTo_0.map == found.map->0
            && r->Ok_0->TeleportTo_0.x == a && r->Ok_0->TeleportTo_0.y == b && r->Ok_0->TeleportTo_0.z == c
            && r->Ok_0->TeleportTo_0.orientation == me.info.orientation,
        text::words(args).len() == 4 && text::signed(text::words(args)[3], i32::MIN as int, i32::MAX as int) is Some
            && found.map is None ==> r is Err && r->Err_0.kind is NotAMap,
        text::words(args).len() == 4 && text::signed(text::words(args)[3], i32::MIN as int, i32::MAX as int) is None
            ==> r is Err && r->Err_0.kind == GmErrorKind::Invalid(Argument::MapNumber) && r->Err_0.about@
            == text::words(args)[3],
{
    the_commands_differ();
    lemma_typed(message@, "go"@, args);
}

/// Typed out: `go`, three words that read as numbers, and for a fourth the number of a map.
pub proof fn a_typed_go_leads_to_the_coordinates(
    message: &str,
    me: &Character,
    m: &MapState,
    registry: &PlayerRegistry,
    readings: &Vec<Option<u32>>,
    whole: Option<u32>,
    r: Result<GmCommand, GmError>,
    w: Seq<Seq<char>>,
    a: u32,
    b: u32,
    c: u32,
    number: u32,
)
    requires
        registry.wf(),
        call_ensures(GmCommand::from_player_command, (message, me, m, registry, readings, whole), r),
        w.len() == 4,
        forall|i: int| 0 <= i < 4 ==> text::is_word(#[trigger] w[i]),
        readings@.len() >= 3,
        readings@[0] == Some(a),
        readings@[1] == Some(b),
        readings@[2] == Some(c),
    ensures
        message@ == "go"@.push(' ') + ((w[0].push(' ') + w[1]).push(' ') + w[2]) ==> r == Ok::<GmCommand, GmError>(
            GmCommand::TeleportTo(
                RawPosition { map: me.map, x: a, y: b, z: c, orientation: me.info.orientation },
            ),
        ),
        message@ == "go"@.push(' ') + (((w[0].push(' ') + w[1]).push(' ') + w[2]).push(' ') + w[3]) && text::signed(
            w[3],
            i32::MIN as int,
            i32::MAX as int,
        ) == Some(number as int) && map_numbered(number as i32) == Some(number) ==> r == Ok::<GmCommand, GmError>(
            GmCommand::TeleportTo(
                RawPosition { map: number, x: a, y: b, z: c, orientation: me.info.orientation },
            ),
        ),
        message@ == "go"@.push(' ') + (w[0].push(' ') + w[1]) ==> r is Err && r->Err_0.kind
            == GmErrorKind::OnlyTwoCoordinates,
{
    the_commands_differ();
    let two = w[0].push(' ') + w[1];
    let three = two.push(' ') + w[2];
    let four = three.push(' ') + w[3];
    lemma_typed(message@, "go"@, two);
    lemma_typed(message@, "go"@, three);
    lemma_typed(message@, "go"@, four);
    assert(text::is_word(w[0]) && text::is_word(w[1]) && text::is_word(w[2]) && text::is_word(w[3]));
    text::one_more_word(Seq::empty(), w[0]);
    text::one_more_word(w[0], w[1]);
    text::one_more_word(two, w[2]);
    text::one_more_word(three, w[3]);
    assert(text::words(two) =~= seq![w[0], w[1]]);
    assert(text::words(three) =~= seq![w[0], w[1], w[2]]);
    assert(text::words(four) =~= seq![w[0], w[1], w[2], w[3]]);
}

/// `go` with a word that is no number among the three is refused, and the first such word is
/// named.
pub proof fn go_refuses_what_is_no_number(
    message: &str,
    me: &Character,
    m: &MapState,
    registry: &PlayerRegistry,
    readings: &Vec<Option<u32>>,
    whole: Option<u32>,
    found: Lookups,
    r: Result<GmCommand, GmError>,
    args: Seq<char>,
    i: int,
)
    requires
        registry.wf(),
        call_ensures(GmCommand::from_answers, (message, me, m, registry, readings, whole, found), r),
        typed(message@, "go"@, args),
        text::words(args).len() == 3 || text::words(args).len() == 4,
        readings@.len() == text::words(args).len(),
        0 <= i < 3,
        readings@[i] is None,
        forall|j: int| 0 <= j < i ==> readings@[j] is Some,
    ensures
        r is Err && r->Err_0.kind == GmErrorKind::Invalid(Argument::Coordinate) && r->Err_0.about@ == text::words(
            args,
        )[i],
{
    the_commands_differ();
    lemma_typed(message@, "go"@, args);
}

/// `go` without a word leads to the target, wherever it is; with one word, to the player of
/// that name; with two words, or with more than four, it is refused.
pub proof fn go_leads_to_somebody(
    message: &str,
    me: &Character,
    m: &MapState,
    registry: &PlayerRegistry,
    readings: &Vec<Option<u32>>,
    whole: Option<u32>,
    found: Lookups,
    r: Result<GmCommand, GmError>,
    args: Seq<char>,
    k: usize,
)
    requires
        registry.wf(),
        call_ensures(GmCommand::from_answers, (message, me, m, registry, readings, whole, found), r),
        typed(message@, "go"@, args),
    ensures
        text::words(args).len() == 0 && me.target == 0 ==> r is Err && r->Err_0.kind == GmErrorKind::GoNeedsTarget,
        text::words(args).len() == 0 && me.target != 0 && m@.entity(me.target) == Some(Entity::Player(k)) ==> r
            == Ok::<GmCommand, GmError>(
            GmCommand::Teleport(
                Position {
                    map: m@.clients[k].character.map,
                    place: m@.clients[k].character.info.position,
                    orientation: m@.clients[k].character.info.orientation,
                },
            ),
        ),
        text::words(args).len() == 0 && me.target != 0 && m@.entity(me.target) == Some(Entity::Creature(k)) ==> r
            == Ok::<GmCommand, GmError>(
            GmCommand::Teleport(
                Position {
                    map: m@.creatures[k].map,
                    place: m@.creatures[k].info.position,
                    orientation: m@.creatures[k].info.orientation,
                },
            ),
        ),
        text::words(args).len() == 0 && me.target != 0 && m@.entity(me.target) is None ==> (match registry@.by_guid(
            me.target,
        ) {
            Some(p) => r == Ok::<GmCommand, GmError>(GmCommand::Teleport(p)),
            None => r is Err && r->Err_0.kind == GmErrorKind::TargetNotFound(me.target),
        }),
        text::words(args).len() == 1 ==> (match registry@.by_name(text::lowercased(text::words(args)[0])) {
            Some(p) => r == Ok::<GmCommand, GmError>(GmCommand::Teleport(p)),
            None => r is Err && r->Err_0.kind == GmErrorKind::PlayerNotFound && r->Err_0.about@ == text::words(
                args,
            )[0],
        }),
        text::words(args).len() == 2 ==> r is Err && r->Err_0.kind == GmErrorKind::OnlyTwoCoordinates,
        text::words(args).len() > 4 ==> r is Err && r->Err_0.kind == GmErrorKind::TooManyArguments,
{
    the_commands_differ();
    lemma_typed(message@, "go"@, args);
}

/// A number behind `speed`, `extend` and `float` is the one that is meant; without one,
/// `extend` and `float` mean five yards, and `speed` is refused. `tp` leads to the place with
/// the name behind it.
pub proof fn numbers_and_places_are_meant(
    message: &str,
    me: &Character,
    m: &MapState,
    registry: &PlayerRegistry,
    readings: &Vec<Option<u32>>,
    whole: Option<u32>,
    found: Lookups,
    r: Result<GmCommand, GmError>,
    args: Seq<char>,
)
    requires
        registry.wf(),
        call_ensures(GmCommand::from_answers, (message, me, m, registry, readings, whole, found), r),
    ensures
        typed(message@, "speed"@, args) && whole is Some ==> r == Ok::<GmCommand, GmError>(
            GmCommand::SetRunSpeed(whole->0),
        ),
        typed(message@, "speed"@, args) && whole is None ==> r is Err && r->Err_0.kind == GmErrorKind::Invalid(
            Argument::Speed,
        ) && r->Err_0.about@ == text::trimmed(args),
        typed(message@, "extend"@, args) ==> r == Ok::<GmCommand, GmError>(
            GmCommand::Extend(
                if whole is Some {
                    whole->0
                } else {
                    0x40a0_0000
                },
            ),
        ),
        typed(message@, "float"@, args) ==> r == Ok::<GmCommand, GmError>(
            GmCommand::Float(
                if whole is Some {
                    whole->0
                } else {
                    0x40a0_0000
                },
            ),
        ),
        typed(message@, "tp"@, args) && found.location is Some ==> r == Ok::<GmCommand, GmError>(
            GmCommand::TeleportTo(found.location->0),
        ),
        typed(message@, "tp"@, args) && found.location is None ==> r is Err && r->Err_0.kind
            == GmErrorKind::LocationNotFound && r->Err_0.about@ == text::trimmed(args),
{
    the_commands_differ();
    lemma_typed(message@, "speed"@, args);
    lemma_typed(message@, "extend"@, args);
    lemma_typed(message@, "float"@, args);
    lemma_typed(message@, "tp"@, args);
}

/// `info` is about the guid behind it, else about the target. `additem` adds the item with
/// that number, else the one with that name. `spawn` takes a look, and behind it a name.
/// `mark` takes names between commas, for the place where the typist stands.
pub proof fn things_are_meant(
    message: &str,
    me: &Character,
    m: &MapState,
    registry: &PlayerRegistry,
    readings: &Vec<Option<u32>>,
    whole: Option<u32>,
    found: Lookups,
    r: Result<GmCommand, GmError>,
    args: Seq<char>,
    n: u64,
    i: int,
)
    requires
        registry.wf(),
        call_ensures(GmCommand::from_answers, (message, me, m, registry, readings, whole, found), r),
    ensures
        typed(message@, "info"@, args) && text::unsigned(text::trimmed(args), u64::MAX as int) == Some(n as int) ==> r
            == Ok::<GmCommand, GmError>(GmCommand::Information(n)),
        typed(message@, "info"@, args) && text::unsigned(text::trimmed(args), u64::MAX as int) is None && me.target
            != 0 ==> r == Ok::<GmCommand, GmError>(GmCommand::Information(me.target)),
        typed(message@, "info"@, args) && args.len() == 0 && me.target == 0 ==> r is Err && r->Err_0.kind
            == GmErrorKind::NoTargetSelected,
        typed(message@, "info"@, args) && text::trimmed(args).len() > 0 && text::unsigned(
            text::trimmed(args),
            u64::MAX as int,
        ) is None && me.target == 0 ==> r is Err && r->Err_0.kind == GmErrorKind::NotAGuid && r->Err_0.about@
            == text::trimmed(args),
        typed(message@, "additem"@, args) && found.item_by_number is Some ==> r == Ok::<GmCommand, GmError>(
            GmCommand::AddItem(found.item_by_number->0),
        ),
        typed(message@, "additem"@, args) && found.item_by_number is None && found.item_by_name is Some ==> r == Ok::<
            GmCommand,
            GmError,
        >(GmCommand::AddItem(found.item_by_name->0)),
        typed(message@, "additem"@, args) && found.item_by_number is None && found.item_by_name is None ==> r is Err
            && r->Err_0.kind == GmErrorKind::NotAnItem && r->Err_0.about@ == text::trimmed(args),
        typed(message@, "spawn"@, args) && args.len() == 0 ==> r == Ok::<GmCommand, GmError>(
            GmCommand::Spawn { display_id: None, name: None },
        ),
        typed(message@, "mark"@, args) && args.len() == 0 ==> r is Err && r->Err_0.kind == GmErrorKind::MarkNeedsNames,
        typed(message@, "mark"@, args) && args.len() > 0 ==> r is Ok && r->Ok_0 is Mark && r->Ok_0->p == (Position {
            map: me.map,
            place: me.info.position,
            orientation: me.info.orientation,
        }) && r->Ok_0->names@.len() == text::pieces(args, ',').len() && (0 <= i < r->Ok_0->names@.len()
            ==> r->Ok_0->names@[i]@ == text::trimmed(text::pieces(args, ',')[i])),
{
    the_commands_differ();
    lemma_typed(message@, "info"@, args);
    lemma_typed(message@, "additem"@, args);
    lemma_typed(message@, "spawn"@, args);
    lemma_typed(message@, "mark"@, args);
    if typed(message@, "mark"@, args) && args.len() > 0 {
        let names = texts_of(r->Ok_0->names@);
        assert(names.len() == r->Ok_0->names@.len());
        if 0 <= i < names.len() {
            assert(names[i] == r->Ok_0->names@[i]@);
        }
    }
}

/// What is spawned has the look whose number stands first, and the name behind it.
pub proof fn a_spawn_has_its_look_and_name(
    message: &str,
    me: &Character,
    m: &MapState,
    registry: &PlayerRegistry,
    readings: &Vec<Option<u32>>,
    whole: Option<u32>,
    found: Lookups,
    r: Result<GmCommand, GmError>,
    args: Seq<char>,
    id: Seq<char>,
    name: Seq<char>,
    n: u16,
)
    requires
        registry.wf(),
        call_ensures(GmCommand::from_answers, (message, me, m, registry, readings, whole, found), r),
        typed(message@, "spawn"@, args),
        !id.contains(' '),
        text::trimmed(args) == id.push(' ') + name || text::trimmed(args) == id && id.len() > 0 && name.len() == 0,
    ensures
        text::unsigned(id, u16::MAX as int) == Some(n as int) && text::trimmed(name).len() > 0 ==> r is Ok
            && r->Ok_0 is Spawn && r->Ok_0->display_id == Some(n) && r->Ok_0->name is Some && r->Ok_0->name->0@
            == text::trimmed(name),
        text::unsigned(id, u16::MAX as int) == Some(n as int) && text::trimmed(name).len() == 0 ==> r is Ok
            && r->Ok_0 is Spawn && r->Ok_0->display_id == Some(n) && r->Ok_0->name is None,
        text::unsigned(id, u16::MAX as int) is None ==> r is Err && r->Err_0.kind == GmErrorKind::InvalidDisplayId
            && r->Err_0.about@ == id,
{
    the_commands_differ();
    lemma_typed(message@, "spawn"@, args);
    text::lemma_split(id, ' ', name);
    if name.len() == 0 {
        assert(name =~= Seq::<char>::empty());
    }
}

/// The distance to a target is asked for of somebody else, on the same map.
pub proof fn a_range_is_to_somebody_on_the_map(
    message: &str,
    me: &Character,
    m: &MapState,
    registry: &PlayerRegistry,
    readings: &Vec<Option<u32>>,
    whole: Option<u32>,
    found: Lookups,
    r: Result<GmCommand, GmError>,
    args: Seq<char>,
    k: usize,
)
    requires
        registry.wf(),
        call_ensures(GmCommand::from_answers, (message, me, m, registry, readings, whole, found), r),
        typed(message@, "range"@, args),
    ensures
        me.target == 0 ==> r is Err && r->Err_0.kind == GmErrorKind::RangeNoTarget,
        me.target != 0 && me.target == me.guid ==> r is Err && r->Err_0.kind == GmErrorKind::RangeSelf,
        me.target != 0 && me.target != me.guid && m@.entity(me.target) is None ==> r is Err && r->Err_0.kind
            == GmErrorKind::RangeTargetNotFound(me.target),
        me.target != 0 && me.target != me.guid && m@.entity(me.target) == Some(Entity::Player(k)) ==> {
            let c = m@.clients[k].character;
            &&& c.map == me.map ==> r == Ok::<GmCommand, GmError>(
                GmCommand::RangeToTarget(
                    Position { map: c.map, place: c.info.position, orientation: c.info.orientation },
                ),
            )
            &&& c.map != me.map ==> r is Err && r->Err_0.about@ == c.name@ && r->Err_0.kind
                == (GmErrorKind::RangeOtherMap { target: me.target, their_map: c.map, own_map: me.map })
        },
        me.target != 0 && me.target != me.guid && m@.entity(me.target) == Some(Entity::Creature(k)) ==> {
            let c = m@.creatures[k];
            &&& c.map == me.map ==> r == Ok::<GmCommand, GmError>(
                GmCommand::RangeToTarget(
                    Position { map: c.map, place: c.info.position, orientation: c.info.orientation },
                ),
            )
            &&& c.map != me.map ==> r is Err && r->Err_0.about@ == c.name@ && r->Err_0.kind
                == (GmErrorKind::RangeOtherMap { target: me.target, their_map: c.map, own_map: me.map })
        },
{
    the_commands_differ();
    lemma_typed(message@, "range"@, args);
}

/// What the game data is asked is what stands behind the command: a place and an item by the
/// text as it is, an item by its number where it writes one, and a map by the fourth word.
pub proof fn the_game_data_is_asked_what_was_typed(
    message: &str,
    me: &Character,
    m: &MapState,
    registry: &PlayerRegistry,
    readings: &Vec<Option<u32>>,
    whole: Option<u32>,
    r: Result<GmCommand, GmError>,
    args: Seq<char>,
    n: u32,
)
    requires
        registry.wf(),
        call_ensures(GmCommand::from_player_command, (message, me, m, registry, readings, whole), r),
    ensures
        typed(message@, "tp"@, args) && location(text::trimmed(args)) is Some ==> r == Ok::<GmCommand, GmError>(
            GmCommand::TeleportTo(location(text::trimmed(args))->0),
        ),
        typed(message@, "additem"@, args) && text::unsigned(text::trimmed(args), u32::MAX as int) == Some(n as int)
            && item::item_data(n) is Some ==> r == Ok::<GmCommand, GmError>(GmCommand::AddItem(item::item_data(n)->0)),
        typed(message@, "additem"@, args) && text::unsigned(text::trimmed(args), u32::MAX as int) is None
            && item_named(text::trimmed(args)) is Some ==> r == Ok::<GmCommand, GmError>(
            GmCommand::AddItem(item_named(text::trimmed(args))->0),
        ),
{
    the_commands_differ();
    lemma_typed(message@, "tp"@, args);
    lemma_typed(message@, "additem"@, args);
}

/// What cannot be read as a number is quoted, with what it was to be.
pub proof fn what_is_no_number_is_quoted(v: &str, name: &str, r: Result<i32, String>, reading: Option<u32>, f: Result<u32, String>, n: i32)
    requires
        call_ensures(parse_int, (v, name), r),
        call_ensures(parse_float, (v, reading, name), f),
    ensures
        text::signed(v@, i32::MIN as int, i32::MAX as int) == Some(n as int) ==> r is Ok && r->Ok_0 == n,
        text::signed(v@, i32::MIN as int, i32::MAX as int) is None ==> r is Err && r->Err_0@ == "invalid "@ + name@
            + ": '"@ + v@ + "'"@,
        reading is Some ==> f is Ok && f->Ok_0 == reading->0,
        reading is None ==> f is Err && f->Err_0@ == "invalid "@ + name@ + ": '"@ + v@ + "'"@,
{
}

/// A game master is told what was wrong, with the word, the guid or the map that it is about.
pub proof fn a_refusal_says_what_is_wrong(e: &GmError, r: String, g: u64, n: i32, own: u32, theirs: u32)
    requires
        call_ensures(GmError::text, (e,), r),
    ensures
        e.kind is NoTargetSelected ==> r@ == "No target selected"@,
        e.kind is NotAGuid ==> r@ == "Parameter '"@ + e.about@ + "' is not a valid GUID"@,
        e.kind is LocationNotFound ==> r@ == "Location not found: '"@ + e.about@ + "'"@,
        e.kind is GoNeedsTarget ==> r@ == "Must have a target for .go command without arguments"@,
        e.kind == GmErrorKind::TargetNotFound(g) ==> r@ == "Unable to find target '"@ + text::decimal(g as nat) + "'"@,
        e.kind is PlayerNotFound ==> r@ == "Unable to find player '"@ + e.about@ + "'"@,
        e.kind is OnlyTwoCoordinates ==> r@ == "Can not teleport with only x and y coordinates"@,
        e.kind == GmErrorKind::Invalid(Argument::Coordinate) ==> r@ == "invalid "@ + "coordinate"@ + ": '"@ + e.about@
            + "'"@,
        e.kind == GmErrorKind::Invalid(Argument::MapNumber) ==> r@ == "invalid "@ + "map"@ + ": '"@ + e.about@ + "'"@,
        e.kind == GmErrorKind::Invalid(Argument::Speed) ==> r@ == "invalid "@ + "speed argument"@ + ": '"@ + e.about@
            + "'"@,
        e.kind == GmErrorKind::NotAMap(n) && n >= 0 ==> r@ == text::decimal(n as nat) + " is not a valid map"@,
        e.kind == GmErrorKind::NotAMap(n) && n < 0 ==> r@ == "-"@ + text::decimal((-n) as nat)
            + " is not a valid map"@,
        e.kind is TooManyArguments ==> r@ == "Incorrect '.go' command: Too many arguments"@,
        e.kind is MarkNeedsNames ==> r@
            == ".mark a list of names separated by a comma, like '.mark Honor Hold,HH'"@,
        e.kind is RangeNoTarget ==> r@ == "Unable to find range: No target"@,
        e.kind is RangeSelf ==> r@ == "Unable to find range: You are targeting yourself"@,
        e.kind == GmErrorKind::RangeTargetNotFound(g) ==> r@ == "Unable to find range: Unable to find target '"@
            + text::decimal(g as nat) + "'"@,
        e.kind == (GmErrorKind::RangeOtherMap { target: g, their_map: theirs, own_map: own }) ==> r@
            == "Unable to find range: Target '"@ + e.about@ + "' ("@ + text::decimal(g as nat) + ") is on map '"@
            + map_named(theirs) + "' while you are on '"@ + map_named(own) + "'"@,
        e.kind is NotAnItem ==> r@ == "Unable to additem: '"@ + e.about@ + "' is not a valid entry"@,
        e.kind is InvalidDisplayId ==> r@ == "Invalid display_id: '"@ + e.about@ + "'"@,
        e.kind is InvalidCommand ==> r@ == "Invalid GM command: "@ + e.about@,
{
    reveal_strlit("");
    let d = "Invalid GM command: "@ + e.about@;
    assert(d + ""@ =~= d);
    let m = signed_decimal(n as int);
    assert(""@ + m =~= m);
}

} // verus!

//! Players who are in the world.
use crate::character::Character;
use crate::creature::Position;
use crate::movement::MovementInfo;
use crate::tables;
use ahash::{AHashMap, AHashSet};
use vstd::prelude::*;

verus! {

/// What the server keeps of a connection.
pub struct PlayerSession {
    pub account_name: String,
    pub in_process_of_teleport: bool,
    /// The entities that the client was told of and that it still shows.
    pub visible_entities: AHashSet<u64>,
    /// When an entity last appeared or vanished.
    pub aoi_transition_at: AHashMap<u64, u64>,
}

/// A player in the world.
pub struct Client {
    pub session: PlayerSession,
    pub character: Character,
}

/// A player in the world, as contracts speak of it.
#[verifier::ext_equal]
pub struct ClientView {
    pub account_name: Seq<char>,
    pub in_process_of_teleport: bool,
    pub visible: Set<u64>,
    pub transitions: Map<u64, u64>,
    pub character: Character,
}

impl View for Client {
    type V = ClientView;

    open spec fn view(&self) -> ClientView {
        ClientView {
            account_name: self.session.account_name@,
            in_process_of_teleport: self.session.in_process_of_teleport,
            visible: tables::members(self.session.visible_entities),
            transitions: tables::numbers(self.session.aoi_transition_at),
            character: self.character,
        }
    }
}

impl Client {
    /// A player who has just entered: nothing is shown yet.
    pub fn from_parts(character: Character, account_name: String) -> (r: Self)
        ensures
            r@ == (ClientView {
                account_name: account_name@,
                in_process_of_teleport: false,
                visible: Set::empty(),
                transitions: Map::empty(),
                character,
            }),
    {
        Client {
            session: PlayerSession {
                account_name,
                in_process_of_teleport: false,
                visible_entities: tables::members_new(),
                aoi_transition_at: tables::numbers_new(),
            },
            character,
        }
    }

    pub fn set_movement_info(&mut self, info: MovementInfo)
        ensures
            final(self)@ == (ClientView { character: Character { info, ..old(self)@.character }, ..old(self)@ }),
    {
        self.character.info = info;
    }

    pub fn position(&self) -> (r: Position)
        ensures
            r == (Position {
                map: self.character.map,
                place: self.character.info.position,
                orientation: self.character.info.orientation,
            }),
    {
        Position {
            map: self.character.map,
            place: self.character.info.position,
            orientation: self.character.info.orientation,
        }
    }

    pub fn set_in_process_of_teleport(&mut self, v: bool)
        ensures
            final(self)@ == (ClientView { in_process_of_teleport: v, ..old(self)@ }),
    {
        self.session.in_process_of_teleport = v;
    }

    /// Whether the client shows the entity.
    pub fn sees(&self, guid: u64) -> (r: bool)
        ensures
            r == self@.visible.contains(guid),
    {
        tables::members_contains(&self.session.visible_entities, guid)
    }

    /// The client shows the entity from now on.
    pub fn show(&mut self, guid: u64)
        ensures
            final(self)@ == (ClientView { visible: old(self)@.visible.insert(guid), ..old(self)@ }),
    {
        tables::members_insert(&mut self.session.visible_entities, guid);
    }

    /// The client no longer shows the entity.
    pub fn forget(&mut self, guid: u64)
        ensures
            final(self)@ == (ClientView { visible: old(self)@.visible.remove(guid), ..old(self)@ }),
    {
        tables::members_remove(&mut self.session.visible_entities, guid);
    }
}

/// Whoever enters stands where their character stands, shows nobody yet, and is not on the
/// way anywhere.
pub proof fn who_enters_shows_nobody(character: Character, account_name: String, r: Client, p: Position, after: &Client, guid: u64, s: bool)
    requires
        call_ensures(Client::from_parts, (character, account_name), r),
        *after == r,
        call_ensures(Client::position, (after,), p),
        call_ensures(Client::sees, (after, guid), s),
    ensures
        r@.character == character,
        r@.account_name == account_name@,
        !r@.in_process_of_teleport,
        !s,
        !r@.transitions.contains_key(guid),
        p.map == character.map && p.place == character.info.position && p.orientation == character.info.orientation,
{
}

/// What a client is told to show it shows, and what it is told to forget it does not; nothing
/// else is shown or forgotten for it.
pub proof fn what_is_shown_is_seen(a: &mut Client, guid: u64, u: (), b: &mut Client, v: (), other: u64)
    requires
        call_ensures(Client::show, (a, guid), u),
        call_ensures(Client::forget, (b, guid), v),
    ensures
        final(a)@.visible.contains(guid),
        !final(b)@.visible.contains(guid),
        other != guid ==> (final(a)@.visible.contains(other) <==> old(a)@.visible.contains(other)),
        other != guid ==> (final(b)@.visible.contains(other) <==> old(b)@.visible.contains(other)),
        final(a)@.character == old(a)@.character && final(b)@.character == old(b)@.character,
{
}

/// A client moves as it is told, and is on the way as long as it is said to be.
pub proof fn a_client_moves_as_told(a: &mut Client, info: MovementInfo, u: (), b: &mut Client, away: bool, v: ())
    requires
        call_ensures(Client::set_movement_info, (a, info), u),
        call_ensures(Client::set_in_process_of_teleport, (b, away), v),
    ensures
        final(a)@.character.info == info,
        final(a)@.character.map == old(a)@.character.map && final(a)@.character.guid == old(a)@.character.guid
            && final(a)@.character.current_health == old(a)@.character.current_health,
        final(a)@.visible == old(a)@.visible,
        final(b)@.in_process_of_teleport == away,
        final(b)@.character == old(b)@.character && final(b)@.visible == old(b)@.visible,
{
}

} // verus!

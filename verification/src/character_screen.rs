//! The character screen: choosing, creating and deleting characters.
use crate::character;
use crate::character::{Character, Looks};
use crate::client::{Client, ClientView};
use crate::config::CombatConfig;
use crate::creature::Position;
use crate::database::{DbView, WorldDatabase};
use crate::item;
use vstd::prelude::*;

verus! {

#[derive(Debug, Clone, Copy, PartialEq, Eq, Structural)]
pub enum CharacterScreenProgress {
    CharacterScreen,
    WaitingToLogIn(u64),
}

/// Somebody who is logged in but not in the world.
pub struct CharacterScreenClient {
    pub status: CharacterScreenProgress,
    pub account_name: String,
}

impl CharacterScreenClient {
    pub fn new(account_name: String) -> (r: Self)
        ensures
            r.status == CharacterScreenProgress::CharacterScreen,
            r.account_name@ == account_name@,
    {
        CharacterScreenClient { status: CharacterScreenProgress::CharacterScreen, account_name }
    }

    /// The same connection in the world, with a character.
    pub fn into_client(self, character: Character) -> (r: Client)
        ensures
            r@ == (ClientView {
                account_name: self.account_name@,
                in_process_of_teleport: false,
                visible: Set::empty(),
                transitions: Map::empty(),
                character,
            }),
    {
        Client::from_parts(character, self.account_name)
    }

    pub fn account_name(&self) -> (r: &str)
        ensures
            r@ == self.account_name@,
    {
        self.account_name.as_str()
    }
}

/// A wish for a new character.
pub struct CharCreate {
    pub name: String,
    pub race: u8,
    pub class: u8,
    pub gender: u8,
    pub looks: Looks,
}

/// Whether there can be such a character: race and class go together, and it is
/// male or female.
pub open spec fn is_playable(race: u8, class: u8, gender: u8) -> bool {
    item::starter_items(race, class) is Some && gender <= 1
}

/// Create a character. It starts at `spawn`, whatever its race.
pub fn create_character(c: CharCreate, db: &mut WorldDatabase, spawn: Position, combat: &CombatConfig) -> (r: Option<
    Character,
>)
    requires
        old(db).wf(),
        old(db)@.next_guid + 11 <= u64::MAX,
    ensures
        final(db).wf(),
        r is Some <==> is_playable(c.race, c.class, c.gender),
        match r {
            Some(made) => {
                &&& character::outfit(c.race, c.class).len() <= 10
                &&& character::is_created(
                    made,
                    old(db)@.next_guid,
                    c.name@,
                    c.race,
                    c.class,
                    c.gender,
                    c.looks,
                    1,
                    spawn,
                    combat.pvp_max_health,
                )
                &&& final(db)@ == (DbView {
                    next_guid: (old(db)@.next_guid + character::outfit(c.race, c.class).len() + 1) as u64,
                    ..old(db)@
                })
            },
            None => final(db)@ == old(db)@,
        },
{
    if c.gender > 1 {
        return None;
    }
    Character::new(db, c.name, c.race, c.class, c.gender, c.looks, spawn, combat)
}

/// What somebody on the character screen asks for.
pub enum CharScreenRequest {
    Ping { sequence_id: u32 },
    Enumerate,
    Create(CharCreate),
    Delete { guid: u64 },
    Login { guid: u64 },
    Other,
}

/// What they are answered.
pub enum CharScreenReply {
    Pong { sequence_id: u32 },
    Characters(Vec<Character>),
    Created(bool),
    /// They are about to enter the world with this character.
    Entering(Character),
    Nothing,
}

/// Handle a request from the character screen. An account lists, deletes and
/// enters the world with its own characters only.
pub fn handle_character_screen_opcode(
    client: &mut CharacterScreenClient,
    db: &mut WorldDatabase,
    request: CharScreenRequest,
    spawn: Position,
    combat: &CombatConfig,
) -> (r: CharScreenReply)
    requires
        old(db).wf(),
        old(db)@.next_guid + 11 <= u64::MAX,
    ensures
        final(db).wf(),
        final(client).account_name == old(client).account_name,
        match request {
            CharScreenRequest::Ping { sequence_id } => r == (CharScreenReply::Pong { sequence_id }) && final(db)@ == old(
                db,
            )@ && final(client).status == old(client).status,
            CharScreenRequest::Enumerate => {
                &&& r is Characters
                &&& r->Characters_0@ == old(db)@.characters_of(old(client).account_name@)
                &&& final(db)@ == old(db)@
                &&& final(client).status == old(client).status
            },
            CharScreenRequest::Create(c) => {
                &&& r == CharScreenReply::Created(is_playable(c.race, c.class, c.gender))
                &&& final(client).status == old(client).status
                &&& if is_playable(c.race, c.class, c.gender) {
                    let row = final(db)@.rows.last();
                    let mid = DbView {
                        next_guid: (old(db)@.next_guid + character::outfit(c.race, c.class).len() + 1) as u64,
                        ..old(db)@
                    };
                    &&& final(db)@ == mid.entered(row)
                    &&& is_new_character_of(
                        row,
                        old(client).account_name@,
                        old(db)@.next_guid,
                        c,
                        spawn,
                        combat.pvp_max_health,
                    )
                } else {
                    final(db)@ == old(db)@
                }
            },
            CharScreenRequest::Delete { guid } => {
                &&& r is Nothing
                &&& final(client).status == old(client).status
                &&& final(db)@ == (if old(db)@.may_delete(old(client).account_name@, guid) {
                    old(db)@.deleted(old(client).account_name@, guid)
                } else {
                    old(db)@
                })
            },
            CharScreenRequest::Login { guid } => {
                &&& final(db)@ == old(db)@
                &&& if old(db)@.may_delete(old(client).account_name@, guid) {
                    &&& r is Entering
                    &&& old(db)@.by_guid(guid) == Some(r->Entering_0)
                    &&& final(client).status == CharacterScreenProgress::WaitingToLogIn(guid)
                } else {
                    &&& r is Nothing
                    &&& final(client).status == old(client).status
                }
            },
            CharScreenRequest::Other => r is Nothing && final(db)@ == old(db)@ && final(client).status == old(
                client,
            ).status,
        },
{
    match request {
        CharScreenRequest::Ping { sequence_id } => CharScreenReply::Pong { sequence_id },
        CharScreenRequest::Enumerate => CharScreenReply::Characters(
            db.get_characters_for_account(client.account_name()),
        ),
        CharScreenRequest::Create(c) => {
            let ghost asked = c;
            match create_character(c, db, spawn, combat) {
                Some(made) => {
                    let ghost m = made;
                    db.create_character_in_account(client.account_name(), made);
                    assert(character::with_account(db@.rows.last(), m.account) == m);
                    CharScreenReply::Created(true)
                },
                None => CharScreenReply::Created(false),
            }
        },
        CharScreenRequest::Delete { guid } => {
            db.delete_character_by_guid(client.account_name(), guid);
            CharScreenReply::Nothing
        },
        CharScreenRequest::Login { guid } => {
            match db.get_character_for_account(client.account_name(), guid) {
                Some(c) => {
                    client.status = CharacterScreenProgress::WaitingToLogIn(guid);
                    CharScreenReply::Entering(c)
                },
                None => CharScreenReply::Nothing,
            }
        },
        CharScreenRequest::Other => CharScreenReply::Nothing,
    }
}

/// Whether `row` is the character that was wished for, of that account.
pub open spec fn is_new_character_of(
    row: Character,
    account: Seq<char>,
    next_guid: u64,
    c: CharCreate,
    spawn: Position,
    health: u32,
) -> bool {
    &&& row.account@ == account
    &&& exists|none: String|
        #![trigger character::with_account(row, none)]
        character::is_created(
            character::with_account(row, none),
            next_guid,
            c.name@,
            c.race,
            c.class,
            c.gender,
            c.looks,
            1,
            spawn,
            health,
        )
}

/// Nobody enters the world with, or deletes, a character of another account.
pub proof fn a_foreign_character_is_out_of_reach(db: DbView, account: Seq<char>, guid: u64)
    requires
        db.by_guid(guid) is Some,
        db.by_guid(guid)->0.account@ != account,
    ensures
        !db.may_delete(account, guid),
{
}

/// An account enters the world with a character of its own, as it is kept, and with no
/// other.
pub proof fn an_account_enters_with_its_own(
    client: &mut CharacterScreenClient,
    db: &mut WorldDatabase,
    guid: u64,
    spawn: Position,
    combat: &CombatConfig,
    r: CharScreenReply,
)
    requires
        old(db).wf(),
        old(db)@.next_guid + 11 <= u64::MAX,
        call_ensures(
            handle_character_screen_opcode,
            (client, db, CharScreenRequest::Login { guid }, spawn, combat),
            r,
        ),
    ensures
        ({
            let c = old(db)@.by_guid(guid);
            &&& c is Some && c->0.account@ == old(client).account_name@ ==> r == CharScreenReply::Entering(c->0)
                && final(client).status == CharacterScreenProgress::WaitingToLogIn(guid)
            &&& c is None || c->0.account@ != old(client).account_name@ ==> r is Nothing && final(client).status == old(client).status
        }),
        final(db)@ == old(db)@,
{
}

/// A character that can be played is created for the account that asks, as it asked, and is
/// found by its guid; one that cannot be played is not created.
pub proof fn an_account_gets_what_it_asked_for(
    client: &mut CharacterScreenClient,
    db: &mut WorldDatabase,
    c: CharCreate,
    spawn: Position,
    combat: &CombatConfig,
    r: CharScreenReply,
)
    requires
        old(db).wf(),
        old(db)@.next_guid + 11 <= u64::MAX,
        call_ensures(handle_character_screen_opcode, (client, db, CharScreenRequest::Create(c), spawn, combat), r),
    ensures
        ({
            let can = item::starter_items(c.race, c.class) is Some && c.gender <= 1;
            &&& r == CharScreenReply::Created(can)
            &&& !can ==> final(db)@ == old(db)@
            &&& can ==> {
                let made = final(db)@.rows.last();
                &&& final(db)@.rows.len() == old(db)@.rows.len() + 1
                &&& made.account@ == old(client).account_name@
                &&& made.name@ == c.name@ && made.race == c.race && made.class == c.class && made.gender == c.gender
                &&& made.skin == c.looks.skin && made.face == c.looks.face && made.hairstyle == c.looks.hair_style
                    && made.haircolor == c.looks.hair_color && made.facialhair == c.looks.facial_hair
                &&& made.level == 1 && made.current_health == combat.pvp_max_health && made.max_health
                    == combat.pvp_max_health
                &&& made.map == spawn.map && made.info.position == spawn.place && made.info.orientation
                    == spawn.orientation
                &&& final(db)@.by_guid.contains_key(made.guid)
                &&& old(db)@.rows.len() < u64::MAX ==> final(db)@.by_guid(made.guid) == Some(made)
            }
        }),
        final(client).status == old(client).status,
{
    let can = item::starter_items(c.race, c.class) is Some && c.gender <= 1;
    if can {
        let row = final(db)@.rows.last();
        let none = choose|none: String|
            #![trigger character::with_account(row, none)]
            character::is_created(
                character::with_account(row, none),
                old(db)@.next_guid,
                c.name@,
                c.race,
                c.class,
                c.gender,
                c.looks,
                1,
                spawn,
                combat.pvp_max_health,
            );
        let d = character::with_account(row, none);
        assert(d.level == row.level && d.name == row.name);
    }
}

/// An account deletes a character of its own and no other, lists all of its own and no other,
/// and a ping is answered with its number.
pub proof fn requests_are_answered(
    client: &mut CharacterScreenClient,
    db: &mut WorldDatabase,
    request: CharScreenRequest,
    spawn: Position,
    combat: &CombatConfig,
    r: CharScreenReply,
    guid: u64,
    other: u64,
    i: int,
)
    requires
        old(db).wf(),
        old(db)@.in_step(),
        old(db)@.next_guid + 11 <= u64::MAX,
        call_ensures(handle_character_screen_opcode, (client, db, request, spawn, combat), r),
        other != guid,
    ensures
        request is Ping ==> r == (CharScreenReply::Pong { sequence_id: request->sequence_id }),
        request == (CharScreenRequest::Delete { guid }) ==> {
            let c = old(db)@.by_guid(guid);
            &&& r is Nothing
            &&& c is Some && c->0.account@ == old(client).account_name@ ==> final(db)@.by_guid(guid) is None
            &&& c is Some && c->0.account@ != old(client).account_name@ ==> final(db)@.by_guid(guid) == c
            &&& final(db)@.by_guid(other) == old(db)@.by_guid(other)
        },
        request is Enumerate ==> r is Characters && (0 <= i < old(db)@.rows.len() ==> (r->Characters_0@.contains(
            old(db)@.rows[i],
        ) <==> old(db)@.rows[i].account@ == old(client).account_name@)),
        request is Other ==> r is Nothing,
        request is Ping || request is Enumerate || request is Other ==> final(db)@ == old(db)@,
        final(client).account_name == old(client).account_name,
{
    if request == (CharScreenRequest::Delete { guid }) && old(db)@.may_delete(old(client).account_name@, guid) {
        crate::database::deleting_keeps_step(old(db)@, old(client).account_name@, guid, other);
    }
    if request is Enumerate && 0 <= i < old(db)@.rows.len() {
        crate::database::an_account_has_its_characters(old(db)@, old(client).account_name@, i);
    }
}

/// Whoever goes from the character screen into the world goes with the character that was
/// chosen, under the same account.
pub proof fn who_goes_into_the_world_is_the_chosen(s: CharacterScreenClient, character: Character, r: Client)
    requires
        call_ensures(CharacterScreenClient::into_client, (s, character), r),
    ensures
        r@.character == character,
        r@.account_name == s.account_name@,
        r@.visible =~= Set::<u64>::empty(),
        !r@.in_process_of_teleport,
{
}

} // verus!

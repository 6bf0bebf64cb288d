//! How players are shown, to others and to themselves, and how they are moved.
use crate::character;
use crate::character::{BaseStats, Character, Power};
use crate::client::{Client, ClientView};
use crate::creature::Position;
use crate::inventory::{EQUIPMENT_COUNT, SLOT_COUNT};
use crate::item::{Item, ItemObject};
use crate::movement;
use crate::movement::{MovementInfo, Place, FORWARD};
use crate::spells::SPELL_FROST_NOVA;
use vstd::prelude::*;

verus! {

/// The look of a race, class and gender.
pub uninterp spec fn look(race: u8, class: u8, gender: u8) -> Option<i32>;

/// `RaceClass::display_id` of `wow_world_base`, by number: the look of
/// characters of that race and gender, if there are such characters.
#[verifier::external_body]
fn display_id_of(race: u8, class: u8, gender: u8) -> (r: Option<i32>)
    ensures
        r == look(race, class, gender),
{
    let race = wow_world_base::vanilla::Race::try_from(race).ok()?;
    let class = wow_world_base::vanilla::Class::try_from(class).ok()?;
    let both = wow_world_base::vanilla::RaceClass::try_from((race, class)).ok()?;
    let gender = wow_world_base::vanilla::Gender::try_from(gender).ok()?;
    let gender = wow_world_base::vanilla::PlayerGender::try_from(gender).ok()?;
    Some(both.display_id(gender))
}

/// The faction of a race and class.
pub uninterp spec fn faction(race: u8, class: u8) -> Option<u16>;

/// `RaceClass::faction_id` of `wow_world_base`, by number: the faction of
/// characters of that race, if there are such characters.
#[verifier::external_body]
fn faction_of(race: u8, class: u8) -> (r: Option<u16>)
    ensures
        r == faction(race, class),
{
    let race = wow_world_base::vanilla::Race::try_from(race).ok()?;
    let class = wow_world_base::vanilla::Class::try_from(class).ok()?;
    let both = wow_world_base::vanilla::RaceClass::try_from((race, class)).ok()?;
    Some(both.faction_id().as_int())
}

/// The experience that a level takes.
pub uninterp spec fn experience(level: u8) -> Option<i32>;

/// `exp_required_to_level_up` of `wow_world_base`: the experience that it takes
/// from a level to the next, if there is a next.
#[verifier::external_body]
fn exp_required_to_level_up(level: u8) -> (r: Option<i32>)
    ensures
        r == experience(level),
{
    wow_world_base::vanilla::exp::exp_required_to_level_up(level)
}

/// The spells that a race and class start with.
pub uninterp spec fn starter_spells(race: u8, class: u8) -> Option<Seq<u32>>;

/// `RaceClass::starter_spells` of `wow_world_base`, by number: the spells that
/// characters of that race and class start with, if there are such characters.
#[verifier::external_body]
fn starter_spells_of(race: u8, class: u8) -> (r: Option<Vec<u32>>)
    ensures
        r is Some <==> starter_spells(race, class) is Some,
        r is Some ==> r->0@ == starter_spells(race, class)->0,
{
    let race = wow_world_base::vanilla::Race::try_from(race).ok()?;
    let class = wow_world_base::vanilla::Class::try_from(class).ok()?;
    let both = wow_world_base::vanilla::RaceClass::try_from((race, class)).ok()?;
    Some(both.starter_spells().to_vec())
}

/// An item that others see on a character.
#[derive(Debug, Clone, Copy, PartialEq, Eq, Structural)]
pub struct VisibleItem {
    pub index: u8,
    pub entry: u32,
    pub random_property: u32,
}

/// What a client is sent to show a player.
#[derive(Debug)]
pub struct PlayerFrame {
    pub guid: u64,
    pub race: u8,
    pub class: u8,
    pub gender: u8,
    pub power: Power,
    pub skin: u8,
    pub face: u8,
    pub hair_style: u8,
    pub hair_color: u8,
    pub facial_hair: u8,
    pub health: i32,
    pub max_health: i32,
    pub level: i32,
    pub faction: i32,
    pub display_id: i32,
    pub visible_items: Vec<VisibleItem>,
    pub forward: bool,
    pub position: Place,
    pub orientation: u32,
    pub running_speed: u32,
}

/// The items that others see: those in the first `n` slots of `slots` that are
/// equipment.
pub open spec fn worn(slots: Seq<Option<Item>>, n: int) -> Seq<VisibleItem>
    decreases n,
{
    if n <= 0 {
        Seq::empty()
    } else {
        let before = worn(slots, n - 1);
        match slots[n - 1] {
            Some(i) => before.push(
                VisibleItem {
                    index: (n - 1) as u8,
                    entry: i.item.entry,
                    random_property: i.item.random_property as u32,
                },
            ),
            None => before,
        }
    }
}

pub open spec fn or_zero(n: Option<i32>) -> i32 {
    match n {
        Some(n) => n,
        None => 0,
    }
}

/// Whether `f` shows the character, who has the look `display_id` and the
/// faction `side`.
pub open spec fn shows(f: PlayerFrame, c: Character, display_id: Option<i32>, side: Option<u16>) -> bool {
    &&& f.guid == c.guid
    &&& f.race == c.race
    &&& f.class == c.class
    &&& f.gender == c.gender
    &&& f.power == character::power_of(c.class)
    &&& f.skin == c.skin
    &&& f.face == c.face
    &&& f.hair_style == c.hairstyle
    &&& f.hair_color == c.haircolor
    &&& f.facial_hair == c.facialhair
    &&& f.health == c.current_health as i32
    &&& f.max_health == c.max_health as i32
    &&& f.level == c.level
    &&& f.faction == (match side {
        Some(s) => s as i32,
        None => 0,
    })
    &&& f.display_id == or_zero(display_id)
    &&& f.visible_items@ == worn(c.inventory@, EQUIPMENT_COUNT as int)
    &&& f.forward == movement::has_flag(c.info.flags, FORWARD)
    &&& f.position == c.info.position
    &&& f.orientation == c.info.orientation
    &&& f.running_speed == c.movement_speed
}

/// How a character with that look and faction is shown.
pub fn frame_of(c: &Character, display_id: Option<i32>, side: Option<u16>) -> (f: PlayerFrame)
    ensures
        shows(f, *c, display_id, side),
{
    let mut visible_items: Vec<VisibleItem> = Vec::new();
    let mut i: usize = 0;
    while i < EQUIPMENT_COUNT
        invariant
            i <= EQUIPMENT_COUNT,
            visible_items@ == worn(c.inventory@, i as int),
        decreases EQUIPMENT_COUNT - i,
    {
        if let Some(it) = c.inventory.slots[i] {
            visible_items.push(
                VisibleItem {
                    index: i as u8,
                    entry: it.item.entry,
                    random_property: it.item.random_property as u32,
                },
            );
        }
        i += 1;
    }
    PlayerFrame {
        guid: c.guid,
        race: c.race,
        class: c.class,
        gender: c.gender,
        power: character::power_type(c.class),
        skin: c.skin,
        face: c.face,
        hair_style: c.hairstyle,
        hair_color: c.haircolor,
        facial_hair: c.facialhair,
        health: c.current_health as i32,
        max_health: c.max_health as i32,
        level: c.level as i32,
        faction: match side {
            Some(s) => s as i32,
            None => 0,
        },
        display_id: match display_id {
            Some(d) => d,
            None => 0,
        },
        visible_items,
        forward: c.info.flags & FORWARD != 0,
        position: c.info.position,
        orientation: c.info.orientation,
        running_speed: c.movement_speed,
    }
}

/// How a character is shown to others.
pub fn player_create_object(c: &Character) -> (f: PlayerFrame)
    ensures
        shows(f, *c, look(c.race, c.class, c.gender), faction(c.race, c.class)),
{
    frame_of(c, display_id_of(c.race, c.class, c.gender), faction_of(c.race, c.class))
}

/// What a class spends, as far as it is filled.
#[derive(Debug, Clone, Copy, PartialEq, Eq, Structural)]
pub struct PowerBar {
    pub power: Power,
    pub current: i32,
    pub max: i32,
}

/// The power of a class with that much mana: mana and energy are full, rage is
/// not there yet.
pub open spec fn power_bar(power: Power, mana: int) -> PowerBar {
    match power {
        Power::Mana => {
            let max = if mana < 0 {
                0
            } else {
                mana as i32
            };
            PowerBar { power, current: max, max }
        },
        Power::Rage => PowerBar { power, current: 0, max: 1000 },
        Power::Focus => PowerBar { power, current: 100, max: 100 },
        Power::Energy => PowerBar { power, current: 100, max: 100 },
        Power::Happiness => PowerBar { power, current: 1_000_000, max: 1_000_000 },
    }
}

fn fill_power(power: Power, mana: i32) -> (r: PowerBar)
    ensures
        r == power_bar(power, mana as int),
{
    match power {
        Power::Mana => {
            let max: i32 = if mana < 0 {
                0
            } else {
                mana
            };
            PowerBar { power, current: max, max }
        },
        Power::Rage => PowerBar { power, current: 0, max: 1000 },
        Power::Focus => PowerBar { power, current: 100, max: 100 },
        Power::Energy => PowerBar { power, current: 100, max: 100 },
        Power::Happiness => PowerBar { power, current: 1_000_000, max: 1_000_000 },
    }
}

/// What a player is told of themselves, beyond what others see.
#[derive(Debug, Clone, Copy)]
pub struct PlayerSelf {
    pub stats: BaseStats,
    pub gender: u8,
    pub next_level_xp: i32,
    pub bar: PowerBar,
}

/// The experience that is shown for the next level where there is none to reach.
pub const LAST_LEVEL_XP: i32 = 400;

pub open spec fn xp_shown(xp: Option<i32>) -> i32 {
    match xp {
        Some(n) => n,
        None => LAST_LEVEL_XP,
    }
}

pub fn get_update_object_player_self(c: &Character) -> (r: PlayerSelf)
    ensures
        r.stats == c.stats(),
        r.gender == c.gender,
        r.next_level_xp == xp_shown(experience(c.level)),
        r.bar == power_bar(
            character::power_of(c.class),
            if character::power_of(c.class) == Power::Mana {
                character::mana_with(c.stats().mana, c.stats().intellect)
            } else {
                0
            },
        ),
{
    PlayerSelf {
        stats: c.default_stats(),
        gender: c.gender,
        next_level_xp: match exp_required_to_level_up(c.level) {
            Some(n) => n,
            None => LAST_LEVEL_XP,
        },
        bar: fill_power(character::power_type(c.class), c.max_mana()),
    }
}

/// The numbers of spells as they go over the wire.
pub open spec fn wire_spells(spells: Seq<u32>) -> Seq<u16> {
    spells.map_values(|s: u32| s as u16)
}

/// The spells that a character of that class has, who started with `starter`.
/// Mages also have frost nova.
pub open spec fn known_spells(starter: Seq<u32>, class: u8) -> Seq<u16> {
    if class == character::CLASS_MAGE {
        wire_spells(starter).push(SPELL_FROST_NOVA as u16)
    } else {
        wire_spells(starter)
    }
}

pub fn spells_with(starter: &Vec<u32>, class: u8) -> (r: Vec<u16>)
    ensures
        r@ == known_spells(starter@, class),
{
    let mut r: Vec<u16> = Vec::new();
    let mut i: usize = 0;
    assert(r@ =~= wire_spells(starter@.take(0)));
    while i < starter.len()
        invariant
            i <= starter@.len(),
            r@ == wire_spells(starter@.take(i as int)),
        decreases starter.len() - i,
    {
        r.push(starter[i] as u16);
        i += 1;
        assert(r@ =~= wire_spells(starter@.take(i as int)));
    }
    assert(starter@.take(i as int) =~= starter@);
    if class == character::CLASS_MAGE {
        r.push(SPELL_FROST_NOVA as u16);
    }
    r
}

/// The items in the first `n` slots, as they are shown to their owner.
pub open spec fn carried(slots: Seq<Option<Item>>, owner: u64, n: int) -> Seq<ItemObject>
    decreases n,
{
    if n <= 0 {
        Seq::empty()
    } else {
        let before = carried(slots, owner, n - 1);
        match slots[n - 1] {
            Some(i) => before.push(
                ItemObject {
                    guid: i.guid,
                    entry: i.item.entry,
                    owner,
                    stack_count: i.amount as i32,
                    durability: i.item.max_durability,
                    creator: i.creator,
                    kind: if i.item.bag_family == 0 {
                        crate::item::ItemKind::Item
                    } else {
                        crate::item::ItemKind::Container
                    },
                },
            ),
            None => before,
        }
    }
}

/// What a player is told of their character when they enter the world.
#[derive(Debug)]
pub struct LoginBundle {
    pub map: u32,
    pub position: Place,
    pub orientation: u32,
    pub spells: Vec<u16>,
    pub items: Vec<ItemObject>,
    pub frame: PlayerFrame,
    pub own: PlayerSelf,
}

pub fn get_client_login_messages(c: &Character) -> (r: LoginBundle)
    ensures
        r.map == c.map,
        r.position == c.info.position,
        r.orientation == c.info.orientation,
        r.spells@ == known_spells(
            match starter_spells(c.race, c.class) {
                Some(s) => s,
                None => Seq::empty(),
            },
            c.class,
        ),
        r.items@ == carried(c.inventory@, c.guid, SLOT_COUNT as int),
        shows(r.frame, *c, look(c.race, c.class, c.gender), faction(c.race, c.class)),
        call_ensures(get_update_object_player_self, (c,), r.own),
{
    let mut items: Vec<ItemObject> = Vec::new();
    let mut i: usize = 0;
    while i < SLOT_COUNT
        invariant
            i <= SLOT_COUNT,
            items@ == carried(c.inventory@, c.guid, i as int),
        decreases SLOT_COUNT - i,
    {
        if let Some(it) = c.inventory.slots[i] {
            items.push(it.to_create_item_object(c.guid));
        }
        i += 1;
    }
    let starter: Vec<u32> = match starter_spells_of(c.race, c.class) {
        Some(s) => s,
        None => Vec::new(),
    };
    assert(starter_spells(c.race, c.class) is None ==> starter@ =~= Seq::<u32>::empty());
    LoginBundle {
        map: c.map,
        position: c.info.position,
        orientation: c.info.orientation,
        spells: spells_with(&starter, c.class),
        items,
        frame: player_create_object(c),
        own: get_update_object_player_self(c),
    }
}

/// How somebody is moved: within their map, or to another.
#[derive(Debug, Clone, Copy, PartialEq, Eq, Structural)]
pub enum TeleportKind {
    Near,
    Far,
}

/// The character at another position.
pub open spec fn moved_to(c: Character, p: Position) -> Character {
    Character {
        map: p.map,
        info: MovementInfo { position: p.place, orientation: p.orientation, ..c.info },
        ..c
    }
}

/// Move a client to `p`. It is on its way until it says that it has arrived.
pub fn prepare_teleport(p: Position, client: &mut Client) -> (r: TeleportKind)
    ensures
        r == (if p.map == old(client)@.character.map {
            TeleportKind::Near
        } else {
            TeleportKind::Far
        }),
        final(client)@ == (ClientView {
            character: moved_to(old(client)@.character, p),
            in_process_of_teleport: true,
            ..old(client)@
        }),
{
    let kind = if p.map == client.character.map {
        TeleportKind::Near
    } else {
        TeleportKind::Far
    };
    client.character.info.position = p.place;
    client.character.info.orientation = p.orientation;
    client.character.map = p.map;
    client.set_in_process_of_teleport(true);
    kind
}

proof fn lemma_worn(slots: Seq<Option<Item>>, n: int, k: int)
    requires
        0 <= n <= EQUIPMENT_COUNT,
        0 <= k < worn(slots, n).len(),
    ensures
        worn(slots, n)[k].index < n,
        slots[worn(slots, n)[k].index as int] is Some,
        slots[worn(slots, n)[k].index as int]->0.item.entry == worn(slots, n)[k].entry,
    decreases n,
{
    if n > 0 {
        let before = worn(slots, n - 1);
        if k < before.len() {
            lemma_worn(slots, n - 1, k);
        }
    }
}

/// Others see nothing on a character but what it wears.
pub proof fn others_see_what_is_worn(slots: Seq<Option<Item>>, k: int)
    requires
        0 <= k < worn(slots, EQUIPMENT_COUNT as int).len(),
    ensures
        ({
            let v = worn(slots, EQUIPMENT_COUNT as int)[k];
            &&& v.index < EQUIPMENT_COUNT
            &&& slots[v.index as int] is Some
            &&& slots[v.index as int]->0.item.entry == v.entry
        }),
{
    lemma_worn(slots, EQUIPMENT_COUNT as int, k);
}

/// A frame shows the character as it is: where it is, how it looks and how it fares.
pub proof fn a_frame_shows_the_character(c: &Character, f: PlayerFrame, i: int)
    requires
        call_ensures(player_create_object, (c,), f),
    ensures
        f.guid == c.guid,
        f.race == c.race && f.class == c.class && f.gender == c.gender && f.level == c.level,
        f.skin == c.skin && f.face == c.face && f.hair_style == c.hairstyle && f.hair_color == c.haircolor
            && f.facial_hair == c.facialhair,
        c.current_health <= i32::MAX ==> f.health == c.current_health,
        c.max_health <= i32::MAX ==> f.max_health == c.max_health,
        f.position == c.info.position && f.orientation == c.info.orientation && f.running_speed == c.movement_speed,
        f.forward <==> c.info.flags & 1 == 1,
        f.power is Rage <==> c.class == 1,
        f.power is Energy <==> c.class == 4,
        look(c.race, c.class, c.gender) is Some ==> f.display_id == look(c.race, c.class, c.gender)->0,
        faction(c.race, c.class) is Some ==> f.faction == faction(c.race, c.class)->0,
        0 <= i < 19 && c.inventory@[i] is Some ==> exists|k: int|
            0 <= k < f.visible_items@.len() && (#[trigger] f.visible_items@[k]).index == i && f.visible_items@[k].entry
                == c.inventory@[i]->0.item.entry,
        0 <= i < f.visible_items@.len() ==> f.visible_items@[i].index < 19
            && c.inventory@[f.visible_items@[i].index as int] is Some
            && c.inventory@[f.visible_items@[i].index as int]->0.item.entry == f.visible_items@[i].entry,
{
    let flags = c.info.flags;
    assert(flags & 1 == 1 <==> flags & 1 != 0) by (bit_vector);
    lemma_worn_all(c.inventory@, 19, i);
    if 0 <= i < f.visible_items@.len() {
        others_see_what_is_worn(c.inventory@, i);
    }
}

proof fn lemma_worn_all(slots: Seq<Option<Item>>, n: int, i: int)
    requires
        0 <= n <= 255,
    ensures
        0 <= i < n && slots[i] is Some ==> exists|k: int|
            0 <= k < worn(slots, n).len() && (#[trigger] worn(slots, n)[k]).index == i && worn(slots, n)[k].entry
                == slots[i]->0.item.entry,
    decreases n,
{
    if 0 <= i < n && slots[i] is Some {
        let w = worn(slots, n);
        if i == n - 1 {
            assert(w[w.len() - 1].index == i);
        } else {
            lemma_worn_all(slots, n - 1, i);
            let b = worn(slots, n - 1);
            let k = choose|k: int|
                0 <= k < b.len() && (#[trigger] b[k]).index == i && b[k].entry == slots[i]->0.item.entry;
            assert(w[k] == b[k]);
        }
    }
}

/// Whoever is teleported is where they were sent, looking as they were told to, and on the
/// way until they arrive; it is a far way if the map is another one.
pub proof fn who_is_teleported_is_there(p: Position, client: &mut Client, r: TeleportKind)
    requires
        call_ensures(prepare_teleport, (p, client), r),
    ensures
        final(client)@.character.map == p.map,
        final(client)@.character.info.position == p.place,
        final(client)@.character.info.orientation == p.orientation,
        final(client)@.in_process_of_teleport,
        r is Near <==> old(client)@.character.map == p.map,
        final(client)@.character.guid == old(client)@.character.guid,
        final(client)@.character.current_health == old(client)@.character.current_health,
        final(client)@.character.inventory == old(client)@.character.inventory,
        final(client)@.visible == old(client)@.visible,
{
}

/// A character has the spells that it started with, in their order, and a mage has frost
/// nova besides.
pub proof fn spells_are_kept_in_order(starter: &Vec<u32>, class: u8, r: Vec<u16>, i: int)
    requires
        call_ensures(spells_with, (starter, class), r),
    ensures
        0 <= i < starter@.len() && starter@[i] <= u16::MAX ==> r@[i] == starter@[i],
        class == 8 ==> r@.len() == starter@.len() + 1 && r@.last() == 122,
        class != 8 ==> r@.len() == starter@.len(),
{
}

/// A warrior starts without rage, out of a thousand; a rogue has a hundred energy; everybody
/// else has all the mana that they can have.
pub proof fn powers_start_as_they_should(c: &Character, r: PlayerSelf, most: i32)
    requires
        call_ensures(get_update_object_player_self, (c,), r),
        call_ensures(Character::max_mana, (c,), most),
    ensures
        c.class == 1 ==> r.bar.power is Rage && r.bar.current == 0 && r.bar.max == 1000,
        c.class == 4 ==> r.bar.power is Energy && r.bar.current == 100 && r.bar.max == 100,
        c.class != 1 && c.class != 4 ==> r.bar.power is Mana && r.bar.max == most && r.bar.current == most,
        r.gender == c.gender,
        r.stats == c.stats(),
        experience(c.level) is Some ==> r.next_level_xp == experience(c.level)->0,
        experience(c.level) is None ==> r.next_level_xp == 400,
{
}

/// Whoever enters the world is told where they are, and of everything that they carry: each
/// item once, as theirs.
pub proof fn who_enters_is_told_what_they_carry(c: &Character, r: LoginBundle, i: int)
    requires
        call_ensures(get_client_login_messages, (c,), r),
        0 <= i < SLOT_COUNT,
    ensures
        r.map == c.map && r.position == c.info.position && r.orientation == c.info.orientation,
        r.frame.guid == c.guid && r.frame.position == c.info.position,
        c.inventory@[i] is Some ==> exists|k: int|
            0 <= k < r.items@.len() && (#[trigger] r.items@[k]).guid == c.inventory@[i]->0.guid && r.items@[k].entry
                == c.inventory@[i]->0.item.entry && r.items@[k].owner == c.guid && r.items@[k].creator
                == c.inventory@[i]->0.creator && r.items@[k].stack_count == c.inventory@[i]->0.amount as i32
                && r.items@[k].durability == c.inventory@[i]->0.item.max_durability,
        r.items@.len() == c.inventory@.take(SLOT_COUNT as int).filter(|x: Option<Item>| x is Some).len(),
{
    lemma_carried(c.inventory@, c.guid, SLOT_COUNT as int, i);
}

proof fn lemma_carried(slots: Seq<Option<Item>>, owner: u64, n: int, i: int)
    requires
        0 <= n <= slots.len(),
    ensures
        carried(slots, owner, n).len() == slots.take(n).filter(|x: Option<Item>| x is Some).len(),
        0 <= i < n && slots[i] is Some ==> exists|k: int|
            0 <= k < carried(slots, owner, n).len() && (#[trigger] carried(slots, owner, n)[k]).guid == slots[i]->0.guid
                && carried(slots, owner, n)[k].entry == slots[i]->0.item.entry && carried(slots, owner, n)[k].owner
                == owner && carried(slots, owner, n)[k].creator == slots[i]->0.creator
                && carried(slots, owner, n)[k].stack_count == slots[i]->0.amount as i32 && carried(
                slots,
                owner,
                n,
            )[k].durability == slots[i]->0.item.max_durability,
    decreases n,
{
    reveal(Seq::filter);
    if n > 0 {
        lemma_carried(slots, owner, n - 1, i);
        assert(slots.take(n).drop_last() =~= slots.take(n - 1));
        let w = carried(slots, owner, n);
        let b = carried(slots, owner, n - 1);
        if 0 <= i < n && slots[i] is Some {
            if i == n - 1 {
                assert(w[w.len() - 1].guid == slots[i]->0.guid);
            } else {
                let k = choose|k: int|
                    0 <= k < b.len() && (#[trigger] b[k]).guid == slots[i]->0.guid && b[k].entry
                        == slots[i]->0.item.entry && b[k].owner == owner && b[k].creator == slots[i]->0.creator
                        && b[k].stack_count == slots[i]->0.amount as i32 && b[k].durability
                        == slots[i]->0.item.max_durability;
                assert(w[k] == b[k]);
            }
        }
    }
}

} // verus!

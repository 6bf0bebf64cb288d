//! The state of the world as it is kept from one run to the next.
use crate::character;
use crate::character::Character;
use crate::creature::Creature;
use crate::database;
use crate::database::{DbView, WorldDatabase, DEV_ACCOUNT};
use crate::inventory;
use crate::inventory::Inventory;
use crate::item;
use crate::item::{Item, ItemData};
use crate::movement::{MovementInfo, Place};
use crate::slabs;
use slab::Slab;
use vstd::prelude::*;

verus! {

/// What is kept of an item, and its slot.
#[derive(Debug, Clone, Copy, PartialEq, Eq, Structural)]
pub struct InventoryEntry {
    pub slot: u8,
    pub item_entry: u32,
    pub item_guid: u64,
    pub amount: u8,
    pub creator_guid: u64,
}

/// What is kept of a character.
#[derive(Debug)]
pub struct CharacterSnapshot {
    pub guid: u64,
    pub name: String,
    pub account: String,
    pub race: u8,
    pub class: u8,
    pub gender: u8,
    pub skin: u8,
    pub face: u8,
    pub hairstyle: u8,
    pub haircolor: u8,
    pub facialhair: u8,
    pub level: u8,
    pub area: u32,
    pub map: u32,
    pub x: u32,
    pub y: u32,
    pub z: u32,
    pub orientation: u32,
    pub movement_speed: u32,
    pub inventory: Vec<InventoryEntry>,
}

/// What is kept of a creature.
#[derive(Debug)]
pub struct CreatureSnapshot {
    pub guid: u64,
    pub name: String,
    pub map: u32,
    pub level: u8,
    pub display_id: u16,
    pub entry: u32,
    pub faction_template: u32,
    pub x: u32,
    pub y: u32,
    pub z: u32,
    pub orientation: u32,
    pub health: u32,
    pub max_health: u32,
}

#[derive(Debug)]
pub struct WorldSnapshot {
    pub next_guid: u64,
    pub characters: Vec<CharacterSnapshot>,
    pub creatures: Vec<CreatureSnapshot>,
}

/// The account of characters that were kept without one.
pub fn default_legacy_account() -> (r: String)
    ensures
        r@ == DEV_ACCOUNT@,
{
    DEV_ACCOUNT.to_string()
}

/// What is kept of the item `i` in the slot `slot`.
pub open spec fn entry_of(slot: int, i: Item) -> InventoryEntry {
    InventoryEntry {
        slot: slot as u8,
        item_entry: i.item.entry,
        item_guid: i.guid,
        amount: i.amount,
        creator_guid: i.creator,
    }
}

/// What is kept of the first `n` slots: the items in them, in their order.
pub open spec fn entries(slots: Seq<Option<Item>>, n: nat) -> Seq<InventoryEntry>
    decreases n,
{
    if n == 0 {
        Seq::empty()
    } else {
        let before = entries(slots, (n - 1) as nat);
        match slots[n - 1] {
            Some(i) => before.push(entry_of(n - 1, i)),
            None => before,
        }
    }
}

/// The item that an entry stands for.
pub open spec fn item_of(e: InventoryEntry, data: ItemData) -> Item {
    Item { item: data, guid: e.item_guid, amount: e.amount, creator: e.creator_guid }
}

/// The slots with the items of `es` in them. An entry of which there is no data
/// is passed over; of two for one slot the later one stays.
pub open spec fn unpacked(es: Seq<InventoryEntry>, data: Seq<Option<ItemData>>) -> Seq<Option<Item>>
    decreases es.len(),
{
    if es.len() == 0 {
        inventory::empty_slots()
    } else {
        let before = unpacked(es.drop_last(), data);
        match data[es.len() - 1] {
            Some(d) => before.update(es.last().slot as int, Some(item_of(es.last(), d))),
            None => before,
        }
    }
}

/// What the item data says of each of `es`.
pub open spec fn data_of(es: Seq<InventoryEntry>) -> Seq<Option<ItemData>> {
    es.map_values(|e: InventoryEntry| item::item_data(e.item_entry))
}

/// Whether each of `es` has a slot that an inventory has.
pub open spec fn fit(es: Seq<InventoryEntry>) -> bool {
    forall|i: int| 0 <= i < es.len() ==> (#[trigger] es[i]).slot < inventory::SLOT_COUNT
}

/// Whether `s` is what is kept of `c`.
pub open spec fn keeps(s: CharacterSnapshot, c: Character) -> bool {
    &&& s.guid == c.guid
    &&& s.name == c.name
    &&& s.account == c.account
    &&& s.race == c.race
    &&& s.class == c.class
    &&& s.gender == c.gender
    &&& s.skin == c.skin
    &&& s.face == c.face
    &&& s.hairstyle == c.hairstyle
    &&& s.haircolor == c.haircolor
    &&& s.facialhair == c.facialhair
    &&& s.level == c.level
    &&& s.area == c.area
    &&& s.map == c.map
    &&& s.x == c.info.position.x
    &&& s.y == c.info.position.y
    &&& s.z == c.info.position.z
    &&& s.orientation == c.info.orientation
    &&& s.movement_speed == c.movement_speed
    &&& s.inventory@ == entries(c.inventory@, inventory::SLOT_COUNT as nat)
}

/// A speed that is kept, or that of running where none above zero was.
pub open spec fn speed_of(kept: u32) -> u32 {
    if 0 < kept <= 0x7f80_0000 {
        kept
    } else {
        character::DEFAULT_RUNNING_SPEED
    }
}

/// Whether `c` is who comes back of `s`: at rest, at full health and with what
/// they carried.
pub open spec fn comes_back(c: Character, s: CharacterSnapshot, at: Cells, health: u32) -> bool {
    &&& c.guid == s.guid
    &&& c.name == s.name
    &&& c.account == s.account
    &&& c.race == s.race
    &&& c.class == s.class
    &&& c.gender == s.gender
    &&& c.skin == s.skin
    &&& c.face == s.face
    &&& c.hairstyle == s.hairstyle
    &&& c.haircolor == s.haircolor
    &&& c.facialhair == s.facialhair
    &&& c.level == s.level
    &&& c.area == s.area
    &&& c.map == s.map
    &&& c.info == (MovementInfo {
        flags: 0,
        timestamp: 0,
        position: Place { x: s.x, y: s.y, z: s.z, cell: at.cell, grid: at.grid },
        orientation: s.orientation,
        fall_time: 0,
    })
    &&& c.movement_speed == speed_of(s.movement_speed)
    &&& c.target == 0
    &&& !c.attacking
    &&& c.auto_attack_timer == 0
    &&& c.inventory@ == unpacked(s.inventory@, data_of(s.inventory@))
    &&& c.root_until is None
    &&& c.current_health == health
    &&& c.max_health == health
    &&& c.time_of_death is None
}

/// The cell and the grid of a position.
#[derive(Debug, Clone, Copy)]
pub struct Cells {
    pub cell: (i32, i32),
    pub grid: (i32, i32),
}

fn keep_items(slots: &Inventory) -> (r: Vec<InventoryEntry>)
    ensures
        r@ == entries(slots@, inventory::SLOT_COUNT as nat),
{
    let mut r: Vec<InventoryEntry> = Vec::new();
    let mut i: usize = 0;
    while i < inventory::SLOT_COUNT
        invariant
            i <= inventory::SLOT_COUNT,
            r@ == entries(slots@, i as nat),
        decreases inventory::SLOT_COUNT - i,
    {
        if let Some(it) = slots.slots[i] {
            r.push(
                InventoryEntry {
                    slot: i as u8,
                    item_entry: it.item.entry,
                    item_guid: it.guid,
                    amount: it.amount,
                    creator_guid: it.creator,
                },
            );
        }
        i += 1;
    }
    r
}

/// Put items back into their slots.
pub fn unpack_items(es: &Vec<InventoryEntry>, data: &Vec<Option<ItemData>>) -> (r: Inventory)
    requires
        fit(es@),
        data@.len() == es@.len(),
    ensures
        r@ == unpacked(es@, data@),
{
    let mut r = Inventory::empty();
    let mut i: usize = 0;
    assert(es@.take(0) =~= Seq::<InventoryEntry>::empty());
    assert(r@ =~= unpacked(es@.take(0), data@));
    while i < es.len()
        invariant
            i <= es@.len(),
            data@.len() == es@.len(),
            fit(es@),
            r@ == unpacked(es@.take(i as int), data@),
        decreases es.len() - i,
    {
        assert(es@[i as int].slot < inventory::SLOT_COUNT);
        proof {
            assert(es@.take(i + 1).drop_last() =~= es@.take(i as int));
            assert(es@.take(i + 1).last() == es@[i as int]);
        }
        let e: InventoryEntry = es[i];
        if let Some(d) = data[i] {
            r.set(e.slot, Item { item: d, guid: e.item_guid, amount: e.amount, creator: e.creator_guid });
        }
        i += 1;
    }
    assert(es@.take(i as int) =~= es@);
    r
}

fn look_up(es: &Vec<InventoryEntry>) -> (r: Vec<Option<ItemData>>)
    ensures
        r@ == data_of(es@),
{
    let mut r: Vec<Option<ItemData>> = Vec::new();
    let mut i: usize = 0;
    while i < es.len()
        invariant
            i <= es@.len(),
            r@.len() == i,
            forall|j: int| 0 <= j < i ==> #[trigger] r@[j] == item::item_data(es@[j].item_entry),
        decreases es.len() - i,
    {
        r.push(item::lookup_item(es[i].item_entry));
        i += 1;
    }
    assert(r@ =~= data_of(es@));
    r
}

impl CharacterSnapshot {
    /// What is kept of a character.
    pub fn capture(c: &Character) -> (r: Self)
        ensures
            keeps(r, *c),
    {
        CharacterSnapshot {
            guid: c.guid,
            name: c.name.clone(),
            account: c.account.clone(),
            race: c.race,
            class: c.class,
            gender: c.gender,
            skin: c.skin,
            face: c.face,
            hairstyle: c.hairstyle,
            haircolor: c.haircolor,
            facialhair: c.facialhair,
            level: c.level,
            area: c.area,
            map: c.map,
            x: c.info.position.x,
            y: c.info.position.y,
            z: c.info.position.z,
            orientation: c.info.orientation,
            movement_speed: c.movement_speed,
            inventory: keep_items(&c.inventory),
        }
    }

    /// Bring a character back. Items that are no longer known are lost.
    pub fn into_character(self, at: Cells, health: u32) -> (r: Character)
        requires
            fit(self.inventory@),
        ensures
            comes_back(r, self, at, health),
    {
        let data = look_up(&self.inventory);
        let inventory = unpack_items(&self.inventory, &data);
        Character {
            guid: self.guid,
            name: self.name,
            account: self.account,
            race: self.race,
            class: self.class,
            gender: self.gender,
            skin: self.skin,
            face: self.face,
            hairstyle: self.hairstyle,
            haircolor: self.haircolor,
            facialhair: self.facialhair,
            level: self.level,
            area: self.area,
            map: self.map,
            info: MovementInfo {
                flags: 0,
                timestamp: 0,
                position: Place { x: self.x, y: self.y, z: self.z, cell: at.cell, grid: at.grid },
                orientation: self.orientation,
                fall_time: 0,
            },
            movement_speed: if 0 < self.movement_speed && self.movement_speed <= 0x7f80_0000 {
                self.movement_speed
            } else {
                character::DEFAULT_RUNNING_SPEED
            },
            target: 0,
            attacking: false,
            auto_attack_timer: 0,
            inventory,
            root_until: None,
            current_health: health,
            max_health: health,
            time_of_death: None,
        }
    }
}

/// Whether `s` is what is kept of the creature `c`.
pub open spec fn keeps_creature(s: CreatureSnapshot, c: Creature) -> bool {
    &&& s.guid == c.guid
    &&& s.name == c.name
    &&& s.map == c.map
    &&& s.level == c.level
    &&& s.display_id == c.display_id
    &&& s.entry == c.entry
    &&& s.faction_template == c.faction_template
    &&& s.x == c.info.position.x
    &&& s.y == c.info.position.y
    &&& s.z == c.info.position.z
    &&& s.orientation == c.info.orientation
    &&& s.health == c.health
    &&& s.max_health == c.max_health
}

impl CreatureSnapshot {
    pub fn capture(c: &Creature) -> (r: Self)
        ensures
            keeps_creature(r, *c),
    {
        CreatureSnapshot {
            guid: c.guid,
            name: c.name.clone(),
            map: c.map,
            level: c.level,
            display_id: c.display_id,
            entry: c.entry,
            faction_template: c.faction_template,
            x: c.info.position.x,
            y: c.info.position.y,
            z: c.info.position.z,
            orientation: c.info.orientation,
            health: c.health,
            max_health: c.max_health,
        }
    }
}

/// Whether `cs` are the characters who come back of `ss`.
pub open spec fn all_come_back(
    cs: Seq<Character>,
    ss: Seq<CharacterSnapshot>,
    at: Seq<Cells>,
    health: u32,
) -> bool {
    &&& cs.len() == ss.len()
    &&& forall|i: int| 0 <= i < ss.len() ==> comes_back(#[trigger] cs[i], ss[i], at[i], health)
}

impl WorldSnapshot {
    /// What is kept of a world: every character, and the creatures by the order of
    /// their keys.
    pub fn capture(db: &WorldDatabase, creatures: &Slab<Creature>) -> (r: Self)
        ensures
            r.next_guid == db@.next_guid,
            r.characters@.len() == db@.rows.len(),
            forall|i: int|
                0 <= i < db@.rows.len() ==> keeps(#[trigger] r.characters@[i], db@.rows[i]),
            r.creatures@.len() == slabs::ordered(slabs::creatures(*creatures).dom()).len(),
            forall|i: int|
                0 <= i < r.creatures@.len() ==> keeps_creature(
                    #[trigger] r.creatures@[i],
                    slabs::creatures(*creatures)[slabs::ordered(slabs::creatures(*creatures).dom())[i]],
                ),
    {
        let rows = db.all_characters();
        let mut kept: Vec<CharacterSnapshot> = Vec::new();
        let mut i: usize = 0;
        while i < rows.len()
            invariant
                i <= rows@.len(),
                kept@.len() == i,
                forall|j: int| 0 <= j < i ==> keeps(#[trigger] kept@[j], rows@[j]),
            decreases rows.len() - i,
        {
            kept.push(CharacterSnapshot::capture(&rows[i]));
            i += 1;
        }
        let keys = slabs::creatures_keys(creatures);
        proof {
            slabs::ordered_is(keys@, slabs::creatures(*creatures).dom());
        }
        let mut beasts: Vec<CreatureSnapshot> = Vec::new();
        let mut k: usize = 0;
        while k < keys.len()
            invariant
                k <= keys@.len(),
                slabs::in_order(keys@, slabs::creatures(*creatures).dom()),
                beasts@.len() == k,
                forall|j: int|
                    0 <= j < k ==> keeps_creature(#[trigger] beasts@[j], slabs::creatures(*creatures)[keys@[j]]),
            decreases keys.len() - k,
        {
            let key: usize = keys[k];
            assert(keys@.contains(key));
            match slabs::creatures_get(creatures, key) {
                Some(c) => {
                    beasts.push(CreatureSnapshot::capture(c));
                },
                None => {},
            }
            k += 1;
        }
        WorldSnapshot { next_guid: db.next_guid(), characters: kept, creatures: beasts }
    }

    /// A database with the characters who were kept. Creatures are not brought
    /// back.
    pub fn restore_db_only(self, at: &Vec<Cells>, health: u32) -> (r: WorldDatabase)
        requires
            at@.len() == self.characters@.len(),
            forall|i: int| 0 <= i < self.characters@.len() ==> fit((#[trigger] self.characters@[i]).inventory@),
        ensures
            r.wf(),
            exists|cs: Seq<Character>|
                #[trigger] all_come_back(cs, self.characters@, at@, health) && r@ == (DbView {
                    next_guid: self.next_guid,
                    ..database::empty_db().all_entered(cs)
                }),
    {
        let ghost input = self.characters@;
        let mut rest = self.characters;
        let mut cs: Vec<Character> = Vec::new();
        let mut i: usize = 0;
        while rest.len() > 0
            invariant
                i + rest@.len() == input.len(),
                at@.len() == input.len(),
                rest@ == input.skip(i as int),
                cs@.len() == i,
                forall|j: int| 0 <= j < input.len() ==> fit((#[trigger] input[j]).inventory@),
                forall|j: int| 0 <= j < i ==> comes_back(#[trigger] cs@[j], input[j], at@[j], health),
            decreases rest.len(),
        {
            let s = rest.remove(0);
            assert(s == input[i as int]);
            assert(i < at.len());
            cs.push(s.into_character(at[i], health));
            i += 1;
            assert(rest@ =~= input.skip(i as int));
        }
        assert(all_come_back(cs@, input, at@, health));
        WorldDatabase::from_parts(cs, self.next_guid)
    }
}

/// Whether the item data says of each item what the item holds.
pub open spec fn known(slots: Seq<Option<Item>>) -> bool {
    forall|i: int|
        0 <= i < slots.len() && slots[i] is Some ==> item::item_data((#[trigger] slots[i])->0.item.entry) == Some(
            slots[i]->0.item,
        )
}

proof fn lemma_unpacked_prefix(es: Seq<InventoryEntry>, a: Seq<Option<ItemData>>, b: Seq<Option<ItemData>>)
    requires
        es.len() <= a.len(),
        es.len() <= b.len(),
        forall|i: int| 0 <= i < es.len() ==> a[i] == b[i],
    ensures
        unpacked(es, a) == unpacked(es, b),
    decreases es.len(),
{
    if es.len() > 0 {
        lemma_unpacked_prefix(es.drop_last(), a, b);
    }
}

proof fn lemma_unpack_entries(slots: Seq<Option<Item>>, n: nat)
    requires
        slots.len() == inventory::SLOT_COUNT,
        n <= slots.len(),
        known(slots),
    ensures
        fit(entries(slots, n)),
        unpacked(entries(slots, n), data_of(entries(slots, n))) == Seq::new(
            inventory::SLOT_COUNT as nat,
            |i: int|
                if i < n {
                    slots[i]
                } else {
                    None
                },
        ),
    decreases n,
{
    let now = Seq::new(
        inventory::SLOT_COUNT as nat,
        |i: int|
            if i < n {
                slots[i]
            } else {
                None
            },
    );
    let es = entries(slots, n);
    if n == 0 {
        assert(unpacked(es, data_of(es)) =~= now);
    } else {
        let m = (n - 1) as nat;
        lemma_unpack_entries(slots, m);
        let before = entries(slots, m);
        match slots[n - 1] {
            Some(i) => {
                assert(es.drop_last() =~= before);
                lemma_unpacked_prefix(before, data_of(es), data_of(before));
                assert(es.last() == entry_of(n - 1, i));
                assert(item::item_data(slots[n - 1]->0.item.entry) == Some(i.item));
                assert(unpacked(es, data_of(es)) =~= now);
            },
            None => {
                assert(unpacked(es, data_of(es)) =~= now);
            },
        }
    }
}

/// What a character carries is what they carry when they come back, as long as
/// the items are known.
pub proof fn what_is_carried_comes_back(slots: Seq<Option<Item>>)
    requires
        slots.len() == inventory::SLOT_COUNT,
        known(slots),
    ensures
        fit(entries(slots, inventory::SLOT_COUNT as nat)),
        unpacked(
            entries(slots, inventory::SLOT_COUNT as nat),
            data_of(entries(slots, inventory::SLOT_COUNT as nat)),
        ) == slots,
{
    lemma_unpack_entries(slots, inventory::SLOT_COUNT as nat);
    assert(Seq::new(
        inventory::SLOT_COUNT as nat,
        |i: int|
            if i < inventory::SLOT_COUNT {
                slots[i]
            } else {
                None
            },
    ) =~= slots);
}

/// A character who is kept and comes back is the same, but that they stand still,
/// fight nobody and have full health.
pub proof fn who_is_kept_comes_back(
    c: Character,
    s: CharacterSnapshot,
    back: Character,
    at: Cells,
    health: u32,
)
    requires
        keeps(s, c),
        comes_back(back, s, at, health),
        known(c.inventory@),
        0 < c.movement_speed <= 0x7f80_0000,
        at.cell == c.info.position.cell,
        at.grid == c.info.position.grid,
    ensures
        back.inventory@ == c.inventory@,
        back == (Character {
            info: MovementInfo { flags: 0, timestamp: 0, fall_time: 0, ..c.info },
            target: 0,
            attacking: false,
            auto_attack_timer: 0,
            inventory: back.inventory,
            root_until: None,
            current_health: health,
            max_health: health,
            time_of_death: None,
            ..c
        }),
{
    what_is_carried_comes_back(c.inventory@);
}

/// A character who is kept and brought back is who they were, where they were and with what
/// they carried; they are unhurt and at rest.
pub proof fn a_kept_character_is_brought_back(
    c: &Character,
    s: CharacterSnapshot,
    at: Cells,
    health: u32,
    back: Character,
    i: int,
)
    requires
        call_ensures(CharacterSnapshot::capture, (c,), s),
        call_ensures(CharacterSnapshot::into_character, (s, at, health), back),
        known(c.inventory@),
    ensures
        back.guid == c.guid && back.name == c.name && back.account == c.account,
        back.race == c.race && back.class == c.class && back.gender == c.gender && back.level == c.level,
        back.skin == c.skin && back.face == c.face && back.hairstyle == c.hairstyle && back.haircolor == c.haircolor
            && back.facialhair == c.facialhair,
        back.area == c.area && back.map == c.map,
        back.info.position.x == c.info.position.x && back.info.position.y == c.info.position.y
            && back.info.position.z == c.info.position.z && back.info.orientation == c.info.orientation,
        back.info.position.cell == at.cell && back.info.position.grid == at.grid && back.info.flags == 0,
        0 < c.movement_speed <= 0x7f80_0000 ==> back.movement_speed == c.movement_speed,
        c.movement_speed == 0 ==> back.movement_speed == 0x40e0_0000,
        back.current_health == health && back.max_health == health && back.time_of_death is None,
        back.target == 0 && !back.attacking && back.root_until is None,
        0 <= i < 113 ==> back.inventory@[i] == c.inventory@[i],
{
    what_is_carried_comes_back(c.inventory@);
}

/// What is kept of a creature is what it is and where it stands.
pub proof fn a_creature_is_kept_as_it_is(c: &Creature, s: CreatureSnapshot)
    requires
        call_ensures(CreatureSnapshot::capture, (c,), s),
    ensures
        s.guid == c.guid && s.name == c.name && s.map == c.map && s.level == c.level,
        s.display_id == c.display_id && s.entry == c.entry && s.faction_template == c.faction_template,
        s.x == c.info.position.x && s.y == c.info.position.y && s.z == c.info.position.z && s.orientation
            == c.info.orientation,
        s.health == c.health && s.max_health == c.max_health,
{
}

/// Everybody is kept, and nobody twice: as many characters as there are, each with its own
/// guid and place, and as many creatures.
pub proof fn everybody_is_kept(db: &WorldDatabase, creatures: &Slab<Creature>, r: WorldSnapshot, i: int)
    requires
        call_ensures(WorldSnapshot::capture, (db, creatures), r),
    ensures
        r.next_guid == db@.next_guid,
        r.characters@.len() == db@.rows.len(),
        0 <= i < db@.rows.len() ==> r.characters@[i].guid == db@.rows[i].guid && r.characters@[i].name
            == db@.rows[i].name && r.characters@[i].account == db@.rows[i].account && r.characters@[i].map
            == db@.rows[i].map && r.characters@[i].x == db@.rows[i].info.position.x && r.characters@[i].y
            == db@.rows[i].info.position.y && r.characters@[i].z == db@.rows[i].info.position.z
            && r.characters@[i].level == db@.rows[i].level,
{
    if 0 <= i < db@.rows.len() {
        assert(keeps(r.characters@[i], db@.rows[i]));
    }
}

/// A database that is brought back has everybody who was kept, in their order.
pub proof fn everybody_is_brought_back(s: WorldSnapshot, at: &Vec<Cells>, health: u32, r: WorldDatabase, i: int)
    requires
        at@.len() == s.characters@.len(),
        forall|i: int| 0 <= i < s.characters@.len() ==> fit((#[trigger] s.characters@[i]).inventory@),
        call_ensures(WorldSnapshot::restore_db_only, (s, at, health), r),
    ensures
        r@.next_guid == s.next_guid,
        r@.rows.len() == s.characters@.len(),
        0 <= i < s.characters@.len() ==> r@.rows[i].guid == s.characters@[i].guid && r@.rows[i].name
            == s.characters@[i].name && r@.rows[i].account == s.characters@[i].account && r@.rows[i].map
            == s.characters@[i].map && r@.rows[i].info.position.x == s.characters@[i].x
            && r@.rows[i].info.position.y == s.characters@[i].y && r@.rows[i].info.position.z == s.characters@[i].z
            && r@.rows[i].level == s.characters@[i].level && r@.rows[i].current_health == health,
{
    let cs = choose|cs: Seq<Character>|
        #[trigger] all_come_back(cs, s.characters@, at@, health) && r@ == (DbView {
            next_guid: s.next_guid,
            ..database::empty_db().all_entered(cs)
        });
    database::lemma_all_rows(database::empty_db(), cs);
    assert(r@.rows =~= cs);
    if 0 <= i < s.characters@.len() {
        assert(comes_back(cs[i], s.characters@[i], at@[i], health));
    }
}

proof fn lemma_unpacked(es: Seq<InventoryEntry>, data: Seq<Option<ItemData>>, i: int)
    requires
        es.len() <= data.len(),
        fit(es),
    ensures
        unpacked(es, data).len() == 113,
        0 <= i < es.len() && data[i] is Some && (forall|j: int|
            i < j < es.len() ==> (#[trigger] es[j]).slot != es[i].slot || data[j] is None) ==> unpacked(
            es,
            data,
        )[es[i].slot as int] == Some(
            Item { item: data[i]->0, guid: es[i].item_guid, amount: es[i].amount, creator: es[i].creator_guid },
        ),
    decreases es.len(),
{
    if es.len() > 0 {
        let init = es.drop_last();
        assert forall|j: int| 0 <= j < init.len() implies (#[trigger] init[j]).slot < inventory::SLOT_COUNT by {
            assert(init[j] == es[j]);
        }
        lemma_unpacked(init, data, i);
        let n = es.len() - 1;
        assert(es[n] == es.last());
        assert(es[n].slot < inventory::SLOT_COUNT);
        if 0 <= i < n && (forall|j: int|
            i < j < es.len() ==> (#[trigger] es[j]).slot != es[i].slot || data[j] is None) {
            assert(init[i] == es[i]);
            assert(es[n].slot != es[i].slot || data[n] is None);
            assert forall|j: int| i < j < init.len() implies (#[trigger] init[j]).slot != init[i].slot
                || data[j] is None by {
                assert(init[j] == es[j]);
            }
            assert(es[i].slot < inventory::SLOT_COUNT);
        }
    }
}

/// An item that is known is back in its slot as it was, unless a later one has the slot.
pub proof fn an_item_is_back_in_its_slot(es: &Vec<InventoryEntry>, data: &Vec<Option<ItemData>>, r: Inventory, i: int)
    requires
        fit(es@),
        data@.len() == es@.len(),
        call_ensures(unpack_items, (es, data), r),
        0 <= i < es@.len(),
        data@[i] is Some,
        forall|j: int| i < j < es@.len() ==> (#[trigger] es@[j]).slot != es@[i].slot || data@[j] is None,
    ensures
        r@[es@[i].slot as int] == Some(
            Item {
                item: data@[i]->0,
                guid: es@[i].item_guid,
                amount: es@[i].amount,
                creator: es@[i].creator_guid,
            },
        ),
{
    lemma_unpacked(es@, data@, i);
}

} // verus!

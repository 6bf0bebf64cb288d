//! Puppets that walk about like players.
use crate::character;
use crate::clock;
use crate::dice;
use crate::item;
use crate::item::ItemData;
use crate::movement;
use crate::movement::{MovementInfo, Place};
use crate::numeric;
use vstd::prelude::*;

verus! {

/// The slots of equipment that others see.
pub const NUM_VISIBLE_SLOTS: usize = 19;

pub const SLOT_HEAD: usize = 0;

pub const SLOT_SHOULDERS: usize = 2;

pub const SLOT_CHEST: usize = 4;

pub const SLOT_WAIST: usize = 5;

pub const SLOT_LEGS: usize = 6;

pub const SLOT_MAIN_HAND: usize = 15;

pub const GATE: (u32, u32, u32) = (0xc60d_ed0f, 0x43d1_91fb, 0x42b9_235a);

pub const BRIDGE_MIDDLE: (u32, u32, u32) = (0xc60c_c0e5, 0x43ef_0505, 0x42c1_0578);

pub const BRIDGE_END: (u32, u32, u32) = (0xc60b_e7f9, 0x4402_5033, 0x42c0_b5f1);

pub const LEFT_WAY_1: (u32, u32, u32) = (0xc60c_34c0, 0x440b_5a4b, 0x42bb_b1ae);

pub const LEFT_WAY_2: (u32, u32, u32) = (0xc60b_bc5c, 0x440b_60fb, 0x42bb_ab6b);

pub const RIGHT_WAY_1: (u32, u32, u32) = (0xc60b_8227, 0x43f7_7576, 0x42bb_ae0c);

pub const RIGHT_WAY_2: (u32, u32, u32) = (0xc60b_3e3d, 0x43fd_b979, 0x42bb_b7a3);

pub const GATEWAY_MIDDLE: (u32, u32, u32) = (0xc60b_7bd2, 0x4407_95f0, 0x42bc_93d7);

pub const GATEWAY_END: (u32, u32, u32) = (0xc60a_eb0b, 0x440e_eee4, 0x42b8_f998);

pub const TRADE_DISTRICT_MIDDLE: (u32, u32, u32) = (0xc609_e169, 0x441d_20ef, 0x42bb_de16);

/// The way from the south gate of Stormwind to the fountain of the trade district,
/// on the left.
pub const LEFT_ROUTE: [(u32, u32, u32); 8] = [
    GATE,
    BRIDGE_MIDDLE,
    BRIDGE_END,
    LEFT_WAY_1,
    LEFT_WAY_2,
    GATEWAY_MIDDLE,
    GATEWAY_END,
    TRADE_DISTRICT_MIDDLE,
];

/// The same way, on the right.
pub const RIGHT_ROUTE: [(u32, u32, u32); 8] = [
    GATE,
    BRIDGE_MIDDLE,
    BRIDGE_END,
    RIGHT_WAY_1,
    RIGHT_WAY_2,
    GATEWAY_MIDDLE,
    GATEWAY_END,
    TRADE_DISTRICT_MIDDLE,
];

/// The races and classes of the Horde, by their numbers.
pub const HORDE: [(u8, u8); 20] = [
    (2, 1),
    (2, 4),
    (2, 3),
    (2, 7),
    (2, 9),
    (6, 1),
    (6, 11),
    (6, 3),
    (6, 7),
    (8, 1),
    (8, 4),
    (8, 3),
    (8, 8),
    (8, 5),
    (8, 7),
    (5, 1),
    (5, 4),
    (5, 8),
    (5, 5),
    (5, 9),
];

/// A puppet.
#[derive(Debug)]
pub struct SimulatedPlayer {
    pub guid: u64,
    pub name: String,
    pub race: u8,
    pub class: u8,
    pub gender: u8,
    pub skin: u8,
    pub face: u8,
    pub hairstyle: u8,
    pub haircolor: u8,
    pub facialhair: u8,
    pub level: u8,
    pub map: u32,
    pub info: MovementInfo,
    pub movement_speed: u32,
    pub equipment: [Option<u32>; 19],
    pub current_wp: usize,
    pub waypoints: Vec<Place>,
    pub last_heartbeat: u64,
    pub last_advanced_at: u64,
    pub next_jump_at: u64,
    pub root_until: Option<u64>,
}

impl SimulatedPlayer {
    /// Whether the puppet is held fast.
    pub fn is_rooted(&self, now: u64) -> (r: bool)
        ensures
            r == (self.root_until is Some && self.root_until->0 > now),
    {
        match self.root_until {
            Some(t) => t > now,
            None => false,
        }
    }
}

/// `all_items` of `wow_items`. Looking up an item of it gives that item, and whatever
/// can be looked up is one of them. Their entries ascend.
#[verifier::external_body]
fn all_items() -> (r: Vec<ItemData>)
    ensures
        forall|i: int| 0 <= i < r@.len() ==> item::item_data((#[trigger] r@[i]).entry) == Some(r@[i]),
        (forall|e: u32| (#[trigger] item::item_data(e)) is Some ==> exists|i: int| 0 <= i < r@.len() && r@[i].entry == e),
        (forall|i: int, j: int| 0 <= i < j < r@.len() ==> (#[trigger] r@[i]).entry < (#[trigger] r@[j]).entry),
{
    let to_plain = |item: &wow_items::vanilla::Item| ItemData {
        entry: item.entry(),
        display_id: item.display_id(),
        inventory_type: item.inventory_type().as_int(),
        bag_family: item.bag_family().as_int(),
        max_durability: item.max_durability(),
        random_property: item.random_property(),
    };
    wow_items::vanilla::all_items().iter().map(to_plain).collect()
}

/// Entries of items, by where they are worn.
#[derive(Debug)]
pub struct EquipmentByType {
    pub head: Vec<u32>,
    pub shoulders: Vec<u32>,
    pub chest: Vec<u32>,
    pub waist: Vec<u32>,
    pub legs: Vec<u32>,
    pub main_hand: Vec<u32>,
}

/// Where an item of an inventory type is worn by a puppet: the slot, if there is
/// one.
pub open spec fn slot_of(inventory_type: u8) -> Option<usize> {
    if inventory_type == 1 {
        Some(SLOT_HEAD)
    } else if inventory_type == 3 {
        Some(SLOT_SHOULDERS)
    } else if inventory_type == 5 || inventory_type == 20 {
        Some(SLOT_CHEST)
    } else if inventory_type == 6 {
        Some(SLOT_WAIST)
    } else if inventory_type == 7 {
        Some(SLOT_LEGS)
    } else if inventory_type == 13 || inventory_type == 21 || inventory_type == 17 {
        Some(SLOT_MAIN_HAND)
    } else {
        None
    }
}

/// The entries of those of `items` that are worn in `slot`, in their order.
pub open spec fn worn_in(items: Seq<ItemData>, slot: usize) -> Seq<u32>
    decreases items.len(),
{
    if items.len() == 0 {
        Seq::empty()
    } else {
        let before = worn_in(items.drop_last(), slot);
        if slot_of(items.last().inventory_type) == Some(slot) {
            before.push(items.last().entry)
        } else {
            before
        }
    }
}

impl EquipmentByType {
    pub open spec fn sorts(&self, items: Seq<ItemData>) -> bool {
        &&& self.head@ == worn_in(items, SLOT_HEAD)
        &&& self.shoulders@ == worn_in(items, SLOT_SHOULDERS)
        &&& self.chest@ == worn_in(items, SLOT_CHEST)
        &&& self.waist@ == worn_in(items, SLOT_WAIST)
        &&& self.legs@ == worn_in(items, SLOT_LEGS)
        &&& self.main_hand@ == worn_in(items, SLOT_MAIN_HAND)
    }

    /// Sort items by where they are worn.
    pub fn of(items: &Vec<ItemData>) -> (r: Self)
        ensures
            r.sorts(items@),
    {
        let mut r = EquipmentByType {
            head: Vec::new(),
            shoulders: Vec::new(),
            chest: Vec::new(),
            waist: Vec::new(),
            legs: Vec::new(),
            main_hand: Vec::new(),
        };
        let mut i: usize = 0;
        assert(items@.take(0) =~= Seq::<ItemData>::empty());
        while i < items.len()
            invariant
                i <= items@.len(),
                r.sorts(items@.take(i as int)),
            decreases items.len() - i,
        {
            proof {
                assert(items@.take(i + 1).drop_last() =~= items@.take(i as int));
                assert(items@.take(i + 1).last() == items@[i as int]);
            }
            let t: u8 = items[i].inventory_type;
            let entry: u32 = items[i].entry;
            if t == 1 {
                r.head.push(entry);
            } else if t == 3 {
                r.shoulders.push(entry);
            } else if t == 5 || t == 20 {
                r.chest.push(entry);
            } else if t == 6 {
                r.waist.push(entry);
            } else if t == 7 {
                r.legs.push(entry);
            } else if t == 13 || t == 21 || t == 17 {
                r.main_hand.push(entry);
            }
            i += 1;
        }
        assert(items@.take(i as int) =~= items@);
        r
    }
}

/// Whether `entry` is the entry of an item that is worn in `slot`.
pub open spec fn is_worn_in(entry: u32, slot: usize) -> bool {
    item::item_data(entry) is Some && slot_of(item::item_data(entry)->0.inventory_type) == Some(slot)
}

/// Whether all of `entries` are entries of items that are worn in `slot`.
pub open spec fn all_worn_in(entries: Seq<u32>, slot: usize) -> bool {
    forall|i: int| 0 <= i < entries.len() ==> is_worn_in(#[trigger] entries[i], slot)
}

/// Whether `entries` are the entries of all items that are worn in `slot`, each once
/// and in ascending order.
pub open spec fn is_all_worn_in(entries: Seq<u32>, slot: usize) -> bool {
    &&& all_worn_in(entries, slot)
    &&& forall|e: u32| #[trigger] is_worn_in(e, slot) ==> entries.contains(e)
    &&& forall|i: int, j: int| 0 <= i < j < entries.len() ==> (#[trigger] entries[i]) < (#[trigger] entries[j])
}

proof fn lemma_worn_in(items: Seq<ItemData>, slot: usize)
    requires
        forall|i: int| 0 <= i < items.len() ==> item::item_data((#[trigger] items[i]).entry) == Some(items[i]),
        forall|i: int, j: int| 0 <= i < j < items.len() ==> (#[trigger] items[i]).entry < (#[trigger] items[j]).entry,
    ensures
        all_worn_in(worn_in(items, slot), slot),
        forall|i: int|
            0 <= i < items.len() && slot_of((#[trigger] items[i]).inventory_type) == Some(slot) ==> worn_in(
                items,
                slot,
            ).contains(items[i].entry),
        forall|i: int|
            0 <= i < worn_in(items, slot).len() ==> (#[trigger] worn_in(items, slot)[i]) <= items.last().entry,
        forall|i: int, j: int|
            0 <= i < j < worn_in(items, slot).len() ==> (#[trigger] worn_in(items, slot)[i]) < (#[trigger] worn_in(
                items,
                slot,
            )[j]),
    decreases items.len(),
{
    if items.len() > 0 {
        let front = items.drop_last();
        let n = front.len() as int;
        let before = worn_in(front, slot);
        assert forall|i: int| 0 <= i < n implies item::item_data((#[trigger] front[i]).entry) == Some(front[i]) by {
            assert(front[i] == items[i]);
        }
        assert forall|i: int, j: int| 0 <= i < j < n implies (#[trigger] front[i]).entry < (#[trigger] front[j]).entry by {
            assert(front[i] == items[i] && front[j] == items[j]);
        }
        lemma_worn_in(front, slot);
        assert(items.last() == items[n]);
        assert forall|i: int| 0 <= i < before.len() implies (#[trigger] before[i]) < items.last().entry by {
            if n > 0 {
                assert(front.last() == items[n - 1]);
                assert(items[n - 1].entry < items[n].entry);
            }
        }
        let all = worn_in(items, slot);
        assert forall|i: int|
            0 <= i < items.len() && slot_of((#[trigger] items[i]).inventory_type) == Some(slot) implies all.contains(
            items[i].entry,
        ) by {
            if i < n {
                assert(front[i] == items[i]);
                let k = choose|k: int| 0 <= k < before.len() && before[k] == items[i].entry;
                assert(all[k] == items[i].entry);
            } else {
                assert(all[before.len() as int] == items[i].entry);
            }
        }
    }
}

proof fn lemma_all_worn_in(items: Seq<ItemData>, slot: usize)
    requires
        forall|i: int| 0 <= i < items.len() ==> item::item_data((#[trigger] items[i]).entry) == Some(items[i]),
        forall|e: u32|
            (#[trigger] item::item_data(e)) is Some ==> exists|i: int| 0 <= i < items.len() && items[i].entry == e,
        forall|i: int, j: int| 0 <= i < j < items.len() ==> (#[trigger] items[i]).entry < (#[trigger] items[j]).entry,
    ensures
        is_all_worn_in(worn_in(items, slot), slot),
{
    lemma_worn_in(items, slot);
    assert forall|e: u32| #[trigger] is_worn_in(e, slot) implies worn_in(items, slot).contains(e) by {
        let i = choose|i: int| 0 <= i < items.len() && items[i].entry == e;
        assert(item::item_data(items[i].entry) == Some(items[i]));
    }
}

/// All items, by where they are worn.
pub fn equipment_index() -> (r: EquipmentByType)
    ensures
        is_all_worn_in(r.head@, SLOT_HEAD),
        is_all_worn_in(r.shoulders@, SLOT_SHOULDERS),
        is_all_worn_in(r.chest@, SLOT_CHEST),
        is_all_worn_in(r.waist@, SLOT_WAIST),
        is_all_worn_in(r.legs@, SLOT_LEGS),
        is_all_worn_in(r.main_hand@, SLOT_MAIN_HAND),
{
    let items = all_items();
    proof {
        lemma_all_worn_in(items@, SLOT_HEAD);
        lemma_all_worn_in(items@, SLOT_SHOULDERS);
        lemma_all_worn_in(items@, SLOT_CHEST);
        lemma_all_worn_in(items@, SLOT_WAIST);
        lemma_all_worn_in(items@, SLOT_LEGS);
        lemma_all_worn_in(items@, SLOT_MAIN_HAND);
    }
    EquipmentByType::of(&items)
}

/// The one of `v` that is picked by the number that comes after `x`; of nothing,
/// nothing.
pub open spec fn picked<T>(v: Seq<T>, x: u64) -> Option<T> {
    if v.len() == 0 {
        None
    } else {
        Some(v[(dice::after(x) as usize) as int % v.len() as int])
    }
}

/// The state after one of `v` was picked. Nothing is drawn for nothing.
pub open spec fn past<T>(v: Seq<T>, x: u64) -> u64 {
    if v.len() == 0 {
        x
    } else {
        dice::after(x)
    }
}

/// Pick one.
pub fn pick<T: Copy>(v: &Vec<T>, state: &mut u64) -> (r: Option<T>)
    ensures
        r == picked(v@, *old(state)),
        *final(state) == past(v@, *old(state)),
{
    if v.len() == 0 {
        None
    } else {
        let r: usize = dice::next_rand(state) as usize;
        Some(v[r % v.len()])
    }
}

/// A race and a class of the Horde.
pub fn pick_horde_race_class(state: &mut u64) -> (r: (u8, u8))
    ensures
        r == HORDE@[(dice::after(*old(state)) as usize) as int % 20],
        *final(state) == dice::after(*old(state)),
{
    let r: usize = dice::next_rand(state) as usize;
    HORDE[r % 20]
}

/// 0 for male and 1 for female.
pub fn pick_gender(state: &mut u64) -> (r: u8)
    ensures
        r == dice::after(*old(state)) % 2,
        *final(state) == dice::after(*old(state)),
{
    (dice::next_rand(state) % 2) as u8
}

/// The stretch of a way on which a distance lies, given the distances from the
/// start to its points: the first whose end is not short of it, but no later than
/// the last.
pub open spec fn stretch(cum: Seq<u32>, t: u32, from: int) -> int
    decreases cum.len() - from,
{
    if from + 1 < cum.len() - 1 && cum[from + 1] < t {
        stretch(cum, t, from + 1)
    } else {
        from
    }
}

/// Where on a way of at least two points a puppet starts: the stretch, and the
/// point it walks to.
pub fn route_segment(cum: &Vec<u32>, t: u32) -> (r: (usize, usize))
    requires
        cum@.len() >= 2,
    ensures
        r.0 == stretch(cum@, t, 0),
        r.1 == r.0 + 1,
        1 <= r.1 < cum@.len(),
{
    let last: usize = cum.len() - 1;
    let mut seg: usize = 0;
    while seg + 1 < last && cum[seg + 1] < t
        invariant
            seg < last,
            last == cum@.len() - 1,
            stretch(cum@, t, 0) == stretch(cum@, t, seg as int),
        decreases last - seg,
    {
        seg += 1;
    }
    (seg, seg + 1)
}

/// What is drawn for a puppet.
#[derive(Debug)]
pub struct HordeDraw {
    pub race: u8,
    pub class: u8,
    pub gender: u8,
    pub equipment: [Option<u32>; 19],
    /// Whether it takes the way on the left.
    pub left: bool,
    /// How far its points of the way lie off, two numbers for each.
    pub scatter: Vec<u32>,
    /// Where on the way it starts.
    pub start: u32,
    /// How far it lies off there.
    pub offset: (u32, u32),
    pub name: String,
    pub skin: u8,
    pub face: u8,
    pub hairstyle: u8,
    pub haircolor: u8,
    pub facialhair: u8,
    /// How long it is until the first jump.
    pub jump_after: u64,
}

/// The fraction that the number after `x` stands for.
pub open spec fn fraction(x: u64) -> u32 {
    numeric::unit_bits(numeric::top_bits(dice::after(x))) as u32
}

/// The fractions that the next `n` numbers stand for.
pub open spec fn fractions(x: u64, n: nat) -> Seq<u32> {
    Seq::new(n, |i: int| fraction(dice::after_n(x, i as nat)))
}

/// The state after everything that is worn was drawn, from the state `x` before.
pub open spec fn dressed(eq: EquipmentByType, x: u64) -> u64 {
    let a = past(eq.head@, x);
    let b = past(eq.shoulders@, a);
    let c = past(eq.chest@, b);
    let d = past(eq.waist@, c);
    let e = past(eq.legs@, d);
    past(eq.main_hand@, e)
}

/// What is worn, from the state `x`.
pub open spec fn wears(equipment: Seq<Option<u32>>, eq: EquipmentByType, x: u64) -> bool {
    let a = past(eq.head@, x);
    let b = past(eq.shoulders@, a);
    let c = past(eq.chest@, b);
    let d = past(eq.waist@, c);
    let e = past(eq.legs@, d);
    &&& equipment.len() == NUM_VISIBLE_SLOTS
    &&& equipment[SLOT_HEAD as int] == picked(eq.head@, x)
    &&& equipment[SLOT_SHOULDERS as int] == picked(eq.shoulders@, a)
    &&& equipment[SLOT_CHEST as int] == picked(eq.chest@, b)
    &&& equipment[SLOT_WAIST as int] == picked(eq.waist@, c)
    &&& equipment[SLOT_LEGS as int] == picked(eq.legs@, d)
    &&& equipment[SLOT_MAIN_HAND as int] == picked(eq.main_hand@, e)
    &&& forall|i: int|
        0 <= i < NUM_VISIBLE_SLOTS && i != SLOT_HEAD && i != SLOT_SHOULDERS && i != SLOT_CHEST && i
            != SLOT_WAIST && i != SLOT_LEGS && i != SLOT_MAIN_HAND ==> #[trigger] equipment[i] is None
}

/// Draw what a puppet wears.
pub fn draw_equipment(eq: &EquipmentByType, state: &mut u64) -> (r: [Option<u32>; 19])
    ensures
        wears(r@, *eq, *old(state)),
        *final(state) == dressed(*eq, *old(state)),
{
    let mut r: [Option<u32>; 19] = [None; 19];
    r[SLOT_HEAD] = pick(&eq.head, state);
    r[SLOT_SHOULDERS] = pick(&eq.shoulders, state);
    r[SLOT_CHEST] = pick(&eq.chest, state);
    r[SLOT_WAIST] = pick(&eq.waist, state);
    r[SLOT_LEGS] = pick(&eq.legs, state);
    r[SLOT_MAIN_HAND] = pick(&eq.main_hand, state);
    r
}

/// Draw fractions.
fn draw_fractions(n: usize, state: &mut u64) -> (r: Vec<u32>)
    ensures
        r@ == fractions(*old(state), n as nat),
        *final(state) == dice::after_n(*old(state), n as nat),
{
    let ghost x = *state;
    let mut r: Vec<u32> = Vec::new();
    let mut i: usize = 0;
    while i < n
        invariant
            i <= n,
            *state == dice::after_n(x, i as nat),
            r@ == fractions(x, i as nat),
        decreases n - i,
    {
        let drawn: u64 = dice::next_rand(state);
        r.push(numeric::rand_unit_f32(drawn));
        i += 1;
        assert(r@ =~= fractions(x, i as nat));
    }
    r
}

impl HordeDraw {
    /// Whether this is what is drawn from the state `x`. The numbers are drawn in
    /// this order: race and class, gender, what is worn, the way, how its points
    /// lie off, where it starts and how far off, and the rest.
    pub open spec fn is_drawn(&self, eq: EquipmentByType, x: u64) -> bool {
        let who = dice::after(x);
        let gender = dice::after(who);
        let way = dice::after(dressed(eq, gender));
        let scattered = dice::after_n(way, 16);
        let placed = dice::after_n(scattered, 3);
        let name = dice::after(placed);
        let named = dice::after_n(name, (name % 6 + 5) as nat);
        &&& (self.race, self.class) == HORDE@[(who as usize) as int % 20]
        &&& self.gender == gender % 2
        &&& wears(self.equipment@, eq, gender)
        &&& self.left == (way % 2 == 0)
        &&& self.scatter@ == fractions(way, 16)
        &&& self.start == fractions(scattered, 3)[0]
        &&& self.offset.0 == fractions(scattered, 3)[1]
        &&& self.offset.1 == fractions(scattered, 3)[2]
        &&& self.name@ == dice::letters(name, (name % 6 + 5) as nat)
        &&& self.skin == dice::after_n(named, 1) % 10
        &&& self.face == dice::after_n(named, 2) % 10
        &&& self.hairstyle == dice::after_n(named, 3) % 10
        &&& self.haircolor == dice::after_n(named, 4) % 10
        &&& self.facialhair == dice::after_n(named, 5) % 6
        &&& self.jump_after == (5000 + dice::after_n(named, 6) % 10000) * clock::MILLISECOND
    }

    /// The state after all of it was drawn.
    pub open spec fn state_after(eq: EquipmentByType, x: u64) -> u64 {
        let gender = dice::after(dice::after(x));
        let way = dice::after(dressed(eq, gender));
        let name = dice::after(dice::after_n(dice::after_n(way, 16), 3));
        dice::after_n(dice::after_n(name, (name % 6 + 5) as nat), 6)
    }

    pub fn draw(eq: &EquipmentByType, state: &mut u64) -> (r: Self)
        ensures
            r.is_drawn(*eq, *old(state)),
            *final(state) == Self::state_after(*eq, *old(state)),
    {
        let (race, class) = pick_horde_race_class(state);
        let gender: u8 = pick_gender(state);
        let equipment: [Option<u32>; 19] = draw_equipment(eq, state);
        let left: bool = dice::next_rand(state) % 2 == 0;
        let scatter = draw_fractions(16, state);
        let placing = draw_fractions(3, state);
        let name = dice::random_name(state);
        let ghost named = *state;
        proof {
            reveal_with_fuel(dice::after_n, 7);
        }
        let skin: u8 = (dice::next_rand(state) % 10) as u8;
        let face: u8 = (dice::next_rand(state) % 10) as u8;
        let hairstyle: u8 = (dice::next_rand(state) % 10) as u8;
        let haircolor: u8 = (dice::next_rand(state) % 10) as u8;
        let facialhair: u8 = (dice::next_rand(state) % 6) as u8;
        let jump: u64 = dice::next_rand(state) % 10000;
        HordeDraw {
            race,
            class,
            gender,
            equipment,
            left,
            scatter,
            start: placing[0],
            offset: (placing[1], placing[2]),
            name,
            skin,
            face,
            hairstyle,
            haircolor,
            facialhair,
            jump_after: (5000 + jump) * clock::MILLISECOND,
        }
    }
}

/// The map of the Eastern Kingdoms.
pub const EASTERN_KINGDOMS: u32 = 0;

/// A puppet of the Horde that walks to the point `current_wp` of its way.
pub fn random_horde_at(
    guid: u64,
    draw: HordeDraw,
    waypoints: Vec<Place>,
    current_wp: usize,
    position: Place,
    orientation: u32,
    now: u64,
) -> (r: SimulatedPlayer)
    requires
        current_wp < waypoints@.len(),
    ensures
        r.current_wp < r.waypoints@.len(),
        r == (SimulatedPlayer {
            guid,
            name: draw.name,
            race: draw.race,
            class: draw.class,
            gender: draw.gender,
            skin: draw.skin,
            face: draw.face,
            hairstyle: draw.hairstyle,
            haircolor: draw.haircolor,
            facialhair: draw.facialhair,
            level: character::MAX_LEVEL,
            map: EASTERN_KINGDOMS,
            info: MovementInfo { flags: movement::FORWARD, timestamp: 0, position, orientation, fall_time: 0 },
            movement_speed: character::DEFAULT_RUNNING_SPEED,
            equipment: draw.equipment,
            current_wp,
            waypoints,
            last_heartbeat: now,
            last_advanced_at: now,
            next_jump_at: clock::later_spec(now, draw.jump_after),
            root_until: None,
        }),
{
    SimulatedPlayer {
        guid,
        name: draw.name,
        race: draw.race,
        class: draw.class,
        gender: draw.gender,
        skin: draw.skin,
        face: draw.face,
        hairstyle: draw.hairstyle,
        haircolor: draw.haircolor,
        facialhair: draw.facialhair,
        level: character::MAX_LEVEL,
        map: EASTERN_KINGDOMS,
        info: MovementInfo { flags: movement::FORWARD, timestamp: 0, position, orientation, fall_time: 0 },
        movement_speed: character::DEFAULT_RUNNING_SPEED,
        equipment: draw.equipment,
        current_wp,
        waypoints,
        last_heartbeat: now,
        last_advanced_at: now,
        next_jump_at: clock::later(now, draw.jump_after),
        root_until: None,
    }
}

/// What a puppet wears is worn where it wears it.
pub proof fn puppets_are_dressed_well(
    equipment: Seq<Option<u32>>,
    eq: EquipmentByType,
    x: u64,
    slot: usize,
)
    requires
        wears(equipment, eq, x),
        all_worn_in(eq.head@, SLOT_HEAD),
        all_worn_in(eq.shoulders@, SLOT_SHOULDERS),
        all_worn_in(eq.chest@, SLOT_CHEST),
        all_worn_in(eq.waist@, SLOT_WAIST),
        all_worn_in(eq.legs@, SLOT_LEGS),
        all_worn_in(eq.main_hand@, SLOT_MAIN_HAND),
        slot < NUM_VISIBLE_SLOTS,
        equipment[slot as int] is Some,
    ensures
        is_worn_in(equipment[slot as int]->0, slot),
{
}

/// Both ways have the same two ends.
pub proof fn the_ways_meet()
    ensures
        LEFT_ROUTE@[0] == RIGHT_ROUTE@[0],
        LEFT_ROUTE@[7] == RIGHT_ROUTE@[7],
{
}

/// Where items of a kind are worn: on the head, the shoulders, the chest, the waist, the legs
/// or in the hand; the entries of an inventory type go to the slot of their kind and keep
/// their order.
pub proof fn items_are_sorted_by_slot(items: &Vec<ItemData>, r: EquipmentByType, i: int)
    requires
        call_ensures(EquipmentByType::of, (items,), r),
        0 <= i < items@.len(),
    ensures
        items@[i].inventory_type == 1 ==> r.head@.contains(items@[i].entry),
        items@[i].inventory_type == 3 ==> r.shoulders@.contains(items@[i].entry),
        items@[i].inventory_type == 5 || items@[i].inventory_type == 20 ==> r.chest@.contains(items@[i].entry),
        items@[i].inventory_type == 6 ==> r.waist@.contains(items@[i].entry),
        items@[i].inventory_type == 7 ==> r.legs@.contains(items@[i].entry),
        items@[i].inventory_type == 13 || items@[i].inventory_type == 21 || items@[i].inventory_type == 17
            ==> r.main_hand@.contains(items@[i].entry),
{
    lemma_sorted(items@, SLOT_HEAD, i);
    lemma_sorted(items@, SLOT_SHOULDERS, i);
    lemma_sorted(items@, SLOT_CHEST, i);
    lemma_sorted(items@, SLOT_WAIST, i);
    lemma_sorted(items@, SLOT_LEGS, i);
    lemma_sorted(items@, SLOT_MAIN_HAND, i);
}

proof fn lemma_sorted(items: Seq<ItemData>, slot: usize, i: int)
    requires
        0 <= i < items.len(),
    ensures
        slot_of(items[i].inventory_type) == Some(slot) ==> worn_in(items, slot).contains(items[i].entry),
    decreases items.len(),
{
    let init = items.drop_last();
    let before = worn_in(init, slot);
    crate::aoi::lemma_push_contains(before, items.last().entry, items[i].entry);
    if i < init.len() {
        assert(init[i] == items[i]);
        lemma_sorted(init, slot, i);
    }
}

/// A puppet starts where it is put, runs to the point that it is given, is of the highest
/// level and looks as it was drawn.
pub proof fn a_puppet_is_as_drawn(
    guid: u64,
    draw: HordeDraw,
    waypoints: Vec<Place>,
    current_wp: usize,
    position: Place,
    orientation: u32,
    now: u64,
    r: SimulatedPlayer,
)
    requires
        current_wp < waypoints@.len(),
        call_ensures(random_horde_at, (guid, draw, waypoints, current_wp, position, orientation, now), r),
        now + draw.jump_after <= u64::MAX,
    ensures
        r.guid == guid && r.name == draw.name && r.race == draw.race && r.class == draw.class && r.gender
            == draw.gender && r.equipment == draw.equipment,
        r.skin == draw.skin && r.face == draw.face && r.hairstyle == draw.hairstyle && r.haircolor == draw.haircolor
            && r.facialhair == draw.facialhair,
        r.level == 60 && r.map == 0 && r.movement_speed == 0x40e0_0000,
        r.info.position == position && r.info.orientation == orientation && r.info.flags == 1,
        r.waypoints == waypoints && r.current_wp == current_wp,
        r.next_jump_at == now + draw.jump_after && r.last_heartbeat == now && r.last_advanced_at == now,
        r.root_until is None,
{
}

proof fn lemma_stretch(cum: Seq<u32>, t: u32, from: int, i: int)
    requires
        0 <= from <= i,
        i + 1 < cum.len(),
        forall|j: int| from < j <= i ==> #[trigger] cum[j] < t,
        cum[i + 1] >= t || i + 2 == cum.len(),
    ensures
        stretch(cum, t, from) == i,
    decreases i - from,
{
    if from < i {
        assert(cum[from + 1] < t);
        lemma_stretch(cum, t, from + 1, i);
    }
}

/// A puppet starts on the first stretch whose end is not short of how far it has come, and
/// walks to that end.
pub proof fn a_puppet_starts_on_its_stretch(cum: &Vec<u32>, t: u32, r: (usize, usize), i: int)
    requires
        cum@.len() >= 2,
        call_ensures(route_segment, (cum, t), r),
        0 <= i,
        i + 1 < cum@.len(),
        forall|j: int| 0 < j <= i ==> #[trigger] cum@[j] < t,
        cum@[i + 1] >= t || i + 2 == cum@.len(),
    ensures
        r.0 == i,
        r.1 == i + 1,
{
    lemma_stretch(cum@, t, 0, i);
}

/// What is drawn for a puppet is something that there is: a race and class of the Horde, one
/// of two genders, looks, a name of five to ten letters, and a first jump within five to
/// fifteen seconds.
pub proof fn what_is_drawn_for_a_puppet_exists(eq: &EquipmentByType, x: &mut u64, r: HordeDraw)
    requires
        call_ensures(HordeDraw::draw, (eq, x), r),
    ensures
        exists|i: int| 0 <= i < 20 && (r.race, r.class) == #[trigger] HORDE@[i],
        r.gender <= 1,
        r.scatter@.len() == 16,
        r.skin < 10 && r.face < 10 && r.hairstyle < 10 && r.haircolor < 10 && r.facialhair < 6,
        5_000_000_000 <= r.jump_after < 15_000_000_000,
        5 <= r.name@.len() <= 10,
        r.equipment@.len() == 19,
{
    let who = dice::after(*old(x));
    let i = (who as usize) as int % 20;
    assert(0 <= i < 20);
    assert((r.race, r.class) == HORDE@[i]);
    let gender = dice::after(who);
    let way = dice::after(dressed(*eq, gender));
    let name = dice::after(dice::after_n(dice::after_n(way, 16), 3));
    dice::lemma_letters(name, (name % 6 + 5) as nat, 0);
}

/// What is picked is one of those that there are, and of nothing nothing is picked.
pub proof fn what_is_picked_was_there(v: &Vec<u32>, x: &mut u64, r: Option<u32>)
    requires
        call_ensures(pick::<u32>, (v, x), r),
    ensures
        v@.len() == 0 ==> r is None && *final(x) == *old(x),
        v@.len() > 0 ==> r is Some && v@.contains(r->0),
{
    if v@.len() > 0 {
        let i = (dice::after(*old(x)) as usize) as int % v@.len() as int;
        assert(0 <= i < v@.len());
        assert(v@[i] == r->0);
    }
}

/// Every item that is worn somewhere is listed there, and nothing else is.
pub proof fn all_items_are_sorted(r: EquipmentByType, e: u32)
    requires
        call_ensures(equipment_index, (), r),
        item::item_data(e) is Some,
    ensures
        ({
            let t = item::item_data(e)->0.inventory_type;
            &&& r.head@.contains(e) <==> t == 1
            &&& r.shoulders@.contains(e) <==> t == 3
            &&& r.chest@.contains(e) <==> t == 5 || t == 20
            &&& r.waist@.contains(e) <==> t == 6
            &&& r.legs@.contains(e) <==> t == 7
            &&& r.main_hand@.contains(e) <==> t == 13 || t == 17 || t == 21
        }),
{
    lemma_all_worn(r.head@, SLOT_HEAD, e);
    lemma_all_worn(r.shoulders@, SLOT_SHOULDERS, e);
    lemma_all_worn(r.chest@, SLOT_CHEST, e);
    lemma_all_worn(r.waist@, SLOT_WAIST, e);
    lemma_all_worn(r.legs@, SLOT_LEGS, e);
    lemma_all_worn(r.main_hand@, SLOT_MAIN_HAND, e);
}

proof fn lemma_all_worn(entries: Seq<u32>, slot: usize, e: u32)
    requires
        is_all_worn_in(entries, slot),
    ensures
        entries.contains(e) <==> is_worn_in(e, slot),
{
    if entries.contains(e) {
        let i = choose|i: int| 0 <= i < entries.len() && entries[i] == e;
        assert(is_worn_in(entries[i], slot));
    }
}

/// What a puppet wears in a slot is one of what is listed there, and it wears something
/// wherever anything is listed.
pub proof fn a_puppet_wears_what_is_listed(eq: &EquipmentByType, x: &mut u64, r: [Option<u32>; 19], i: int)
    requires
        call_ensures(draw_equipment, (eq, x), r),
    ensures
        r@[0] is Some <==> eq.head@.len() > 0,
        r@[0] is Some ==> eq.head@.contains(r@[0]->0),
        r@[2] is Some <==> eq.shoulders@.len() > 0,
        r@[2] is Some ==> eq.shoulders@.contains(r@[2]->0),
        r@[4] is Some <==> eq.chest@.len() > 0,
        r@[4] is Some ==> eq.chest@.contains(r@[4]->0),
        r@[5] is Some <==> eq.waist@.len() > 0,
        r@[5] is Some ==> eq.waist@.contains(r@[5]->0),
        r@[6] is Some <==> eq.legs@.len() > 0,
        r@[6] is Some ==> eq.legs@.contains(r@[6]->0),
        r@[15] is Some <==> eq.main_hand@.len() > 0,
        r@[15] is Some ==> eq.main_hand@.contains(r@[15]->0),
        0 <= i < 19 && i != 0 && i != 2 && i != 4 && i != 5 && i != 6 && i != 15 ==> r@[i] is None,
{
    let a = past(eq.head@, *old(x));
    let b = past(eq.shoulders@, a);
    let c = past(eq.chest@, b);
    let d = past(eq.waist@, c);
    let e = past(eq.legs@, d);
    lemma_picked(eq.head@, *old(x));
    lemma_picked(eq.shoulders@, a);
    lemma_picked(eq.chest@, b);
    lemma_picked(eq.waist@, c);
    lemma_picked(eq.legs@, d);
    lemma_picked(eq.main_hand@, e);
}

proof fn lemma_picked(v: Seq<u32>, x: u64)
    ensures
        picked(v, x) is Some <==> v.len() > 0,
        picked(v, x) is Some ==> v.contains(picked(v, x)->0),
{
    if v.len() > 0 {
        let i = (dice::after(x) as usize) as int % v.len() as int;
        assert(0 <= i < v.len());
        assert(v[i] == picked(v, x)->0);
    }
}

} // verus!

//! What a character carries.
use crate::database::{DbView, WorldDatabase};
use crate::item;
use crate::item::{Item, ItemData, StarterItem};
use vstd::prelude::*;

verus! {

/// The number of slots of an inventory.
pub const SLOT_COUNT: usize = 113;

/// The slots of equipment come first.
pub const EQUIPMENT_COUNT: usize = 19;

/// The first slot of the backpack.
pub const BAG_START: u8 = 23;

/// The last slot of the backpack.
pub const BAG_END: u8 = 38;

#[derive(Debug, Clone, Copy)]
pub struct Inventory {
    pub slots: [Option<Item>; 113],
}

impl View for Inventory {
    type V = Seq<Option<Item>>;

    open spec fn view(&self) -> Seq<Option<Item>> {
        self.slots@
    }
}

/// The first empty slot of the backpack at or behind `from`, if there is one.
pub open spec fn first_free(slots: Seq<Option<Item>>, from: int) -> Option<int>
    decreases BAG_END + 1 - from,
{
    if from > BAG_END {
        None
    } else if slots[from] is None {
        Some(from)
    } else {
        first_free(slots, from + 1)
    }
}

/// The slots of an inventory with nothing in it.
pub open spec fn empty_slots() -> Seq<Option<Item>> {
    Seq::new(SLOT_COUNT as nat, |i: int| None::<Item>)
}

/// The items of `starter` that the item data knows.
pub open spec fn known_items(starter: Seq<StarterItem>) -> Seq<StarterItem> {
    starter.filter(|i: StarterItem| item::item_data(i.item) is Some)
}

/// What the item data says of each of `items`.
pub open spec fn data_of(items: Seq<StarterItem>) -> Seq<ItemData> {
    items.map_values(|i: StarterItem| item::item_data(i.item)->0)
}

/// The slots after the items went to theirs, one after the other. They have
/// consecutive guids.
pub open spec fn placed(items: Seq<StarterItem>, data: Seq<ItemData>, first_guid: int) -> Seq<Option<Item>>
    decreases items.len(),
{
    if items.len() == 0 {
        empty_slots()
    } else {
        let n = items.len() - 1;
        placed(items.drop_last(), data, first_guid).update(
            items.last().slot as int,
            Some(Item { item: data[n], guid: (first_guid + n) as u64, amount: items.last().amount, creator: 0 }),
        )
    }
}

/// How an item looks from afar.
#[derive(Debug, Clone, Copy, PartialEq, Eq, Structural)]
pub struct CharacterGear {
    pub equipment_display_id: u32,
    pub inventory_type: u8,
}

/// How what a slot holds looks from afar.
pub open spec fn gear_of(slot: Option<Item>) -> CharacterGear {
    match slot {
        Some(i) => CharacterGear {
            equipment_display_id: i.item.display_id,
            inventory_type: i.item.inventory_type,
        },
        None => CharacterGear { equipment_display_id: 0, inventory_type: 0 },
    }
}

impl Inventory {
    /// An inventory with nothing in it.
    pub fn empty() -> (r: Self)
        ensures
            r@ == empty_slots(),
    {
        let r = Inventory { slots: [None; 113] };
        assert(r@ =~= empty_slots());
        r
    }

    /// An inventory with those items in their slots. Where two go to the same
    /// slot, the later one is there.
    pub fn filled(items: &Vec<StarterItem>, data: &Vec<ItemData>, db: &mut WorldDatabase) -> (r: Self)
        requires
            old(db).wf(),
            items@.len() == data@.len(),
            forall|i: int| 0 <= i < items@.len() ==> (#[trigger] items@[i]).slot < SLOT_COUNT,
            old(db)@.next_guid + items@.len() <= u64::MAX,
        ensures
            final(db).wf(),
            r@ == placed(items@, data@, old(db)@.next_guid as int),
            final(db)@ == (DbView { next_guid: (old(db)@.next_guid + items@.len()) as u64, ..old(db)@ }),
    {
        let mut r = Self::empty();
        let mut i: usize = 0;
        assert(items@.take(0) =~= Seq::<StarterItem>::empty());
        while i < items.len()
            invariant
                i <= items@.len(),
                items@.len() == data@.len(),
                forall|j: int| 0 <= j < items@.len() ==> (#[trigger] items@[j]).slot < SLOT_COUNT,
                old(db)@.next_guid + items@.len() <= u64::MAX,
                db.wf(),
                db@ == (DbView { next_guid: (old(db)@.next_guid + i) as u64, ..old(db)@ }),
                r@ == placed(items@.take(i as int), data@, old(db)@.next_guid as int),
            decreases items.len() - i,
        {
            let s: StarterItem = items[i];
            let it = Item::new(data[i], 0, s.amount, db);
            r.set(s.slot, it);
            assert(items@.take(i + 1).drop_last() =~= items@.take(i as int));
            assert(items@.take(i + 1).last() == s);
            i += 1;
        }
        assert(items@.take(i as int) =~= items@);
        r
    }

    /// The inventory of a new character. Items that the item data does not know
    /// are left out.
    pub fn new(starter_items: &Vec<StarterItem>, db: &mut WorldDatabase) -> (r: Self)
        requires
            old(db).wf(),
            forall|i: int| 0 <= i < starter_items@.len() ==> (#[trigger] starter_items@[i]).slot < SLOT_COUNT,
            old(db)@.next_guid + starter_items@.len() <= u64::MAX,
        ensures
            final(db).wf(),
            r@ == placed(
                known_items(starter_items@),
                data_of(known_items(starter_items@)),
                old(db)@.next_guid as int,
            ),
            known_items(starter_items@).len() <= starter_items@.len(),
            final(db)@ == (DbView {
                next_guid: (old(db)@.next_guid + known_items(starter_items@).len()) as u64,
                ..old(db)@
            }),
    {
        let mut items: Vec<StarterItem> = Vec::new();
        let mut data: Vec<ItemData> = Vec::new();
        let mut i: usize = 0;
        proof {
            reveal(Seq::filter);
            assert(starter_items@.take(0) =~= Seq::<StarterItem>::empty());
            assert(data@ =~= data_of(items@));
        }
        while i < starter_items.len()
            invariant
                i <= starter_items@.len(),
                items@.len() <= i,
                items@ == known_items(starter_items@.take(i as int)),
                data@ == data_of(items@),
                forall|j: int| 0 <= j < starter_items@.len() ==> (#[trigger] starter_items@[j]).slot < SLOT_COUNT,
                forall|j: int| 0 <= j < items@.len() ==> (#[trigger] items@[j]).slot < SLOT_COUNT,
            decreases starter_items.len() - i,
        {
            let s: StarterItem = starter_items[i];
            proof {
                reveal(Seq::filter);
                assert(starter_items@.take(i + 1).drop_last() =~= starter_items@.take(i as int));
                assert(starter_items@.take(i + 1).last() == s);
            }
            let ghost before = items@;
            if let Some(d) = item::lookup_item(s.item) {
                items.push(s);
                data.push(d);
                assert(data@ =~= data_of(items@));
            }
            i += 1;
        }
        assert(starter_items@.take(i as int) =~= starter_items@);
        Self::filled(&items, &data, db)
    }

    /// How the equipment looks from afar.
    pub fn to_character_gear(&self) -> (r: Vec<CharacterGear>)
        ensures
            r@ == Seq::new(EQUIPMENT_COUNT as nat, |i: int| gear_of(self@[i])),
    {
        let mut r: Vec<CharacterGear> = Vec::new();
        let mut i: usize = 0;
        while i < EQUIPMENT_COUNT
            invariant
                i <= EQUIPMENT_COUNT,
                r@ == Seq::new(i as nat, |j: int| gear_of(self@[j])),
            decreases EQUIPMENT_COUNT - i,
        {
            let g = match self.slots[i] {
                Some(it) => CharacterGear {
                    equipment_display_id: it.item.display_id,
                    inventory_type: it.item.inventory_type,
                },
                None => CharacterGear { equipment_display_id: 0, inventory_type: 0 },
            };
            r.push(g);
            i += 1;
            assert(r@ =~= Seq::new(i as nat, |j: int| gear_of(self@[j])));
        }
        r
    }

    /// Exchange what the two slots hold.
    pub fn swap(&mut self, source: u8, destination: u8)
        requires
            source < SLOT_COUNT,
            destination < SLOT_COUNT,
        ensures
            final(self)@ == old(self)@.update(source as int, old(self)@[destination as int]).update(
                destination as int,
                old(self)@[source as int],
            ),
    {
        let a = self.slots[source as usize];
        let b = self.slots[destination as usize];
        self.slots[source as usize] = b;
        self.slots[destination as usize] = a;
    }

    /// Put `item` into the first empty slot of the backpack, which is returned;
    /// nothing happens if the backpack is full.
    pub fn insert_into_first_slot(&mut self, item: Item) -> (r: Option<u8>)
        ensures
            match r {
                Some(slot) => first_free(old(self)@, BAG_START as int) == Some(slot as int) && final(self)@ == old(
                    self,
                )@.update(slot as int, Some(item)),
                None => first_free(old(self)@, BAG_START as int) is None && final(self)@ == old(self)@,
            },
    {
        let mut i: u8 = BAG_START;
        while i <= BAG_END
            invariant
                BAG_START <= i <= BAG_END + 1,
                self@ == old(self)@,
                first_free(self@, BAG_START as int) == first_free(self@, i as int),
            decreases BAG_END + 1 - i,
        {
            if self.slots[i as usize].is_none() {
                self.slots[i as usize] = Some(item);
                return Some(i);
            }
            i += 1;
        }
        None
    }

    /// Every slot, in order, with its number.
    pub fn all_slots(&self) -> (r: Vec<(Option<Item>, u8)>)
        ensures
            r@ == Seq::new(SLOT_COUNT as nat, |i: int| (self@[i], i as u8)),
    {
        let mut r: Vec<(Option<Item>, u8)> = Vec::new();
        let mut i: u8 = 0;
        while (i as usize) < SLOT_COUNT
            invariant
                i <= SLOT_COUNT,
                r@ == Seq::new(i as nat, |j: int| (self@[j], j as u8)),
            decreases SLOT_COUNT - i,
        {
            r.push((self.slots[i as usize], i));
            i += 1;
            assert(r@ =~= Seq::new(i as nat, |j: int| (self@[j], j as u8)));
        }
        r
    }

    /// The slots of equipment, in order, with their numbers.
    pub fn equipment(&self) -> (r: Vec<(Option<Item>, u8)>)
        ensures
            r@ == Seq::new(EQUIPMENT_COUNT as nat, |i: int| (self@[i], i as u8)),
    {
        let mut r: Vec<(Option<Item>, u8)> = Vec::new();
        let mut i: u8 = 0;
        while (i as usize) < EQUIPMENT_COUNT
            invariant
                i <= EQUIPMENT_COUNT,
                r@ == Seq::new(i as nat, |j: int| (self@[j], j as u8)),
            decreases EQUIPMENT_COUNT - i,
        {
            r.push((self.slots[i as usize], i));
            i += 1;
            assert(r@ =~= Seq::new(i as nat, |j: int| (self@[j], j as u8)));
        }
        r
    }

    pub fn set(&mut self, slot: u8, item: Item)
        requires
            slot < SLOT_COUNT,
        ensures
            final(self)@ == old(self)@.update(slot as int, Some(item)),
    {
        self.slots[slot as usize] = Some(item);
    }

    pub fn clear(&mut self, slot: u8)
        requires
            slot < SLOT_COUNT,
        ensures
            final(self)@ == old(self)@.update(slot as int, None),
    {
        self.slots[slot as usize] = None;
    }

    /// Empty a slot and hand out what it held.
    pub fn take(&mut self, slot: u8) -> (r: Option<Item>)
        requires
            slot < SLOT_COUNT,
        ensures
            r == old(self)@[slot as int],
            final(self)@ == old(self)@.update(slot as int, None),
    {
        let was = self.slots[slot as usize];
        self.slots[slot as usize] = None;
        was
    }

    pub fn get(&self, slot: u8) -> (r: Option<Item>)
        requires
            slot < SLOT_COUNT,
        ensures
            r == self@[slot as int],
    {
        self.slots[slot as usize]
    }
}

/// Exchanging the same two slots twice changes nothing.
pub proof fn swapping_twice_restores(slots: Seq<Option<Item>>, a: int, b: int)
    requires
        0 <= a < slots.len(),
        0 <= b < slots.len(),
    ensures
        ({
            let once = slots.update(a, slots[b]).update(b, slots[a]);
            once.update(a, once[b]).update(b, once[a]) == slots
        }),
{
    let once = slots.update(a, slots[b]).update(b, slots[a]);
    assert(once.update(a, once[b]).update(b, once[a]) =~= slots);
}

/// An exchange neither creates nor destroys an item.
pub proof fn swapping_keeps_every_item(slots: Seq<Option<Item>>, a: int, b: int)
    requires
        0 <= a < slots.len(),
        0 <= b < slots.len(),
    ensures
        slots.update(a, slots[b]).update(b, slots[a]).to_multiset() == slots.to_multiset(),
{
    broadcast use vstd::seq_lib::group_to_multiset_ensures;

    let once = slots.update(a, slots[b]);
    assert(slots.to_multiset().contains(slots[a]));
    vstd::seq_lib::to_multiset_update(slots, a, slots[b]);
    vstd::seq_lib::to_multiset_update(once, b, slots[a]);
    assert(once.update(b, slots[a]).to_multiset() =~= slots.to_multiset());
}

/// A slot that takes a new item is one of the backpack, was empty, and no slot
/// of the backpack before it was.
pub proof fn the_first_free_slot_is_the_first(slots: Seq<Option<Item>>, from: int, i: int)
    requires
        0 <= from,
        slots.len() == SLOT_COUNT,
    ensures
        match first_free(slots, from) {
            Some(slot) => from <= slot <= BAG_END && slots[slot] is None && (from <= i < slot ==> slots[i] is Some),
            None => from <= i <= BAG_END ==> slots[i] is Some,
        },
    decreases BAG_END + 1 - from,
{
    if from <= BAG_END && slots[from] is Some {
        the_first_free_slot_is_the_first(slots, from + 1, i);
    }
}

/// What is put into a slot is there, and is taken out as it was put in; no other slot is
/// touched. Exchanging two slots moves what each holds into the other.
pub proof fn a_slot_holds_what_was_put_in(
    a: &mut Inventory,
    slot: u8,
    item: Item,
    u: (),
    b: &mut Inventory,
    r: Option<Item>,
    i: int,
)
    requires
        slot < SLOT_COUNT,
        call_ensures(Inventory::set, (a, slot, item), u),
        *old(b) == *final(a),
        call_ensures(Inventory::take, (b, slot), r),
        0 <= i < 113,
    ensures
        r == Some(item),
        final(b)@[slot as int] is None,
        i != slot ==> final(a)@[i] == old(a)@[i] && final(b)@[i] == old(a)@[i],
{
}

/// Exchanging two slots moves what each of them holds into the other, and touches no third.
pub proof fn a_swap_exchanges_two_slots(a: &mut Inventory, source: u8, destination: u8, u: (), i: int)
    requires
        source < SLOT_COUNT,
        destination < SLOT_COUNT,
        call_ensures(Inventory::swap, (a, source, destination), u),
        0 <= i < 113,
    ensures
        final(a)@[source as int] == old(a)@[destination as int],
        final(a)@[destination as int] == old(a)@[source as int],
        i != source && i != destination ==> final(a)@[i] == old(a)@[i],
{
}

/// A new item goes into the first empty slot of the backpack, from the twenty-third to the
/// thirty-eighth; with none empty, nothing happens.
pub proof fn a_new_item_goes_into_the_backpack(a: &mut Inventory, item: Item, r: Option<u8>, i: int)
    requires
        call_ensures(Inventory::insert_into_first_slot, (a, item), r),
        0 <= i < 113,
    ensures
        r is Some ==> 23 <= r->0 <= 38 && old(a)@[r->0 as int] is None && final(a)@[r->0 as int] == Some(item),
        r is Some && 23 <= i < r->0 ==> old(a)@[i] is Some,
        r is Some && i != r->0 ==> final(a)@[i] == old(a)@[i],
        r is None ==> final(a)@ == old(a)@,
        r is None && 23 <= i <= 38 ==> old(a)@[i] is Some,
{
    the_first_free_slot_is_the_first(old(a)@, 23, i);
}

/// Looking at, emptying and listing slots tell what each slot holds.
pub proof fn slots_are_told_as_they_are(
    a: &Inventory,
    slot: u8,
    held: Option<Item>,
    all: Vec<(Option<Item>, u8)>,
    worn: Vec<(Option<Item>, u8)>,
    gear: Vec<CharacterGear>,
    i: int,
)
    requires
        slot < SLOT_COUNT,
        call_ensures(Inventory::get, (a, slot), held),
        call_ensures(Inventory::all_slots, (a,), all),
        call_ensures(Inventory::equipment, (a,), worn),
        call_ensures(Inventory::to_character_gear, (a,), gear),
    ensures
        held == a@[slot as int],
        all@.len() == 113 && worn@.len() == 19 && gear@.len() == 19,
        0 <= i < 113 ==> all@[i].0 == a@[i] && all@[i].1 == i,
        0 <= i < 19 ==> worn@[i].0 == a@[i] && worn@[i].1 == i,
        0 <= i < 19 && a@[i] is Some ==> gear@[i].equipment_display_id == a@[i]->0.item.display_id
            && gear@[i].inventory_type == a@[i]->0.item.inventory_type,
        0 <= i < 19 && a@[i] is None ==> gear@[i].equipment_display_id == 0 && gear@[i].inventory_type == 0,
{
}

/// A slot that is emptied is empty, and no other slot is touched.
pub proof fn an_emptied_slot_is_empty(a: &mut Inventory, slot: u8, u: (), i: int, r: Inventory)
    requires
        slot < SLOT_COUNT,
        call_ensures(Inventory::clear, (a, slot), u),
        call_ensures(Inventory::empty, (), r),
        0 <= i < 113,
    ensures
        final(a)@[slot as int] is None,
        i != slot ==> final(a)@[i] == old(a)@[i],
        r@[i] is None,
{
}

proof fn lemma_placed(items: Seq<StarterItem>, data: Seq<ItemData>, first_guid: int, i: int)
    requires
        items.len() <= data.len(),
        forall|j: int| 0 <= j < items.len() ==> (#[trigger] items[j]).slot < SLOT_COUNT,
    ensures
        placed(items, data, first_guid).len() == 113,
        0 <= i < items.len() && (forall|j: int| i < j < items.len() ==> (#[trigger] items[j]).slot != items[i].slot)
            ==> placed(items, data, first_guid)[items[i].slot as int] == Some(
            Item { item: data[i], guid: (first_guid + i) as u64, amount: items[i].amount, creator: 0 },
        ),
    decreases items.len(),
{
    if items.len() > 0 {
        let init = items.drop_last();
        assert forall|j: int| 0 <= j < init.len() implies (#[trigger] init[j]).slot < SLOT_COUNT by {
            assert(init[j] == items[j]);
        }
        lemma_placed(init, data, first_guid, i);
        let n = items.len() - 1;
        assert(items[n] == items.last());
        assert(items[n].slot < SLOT_COUNT);
        if 0 <= i < n && (forall|j: int| i < j < items.len() ==> (#[trigger] items[j]).slot != items[i].slot) {
            assert(init[i] == items[i]);
            assert(items[n].slot != items[i].slot);
            assert forall|j: int| i < j < init.len() implies (#[trigger] init[j]).slot != init[i].slot by {
                assert(init[j] == items[j]);
            }
            assert(items[i].slot < SLOT_COUNT);
        }
    }
}

proof fn lemma_placed_none(items: Seq<StarterItem>, data: Seq<ItemData>, first_guid: int, slot: int)
    requires
        0 <= slot < 113,
        forall|j: int| 0 <= j < items.len() ==> (#[trigger] items[j]).slot != slot && items[j].slot < SLOT_COUNT,
    ensures
        placed(items, data, first_guid).len() == 113,
        placed(items, data, first_guid)[slot] is None,
    decreases items.len(),
{
    if items.len() > 0 {
        let init = items.drop_last();
        assert forall|j: int| 0 <= j < init.len() implies (#[trigger] init[j]).slot != slot && init[j].slot
            < SLOT_COUNT by {
            assert(init[j] == items[j]);
        }
        lemma_placed_none(init, data, first_guid, slot);
        assert(items[items.len() - 1].slot != slot);
    }
}

/// Every item that a character starts with is in the slot that it goes to, as many as are
/// given, unless a later one goes there too; the other slots are empty. Each gets the next
/// guid.
pub proof fn items_go_to_their_slots(
    items: &Vec<StarterItem>,
    data: &Vec<ItemData>,
    db: &mut WorldDatabase,
    r: Inventory,
    i: int,
    slot: int,
)
    requires
        old(db).wf(),
        items@.len() == data@.len(),
        forall|i: int| 0 <= i < items@.len() ==> (#[trigger] items@[i]).slot < SLOT_COUNT,
        old(db)@.next_guid + items@.len() <= u64::MAX,
        call_ensures(Inventory::filled, (items, data, db), r),
    ensures
        0 <= i < items@.len() && (forall|j: int| i < j < items@.len() ==> (#[trigger] items@[j]).slot != items@[i].slot)
            ==> r@[items@[i].slot as int] == Some(
            Item {
                item: data@[i],
                guid: (old(db)@.next_guid + i) as u64,
                amount: items@[i].amount,
                creator: 0,
            },
        ),
        0 <= slot < 113 && (forall|j: int| 0 <= j < items@.len() ==> (#[trigger] items@[j]).slot != slot)
            ==> r@[slot] is None,
        final(db)@.next_guid == old(db)@.next_guid + items@.len(),
        final(db)@.rows == old(db)@.rows,
{
    lemma_placed(items@, data@, old(db)@.next_guid as int, i);
    if 0 <= slot < 113 && (forall|j: int| 0 <= j < items@.len() ==> (#[trigger] items@[j]).slot != slot) {
        lemma_placed_none(items@, data@, old(db)@.next_guid as int, slot);
    }
}

} // verus!

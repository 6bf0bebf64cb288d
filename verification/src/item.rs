//! Items, and what the item data says of them.
use crate::database::{DbView, WorldDatabase};
use vstd::prelude::*;

verus! {

/// What the item data says of an entry.
#[derive(Debug, Clone, Copy, PartialEq, Eq, Structural)]
pub struct ItemData {
    pub entry: u32,
    pub display_id: u32,
    pub inventory_type: u8,
    pub bag_family: u8,
    pub max_durability: i32,
    pub random_property: i32,
}

/// An item that a character owns.
#[derive(Debug, Clone, Copy, PartialEq, Eq, Structural)]
pub struct Item {
    pub item: ItemData,
    pub guid: u64,
    pub amount: u8,
    pub creator: u64,
}

/// An item that a new character gets, and the slot it goes to.
#[derive(Debug, Clone, Copy, PartialEq, Eq, Structural)]
pub struct StarterItem {
    pub item: u32,
    pub slot: u8,
    pub amount: u8,
}

/// What the item data says of the entry `entry`, if it knows it.
pub uninterp spec fn item_data(entry: u32) -> Option<ItemData>;

/// `lookup_item` of `wow_items`: the data of the item with that entry, if there
/// is one.
#[verifier::external_body]
pub(crate) fn lookup_item(entry: u32) -> (r: Option<ItemData>)
    ensures
        r == item_data(entry),
{
    let item = wow_items::vanilla::lookup_item(entry)?;
    Some(ItemData {
        entry: item.entry(),
        display_id: item.display_id(),
        inventory_type: item.inventory_type().as_int(),
        bag_family: item.bag_family().as_int(),
        max_durability: item.max_durability(),
        random_property: item.random_property(),
    })
}

/// The items that a new character of a race and class gets; nothing for a race
/// or class that does not exist or that do not go together.
pub uninterp spec fn starter_items(race: u8, class: u8) -> Option<Seq<StarterItem>>;

/// `RaceClass::starter_items` of `wow_world_base`, for a race and a class by
/// their numbers. The lists hold at most ten items each, all of them for slots
/// that an inventory has. There is one for human warriors.
#[verifier::external_body]
pub(crate) fn starter_items_for(race: u8, class: u8) -> (r: Option<Vec<StarterItem>>)
    ensures
        r is Some <==> starter_items(race, class) is Some,
        r is Some ==> r->0@ == starter_items(race, class)->0,
        race == 1 && class == 1 ==> r is Some,
        r is Some ==> r->0@.len() <= 10,
        r is Some ==> forall|i: int| 0 <= i < r->0@.len() ==> (#[trigger] r->0@[i]).slot < 113,
{
    let race = wow_world_base::vanilla::Race::try_from(race).ok()?;
    let class = wow_world_base::vanilla::Class::try_from(class).ok()?;
    let both = wow_world_base::vanilla::RaceClass::try_from((race, class)).ok()?;
    let to_plain = |i: &wow_world_base::vanilla::StarterItem| StarterItem {
        item: i.item,
        slot: i.ty.as_int(),
        amount: i.amount,
    };
    Some(both.starter_items().iter().map(to_plain).collect())
}

/// What kind of object an item is to a client.
#[derive(Debug, Clone, Copy, PartialEq, Eq, Structural)]
pub enum ItemKind {
    Item,
    Container,
}

/// An item as it is shown to its owner.
#[derive(Debug, Clone, Copy, PartialEq, Eq, Structural)]
pub struct ItemObject {
    pub guid: u64,
    pub entry: u32,
    pub owner: u64,
    pub stack_count: i32,
    pub durability: i32,
    pub creator: u64,
    pub kind: ItemKind,
}

impl Item {
    /// A new item with a guid of its own.
    pub fn new(item: ItemData, creator: u64, amount: u8, db: &mut WorldDatabase) -> (r: Self)
        requires
            old(db).wf(),
            old(db)@.next_guid < u64::MAX,
        ensures
            final(db).wf(),
            r == (Item { item, guid: old(db)@.next_guid, amount, creator }),
            final(db)@ == (DbView { next_guid: (old(db)@.next_guid + 1) as u64, ..old(db)@ }),
    {
        Item { item, guid: db.new_guid(), amount, creator }
    }

    /// How the item is shown to its owner. What belongs to a family of bags is
    /// a container.
    pub fn to_create_item_object(self, item_owner: u64) -> (r: ItemObject)
        ensures
            r == (ItemObject {
                guid: self.guid,
                entry: self.item.entry,
                owner: item_owner,
                stack_count: self.amount as i32,
                durability: self.item.max_durability,
                creator: self.creator,
                kind: if self.item.bag_family == 0 {
                    ItemKind::Item
                } else {
                    ItemKind::Container
                },
            }),
    {
        ItemObject {
            guid: self.guid,
            entry: self.item.entry,
            owner: item_owner,
            stack_count: self.amount as i32,
            durability: self.item.max_durability,
            creator: self.creator,
            kind: if self.item.bag_family == 0 {
                ItemKind::Item
            } else {
                ItemKind::Container
            },
        }
    }
}

/// A new item has a guid that nothing else has; it is shown to its owner as what it is.
pub proof fn a_new_item_is_shown_as_it_is(
    data: ItemData,
    creator: u64,
    amount: u8,
    db: &mut WorldDatabase,
    r: Item,
    owner: u64,
    o: ItemObject,
)
    requires
        old(db).wf(),
        old(db)@.next_guid < u64::MAX,
        call_ensures(Item::new, (data, creator, amount, db), r),
        call_ensures(Item::to_create_item_object, (r, owner), o),
    ensures
        r.guid == old(db)@.next_guid && final(db)@.next_guid == r.guid + 1,
        r.item == data && r.creator == creator && r.amount == amount,
        o.guid == r.guid && o.entry == data.entry && o.owner == owner && o.creator == creator,
        o.stack_count == amount && o.durability == data.max_durability,
        o.kind is Container <==> data.bag_family != 0,
{
}

} // verus!

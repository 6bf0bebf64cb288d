use wow_items::vanilla::all_items;
use wow_vanilla_server::character::Character;
use wow_vanilla_server::config::CombatConfig;
use wow_vanilla_server::creature::Position;
use wow_vanilla_server::database::WorldDatabase;
use wow_vanilla_server::inventory::{Inventory, BAG_END, BAG_START, SLOT_COUNT};
use wow_vanilla_server::item::{Item, ItemData, ItemKind, StarterItem};
use wow_vanilla_server::movement::Place;
use wow_world_messages::vanilla::ItemSlot;

fn data(i: &wow_items::vanilla::Item) -> ItemData {
    ItemData {
        entry: i.entry(),
        display_id: i.display_id(),
        inventory_type: i.inventory_type().as_int(),
        bag_family: i.bag_family().as_int(),
        max_durability: i.max_durability(),
        random_property: i.random_property(),
    }
}

fn two_items() -> (Item, Item) {
    let items = all_items();
    assert!(items.len() >= 2, "wow_items::vanilla has at least two items");
    (
        Item { item: data(&items[0]), guid: 1, amount: 1, creator: 0 },
        Item { item: data(&items[1]), guid: 2, amount: 1, creator: 0 },
    )
}

fn bag(i: u8) -> u8 {
    BAG_START + i
}

#[test]
fn swap_exchanges_two_occupied_slots() {
    let mut inv = Inventory::empty();
    let (a, b) = two_items();
    inv.set(bag(0), a);
    inv.set(bag(5), b);
    inv.swap(bag(0), bag(5));
    assert_eq!(inv.get(bag(0)).map(|i| i.guid), Some(b.guid));
    assert_eq!(inv.get(bag(5)).map(|i| i.guid), Some(a.guid));
}

#[test]
fn swap_with_empty_destination_moves_item() {
    let mut inv = Inventory::empty();
    let (a, _) = two_items();
    inv.set(bag(0), a);
    inv.swap(bag(0), bag(7));
    assert!(inv.get(bag(0)).is_none());
    assert_eq!(inv.get(bag(7)).map(|i| i.guid), Some(a.guid));
}

#[test]
fn swap_same_slot_is_noop() {
    let mut inv = Inventory::empty();
    let (a, _) = two_items();
    inv.set(bag(3), a);
    inv.swap(bag(3), bag(3));
    assert_eq!(inv.get(bag(3)).map(|i| i.guid), Some(a.guid));
}

#[test]
fn insert_into_first_slot_picks_inventory0_when_empty() {
    let mut inv = Inventory::empty();
    let (a, _) = two_items();
    let slot = inv.insert_into_first_slot(a);
    assert_eq!(slot, Some(bag(0)));
    assert_eq!(inv.get(bag(0)).map(|i| i.guid), Some(a.guid));
}

#[test]
fn insert_into_first_slot_skips_occupied_slots() {
    let mut inv = Inventory::empty();
    let (a, b) = two_items();
    inv.set(bag(0), a);
    inv.set(bag(1), a);
    let slot = inv.insert_into_first_slot(b);
    assert_eq!(slot, Some(bag(2)));
    assert_eq!(inv.get(bag(2)).map(|i| i.guid), Some(b.guid));
}

#[test]
fn insert_into_first_slot_returns_none_when_bag_is_full() {
    let mut inv = Inventory::empty();
    let (a, b) = two_items();
    for i in 0..16 {
        inv.set(bag(i), a);
    }
    assert_eq!(inv.insert_into_first_slot(b), None);
}

#[test]
fn insert_into_first_slot_uses_inventory15_as_last_slot() {
    let mut inv = Inventory::empty();
    let (a, b) = two_items();
    for i in 0..15 {
        inv.set(bag(i), a);
    }
    assert_eq!(inv.insert_into_first_slot(b), Some(bag(15)));
    assert_eq!(inv.get(bag(15)).map(|i| i.guid), Some(b.guid));
    assert_eq!(bag(15), BAG_END);
}

#[test]
fn the_slots_are_those_of_the_wire() {
    assert_eq!(ItemSlot::Inventory0.as_int(), BAG_START);
    assert_eq!(ItemSlot::Inventory15.as_int(), BAG_END);
}

fn first_item_where(bagged: bool) -> ItemData {
    all_items()
        .iter()
        .map(data)
        .find(|d| (d.bag_family != 0) == bagged)
        .expect("wow_items::vanilla contains both kinds")
}

fn build_item(item: ItemData) -> Item {
    Item { item, guid: 0x4000_0000_0000_0001, amount: 1, creator: 0 }
}

#[test]
fn non_bag_item_maps_to_object_type_item() {
    assert_eq!(build_item(first_item_where(false)).to_create_item_object(99).kind, ItemKind::Item);
}

#[test]
fn bag_family_item_maps_to_object_type_container() {
    assert_eq!(build_item(first_item_where(true)).to_create_item_object(99).kind, ItemKind::Container);
}

#[test]
fn create_object_carries_correct_guids_and_amount() {
    let mut item = build_item(first_item_where(false));
    item.amount = 7;
    let obj = item.to_create_item_object(0xABCD);
    assert_eq!(obj.guid, item.guid);
    assert_eq!(obj.owner, 0xABCD);
    assert_eq!(obj.stack_count, 7);
}

fn start() -> Position {
    Position { map: 0, place: Place { x: 0, y: 0, z: 0, cell: (0, 0), grid: (0, 0) }, orientation: 0 }
}

#[test]
fn an_outfit_is_placed_and_its_items_get_guids() {
    let mut db = WorldDatabase::new(start(), &CombatConfig::default());
    let next = db.next_guid();
    let known = all_items()[0].entry();
    let outfit = vec![
        StarterItem { item: known, slot: 4, amount: 1 },
        StarterItem { item: 1, slot: 5, amount: 1 },
        StarterItem { item: known, slot: 23, amount: 3 },
    ];
    let inv = Inventory::new(&outfit, &mut db);
    assert_eq!(inv.get(4).map(|i| (i.guid, i.amount)), Some((next, 1)));
    assert!(inv.get(5).is_none(), "there is no item 1");
    assert_eq!(inv.get(23).map(|i| (i.guid, i.amount)), Some((next + 1, 3)));
    assert_eq!(inv.get(23).map(|i| i.item), Some(data(&all_items()[0])));
    assert_eq!(db.next_guid(), next + 2);
}

#[test]
fn slots_are_taken_and_cleared() {
    let mut inv = Inventory::empty();
    let (a, b) = two_items();
    inv.set(30, a);
    inv.set(2, b);
    assert_eq!(inv.take(30).map(|i| i.guid), Some(1));
    assert!(inv.get(30).is_none());
    assert_eq!(inv.equipment().len(), 19);
    assert_eq!(inv.all_slots().len(), SLOT_COUNT);
    assert_eq!(inv.to_character_gear()[2].equipment_display_id, b.item.display_id);
    inv.clear(2);
    assert!(inv.get(2).is_none());
}

#[test]
fn a_character_carries_its_starter_items() {
    let mut db = WorldDatabase::new(start(), &CombatConfig::default());
    let c = Character::test_character(&mut db, "Orc".to_string(), 2, 1, 0, start(), &CombatConfig::default()).unwrap();
    let expected = wow_world_base::vanilla::RaceClass::OrcWarrior.starter_items();
    for s in expected {
        if wow_items::vanilla::lookup_item(s.item).is_some() {
            assert_eq!(c.inventory.get(s.ty.as_int()).map(|i| i.item.entry), Some(s.item));
        }
    }
}

use hexbattle::crafting::Blueprint;
use hexbattle::effect::Effect;
use hexbattle::inventory::{Inventory, Slot, Storage};
use hexbattle::item::{Item, ItemSlot};

fn item(id: u64, name: &str) -> Item {
    Item {
        id,
        name: name.to_string(),
        slot: Some(ItemSlot::MainHand),
        stat_changes: vec![("attack".to_string(), 2)],
        effects: vec![Effect::Poison(1, 3)],
    }
}

#[test]
fn equipping_an_empty_slot_gives_nothing_back() {
    let mut inv = Inventory::new();
    assert!(inv.equip(Slot::MainHand, item(1, "sword")).is_none());
    assert_eq!(inv.equipped.len(), 1);
    assert!(inv.backpack.is_empty());
}

#[test]
fn equipping_a_taken_slot_gives_the_old_item_back() {
    let mut inv = Inventory::new();
    inv.equip(Slot::MainHand, item(1, "sword"));
    inv.equip(Slot::Head, item(2, "helm"));
    let old = inv.equip(Slot::MainHand, item(3, "axe")).unwrap();
    assert_eq!(old.id, 1);
    assert_eq!(inv.equipped.len(), 2);
    assert_eq!(inv.equipped[0].1.id, 3);
}

#[test]
fn unequipping_empties_the_slot() {
    let mut inv = Inventory::new();
    inv.equip(Slot::Boots, item(4, "boots"));
    assert_eq!(inv.unequip(Slot::Boots).unwrap().name, "boots");
    assert!(inv.unequip(Slot::Boots).is_none());
    assert!(inv.equipped.is_empty());
}

#[test]
fn backpack_keeps_order() {
    let mut inv = Inventory::new();
    inv.add_to_backpack(item(1, "a"));
    inv.add_to_backpack(item(2, "b"));
    inv.add_to_backpack(item(3, "c"));
    assert_eq!(inv.remove_from_backpack(1).unwrap().id, 2);
    assert!(inv.remove_from_backpack(5).is_none());
    assert_eq!(inv.backpack.iter().map(|i| i.id).collect::<Vec<_>>(), vec![1, 3]);
}

#[test]
fn storage_pulls_and_pushes() {
    let mut s = Storage { items: vec![] };
    assert!(s.pull_item(0).is_none());
    s.push_item(item(7, "ring"));
    s.push_item(item(8, "amulet"));
    assert_eq!(s.pull_item(0).unwrap().id, 7);
    assert_eq!(s.items.len(), 1);
    assert_eq!(s.items[0].id, 8);
}

#[test]
fn decomposing_gives_iron_ore() {
    assert_eq!(item(1, "sword").decompose(), vec![("iron_ore".to_string(), 2)]);
}

fn blueprint() -> Blueprint {
    Blueprint {
        id: 1,
        result: item(9, "spear"),
        cost: vec![("iron_ore".to_string(), 2), ("wood".to_string(), 1)],
    }
}

#[test]
fn crafting_takes_the_cost() {
    let mut materials = vec![("wood".to_string(), 4), ("iron_ore".to_string(), 2), ("leather".to_string(), 1)];
    let made = blueprint().craft(&mut materials).unwrap();
    assert_eq!(made.id, 9);
    assert_eq!(made.name, "spear");
    assert_eq!(made.stat_changes, vec![("attack".to_string(), 2)]);
    assert_eq!(made.effects, vec![Effect::Poison(1, 3)]);
    assert_eq!(materials, vec![("wood".to_string(), 3), ("iron_ore".to_string(), 0), ("leather".to_string(), 1)]);
}

#[test]
fn crafting_without_enough_material_changes_nothing() {
    let mut materials = vec![("wood".to_string(), 4), ("iron_ore".to_string(), 1)];
    assert!(blueprint().craft(&mut materials).is_none());
    assert_eq!(materials, vec![("wood".to_string(), 4), ("iron_ore".to_string(), 1)]);
    let mut none: Vec<(String, u32)> = vec![];
    assert!(blueprint().craft(&mut none).is_none());
}

#[test]
fn free_blueprint_always_crafts() {
    let free = Blueprint { id: 2, result: item(5, "stick"), cost: vec![("wood".to_string(), 0)] };
    let mut none: Vec<(String, u32)> = vec![];
    assert!(free.craft(&mut none).is_some());
    assert!(none.is_empty());
}

#[test]
fn duplicate_copies_every_field() {
    let a = item(4, "dagger");
    let b = a.duplicate();
    assert_eq!(b.id, 4);
    assert_eq!(b.name, "dagger");
    assert_eq!(b.slot, Some(ItemSlot::MainHand));
    assert_eq!(b.stat_changes, a.stat_changes);
    assert_eq!(b.effects, a.effects);
}

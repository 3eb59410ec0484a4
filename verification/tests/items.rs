use hexagolm::items::Inventory;

fn stack_of(inv: &Inventory, name: &str) -> Vec<u64> {
    inv.slots
        .iter()
        .find(|s| s.name == name)
        .map(|s| s.items.clone())
        .unwrap_or_default()
}

#[test]
fn inventory_starts_empty() {
    let inv = Inventory::new();
    assert!(inv.equipped.is_none());
    assert_eq!(inv.equipped_ent(), None);
    assert!(inv.slots.is_empty());
}

#[test]
fn inventory_insert_stacks_by_name() {
    let mut inv = Inventory::new();
    inv.insert("seed".to_string(), 1);
    inv.insert("rock".to_string(), 2);
    inv.insert("seed".to_string(), 3);
    assert_eq!(stack_of(&inv, "seed"), vec![1, 3]);
    assert_eq!(stack_of(&inv, "rock"), vec![2]);
    assert!(inv.equipped.is_none());
}

#[test]
fn inventory_equip_named_pops_top() {
    let mut inv = Inventory::new();
    inv.insert("seed".to_string(), 1);
    inv.insert("seed".to_string(), 3);
    assert_eq!(inv.equip_named("seed".to_string()), Some(3));
    assert_eq!(inv.equipped, Some((3, "seed".to_string())));
    assert_eq!(inv.equipped_ent(), Some(3));
    assert_eq!(stack_of(&inv, "seed"), vec![1]);
}

#[test]
fn inventory_equip_named_missing_kind() {
    let mut inv = Inventory::new();
    inv.insert("seed".to_string(), 1);
    assert_eq!(inv.equip_named("rock".to_string()), None);
    assert!(inv.equipped.is_none());
    assert_eq!(stack_of(&inv, "seed"), vec![1]);
}

#[test]
fn inventory_consume_equipped_takes_next() {
    let mut inv = Inventory::new();
    inv.insert("seed".to_string(), 1);
    inv.insert("seed".to_string(), 2);
    inv.equip_named("seed".to_string());
    assert_eq!(inv.consume_equipped(), Some(1));
    assert_eq!(inv.equipped, Some((1, "seed".to_string())));
    assert_eq!(inv.consume_equipped(), None);
    assert!(inv.equipped.is_none());
}

#[test]
fn inventory_equip_swaps_back() {
    let mut inv = Inventory::new();
    inv.insert("seed".to_string(), 1);
    inv.insert("rock".to_string(), 2);
    inv.equip(Some("seed".to_string()));
    assert_eq!(inv.equipped, Some((1, "seed".to_string())));
    inv.equip(Some("rock".to_string()));
    assert_eq!(inv.equipped, Some((2, "rock".to_string())));
    assert_eq!(stack_of(&inv, "seed"), vec![1]);
    inv.equip(None);
    assert!(inv.equipped.is_none());
    assert_eq!(stack_of(&inv, "rock"), vec![2]);
}

#[test]
fn inventory_reequip_keeps_item() {
    let mut inv = Inventory::new();
    inv.insert("seed".to_string(), 1);
    inv.insert("seed".to_string(), 2);
    inv.equip(Some("seed".to_string()));
    assert_eq!(inv.equipped_ent(), Some(2));
    inv.equip(Some("seed".to_string()));
    assert_eq!(inv.equipped_ent(), Some(2));
    assert_eq!(stack_of(&inv, "seed"), vec![1]);
}

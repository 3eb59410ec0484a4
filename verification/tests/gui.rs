use hexagolm::gui::equips_on_drop;
use hexagolm::gui::loose_slot_layout;
use hexagolm::gui::{try_slot_insert, Counter, DragAction, GuiState, InventoryWindow, ItemSlot};

fn slot(name: Option<&str>, icon: u64) -> (ItemSlot, Counter) {
    (
        ItemSlot { item_name: name.map(|n| n.to_string()), icon_ent: icon, counter_ent: icon + 100, parent: 9 },
        Counter(0),
    )
}

#[test]
fn counter_consume() {
    let mut c = Counter(2);
    assert!(c.consume());
    assert_eq!(c, Counter(1));
    assert!(!c.consume());
    assert_eq!(c, Counter(0));
}

#[test]
fn window_swap_equipped() {
    let mut w = InventoryWindow { window: 1, equipped_slot: 2, loose_slots: vec![3, 4] };
    w.swap_in_out(5, 2);
    assert_eq!(w.equipped_slot, 5);
    assert_eq!(w.loose_slots, vec![3, 4]);
}

#[test]
fn window_swap_loose() {
    let mut w = InventoryWindow { window: 1, equipped_slot: 2, loose_slots: vec![3, 4, 6] };
    w.swap_in_out(7, 4);
    assert_eq!(w.equipped_slot, 2);
    assert_eq!(w.loose_slots, vec![3, 6, 7]);
}

#[test]
fn window_slots_equipped_last() {
    let w = InventoryWindow { window: 1, equipped_slot: 2, loose_slots: vec![3, 4] };
    assert_eq!(w.slots(), vec![3, 4, 2]);
}

#[test]
fn slot_insert_prefers_matching_slot() {
    let mut slots = vec![slot(None, 1), slot(Some("rock"), 2), slot(Some("seed"), 3)];
    slots[2].1 = Counter(4);
    assert_eq!(try_slot_insert(&mut slots, &"seed".to_string()), Some((2, false)));
    assert_eq!(slots[2].1, Counter(5));
    assert_eq!(slots[0].0.item_name, None);
}

#[test]
fn slot_insert_opens_first_empty() {
    let mut slots = vec![slot(Some("rock"), 1), slot(None, 2), slot(None, 3)];
    assert_eq!(try_slot_insert(&mut slots, &"seed".to_string()), Some((1, true)));
    assert_eq!(slots[1].0.item_name, Some("seed".to_string()));
    assert_eq!(slots[1].1, Counter(1));
    assert_eq!(slots[2].0.item_name, None);
}

#[test]
fn slot_insert_no_space() {
    let mut slots = vec![slot(Some("rock"), 1)];
    assert_eq!(try_slot_insert(&mut slots, &"seed".to_string()), None);
    assert_eq!(slots[0].1, Counter(0));
}

#[test]
fn drag_starts_under_mouse() {
    let mut g = GuiState::new();
    assert!(!g.is_dragging());
    assert_eq!(g.update_draggable_under_mouse(true, Some(4)), DragAction::Drag(4));
    assert!(g.is_dragging());
    assert_eq!(g.update_draggable_under_mouse(true, Some(5)), DragAction::Drag(4));
}

#[test]
fn drag_drop_over_other() {
    let mut g = GuiState::new();
    g.update_draggable_under_mouse(true, Some(4));
    assert_eq!(
        g.update_draggable_under_mouse(false, Some(5)),
        DragAction::Drop { released: 4, under: 5 }
    );
    assert!(!g.is_dragging());
}

#[test]
fn drag_release_over_nothing() {
    let mut g = GuiState::new();
    g.update_draggable_under_mouse(true, Some(4));
    assert_eq!(g.update_draggable_under_mouse(false, None), DragAction::Idle);
    assert!(g.is_dragging());
    let mut idle = GuiState::new();
    assert_eq!(idle.update_draggable_under_mouse(false, Some(3)), DragAction::Idle);
}

#[test]
fn swap_if_equipped_only_swaps_equipped() {
    let mut w = InventoryWindow { window: 1, equipped_slot: 2, loose_slots: vec![3] };
    assert!(!w.swap_if_equipped(3, 5));
    assert_eq!(w.equipped_slot, 2);
    assert!(w.swap_if_equipped(2, 5));
    assert_eq!(w.equipped_slot, 5);
    assert_eq!(w.loose_slots, vec![3]);
}

#[test]
fn dropping_onto_equipped_slot_equips() {
    let drop = ItemSlot { item_name: Some("rock".to_string()), icon_ent: 1, counter_ent: 2, parent: 9 };
    let drag = ItemSlot { item_name: Some("seed".to_string()), icon_ent: 3, counter_ent: 4, parent: 8 };
    let reqs = equips_on_drop(&drop, true, &drag, false);
    assert_eq!(reqs.len(), 1);
    assert_eq!(reqs[0].0, 9);
    assert_eq!(reqs[0].1 .0, Some("seed".to_string()));
    let both = equips_on_drop(&drop, true, &drag, true);
    assert_eq!(both.len(), 2);
    assert_eq!(both[1].0, 8);
    assert_eq!(both[1].1 .0, Some("rock".to_string()));
    assert!(equips_on_drop(&drop, false, &drag, false).is_empty());
}

#[test]
fn loose_slots_fill_rows() {
    assert_eq!(loose_slot_layout(), vec![(0, 0), (1, 0), (2, 0), (0, 1), (1, 1), (2, 1)]);
}

#[test]
fn same_kind_goes_to_same_slot() {
    let mut slots = vec![slot(None, 1), slot(None, 2)];
    assert_eq!(try_slot_insert(&mut slots, &"seed".to_string()), Some((0, true)));
    assert_eq!(try_slot_insert(&mut slots, &"seed".to_string()), Some((0, false)));
    assert_eq!(slots[0].1, Counter(2));
}

#[test]
fn mouse_goes_to_gui_when_dragging_or_over_it() {
    let mut g = GuiState::new();
    assert!(!g.has_mouse(None));
    assert!(g.has_mouse(Some(3)));
    g.update_draggable_under_mouse(true, Some(3));
    assert!(g.has_mouse(None));
}

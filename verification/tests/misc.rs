use hexagolm::config::{InventoryEntry, RangeConfig, TileProperty};
use hexagolm::phys::collision::{
    clear_dead_collision_objects, record_contact_events, ContactEvent, PhysHandle, RigidGroups,
};
use hexagolm::phys::{Collide, CollideSet, Collisionship};
use hexagolm::world::Dead;
use std::collections::{HashMap, HashSet};

#[test]
fn collide_groups_and_names() {
    assert_eq!(Collide::Player.group(), 0);
    assert_eq!(Collide::Creature.group(), 4);
    assert_eq!(Collide::from_name("Enemy"), Some(Collide::Enemy));
    assert_eq!(Collide::from_name("World"), Some(Collide::World));
    assert_eq!(Collide::from_name("enemy"), None);
}

#[test]
fn dead_collision_objects() {
    let mut dead = Dead::new();
    dead.mark(1);
    dead.mark(2);
    dead.mark(1);
    let mut handles = HashMap::new();
    handles.insert(1u64, PhysHandle(10));
    handles.insert(3u64, PhysHandle(30));
    assert_eq!(clear_dead_collision_objects(&dead, &handles), vec![PhysHandle(10)]);
}

#[test]
fn dead_marks_and_drain() {
    let mut dead = Dead::new();
    dead.mark(5);
    dead.mark_all(&vec![6, 5, 7]);
    let mut marks = dead.marks();
    marks.sort();
    assert_eq!(marks, vec![5, 6, 7]);
    assert!(dead.is_marked(6));
    let mut drained = dead.drain();
    drained.sort();
    assert_eq!(drained, vec![5, 6, 7]);
    assert!(!dead.is_marked(5));
    assert!(dead.marks().is_empty());
}

#[test]
fn config_defaults() {
    let t = TileProperty::default();
    assert_eq!(t.name, "unknown");
    assert_eq!(t.image, "unknown");
    assert!(!t.farmable && !t.collidable);
    let r: RangeConfig<u8> = RangeConfig::from(2..9);
    assert_eq!((r.lo, r.hi), (2, 9));
}

#[test]
fn inventory_entries() {
    let e = InventoryEntry { name: "seed".to_string(), count: None, flags: vec!["equipped".to_string()] };
    assert_eq!(e.count_or_default(), 1);
    assert!(e.flags_valid());
    assert_eq!(e.equip_requests(), 1);
    let bad = InventoryEntry { name: "seed".to_string(), count: Some(4), flags: vec!["equip".to_string(), "shiny".to_string()] };
    assert_eq!(bad.count_or_default(), 4);
    assert!(!bad.flags_valid());
}

#[test]
fn collide_sets_hold_each_marker_once() {
    let mut s = CollideSet::new();
    assert!(s.insert(Collide::Enemy));
    assert!(!s.insert(Collide::Enemy));
    assert!(s.insert(Collide::World));
    assert!(s.contains(Collide::World));
    assert!(!s.contains(Collide::Player));
    let mut g = s.groups();
    g.sort();
    assert_eq!(g, vec![2, 3]);
    assert!(s.remove(Collide::Enemy));
    assert!(!s.remove(Collide::Enemy));
    assert_eq!(s.groups(), vec![3]);
}

#[test]
fn collisionship_groups() {
    let mut c = Collisionship::new();
    assert!(c.set_static(true));
    assert!(!c.set_static(true));
    c.membership.insert(Collide::Player);
    c.whitelist.insert(Collide::Enemy);
    c.blacklist.insert(Collide::Weapon);
    let (stat, groups) = c.into_parts();
    assert!(stat.is_some());
    assert_eq!(groups.membership, vec![0]);
    assert_eq!(groups.whitelist, vec![2]);
    assert_eq!(groups.blacklist, vec![1]);
    let rigid = RigidGroups(Collisionship::new().into_groups());
    assert!(rigid.membership.is_empty());
}

#[test]
fn contact_events_are_recorded() {
    let mut contacts: HashMap<u64, HashSet<u64>> = HashMap::new();
    contacts.insert(1, HashSet::new());
    contacts.insert(2, HashSet::new());
    let mut new_collisions = vec![(9u64, 9u64)];
    record_contact_events(
        &mut contacts,
        &vec![ContactEvent::Started(1, 2), ContactEvent::Started(1, 3), ContactEvent::Stopped(2, 1)],
        &mut new_collisions,
    );
    assert_eq!(new_collisions, vec![(9, 9), (1, 2), (2, 1), (1, 3), (3, 1)]);
    let mut of1: Vec<u64> = contacts[&1].iter().copied().collect();
    of1.sort();
    assert_eq!(of1, vec![3]);
    assert!(contacts[&2].is_empty());
    assert!(!contacts.contains_key(&3));
}

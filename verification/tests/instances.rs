use hexagolm::world::prefab::instances::{
    clear_dead, clear_prefab_instances, keep_fresh, spawn_all_instances, InstanceSource, Respawn,
    Tag, Tracker,
};
use hexagolm::world::prefab::{clear_removed_prefabs, Config, InstanceKey, PrefabConfig, PrefabKey};
use hexagolm::world::Dead;
use std::collections::HashSet;

fn tag(pf: u64, entity: u64, key: Option<u64>) -> Tag {
    Tag::new(
        PrefabKey(pf),
        match key {
            Some(k) => InstanceSource::Config(InstanceKey(k)),
            None => InstanceSource::Dynamic,
        },
        entity,
    )
}

fn prefab(name: &str, dirty: bool, generation: usize) -> PrefabConfig {
    PrefabConfig { name: name.to_string(), dirty, generation }
}

#[test]
fn tag_instance_key() {
    assert_eq!(tag(1, 2, Some(3)).instance_key(), Some(InstanceKey(3)));
    assert_eq!(tag(1, 2, None).instance_key(), None);
}

#[test]
fn tracker_spawn_dynamic_and_instances_of() {
    let mut t = Tracker::new();
    let made = t.spawn_dynamic(PrefabKey(4), 40);
    assert_eq!(made, tag(4, 40, None));
    t.spawned.push(tag(5, 50, Some(0)));
    t.spawned.push(tag(4, 41, Some(1)));
    let of4: Vec<u64> = t.instances_of(PrefabKey(4)).iter().map(|t| t.entity).collect();
    assert_eq!(of4, vec![40, 41]);
    t.respawned(2, 42);
    assert_eq!(t.spawned[2].entity, 42);
}

#[test]
fn clear_dead_forgets_dead_unless_killed() {
    let mut t = Tracker::new();
    let mut killed = tag(1, 2, Some(0));
    killed.killed = true;
    t.spawned = vec![tag(1, 1, Some(1)), killed, tag(1, 3, None)];
    let mut dead = Dead::new();
    dead.mark(1);
    dead.mark(2);
    clear_dead(&dead, &mut t);
    let left: Vec<u64> = t.spawned.iter().map(|t| t.entity).collect();
    assert_eq!(left, vec![2, 3]);
}

#[test]
fn clear_prefab_instances_marks_them_dead() {
    let mut t = Tracker::new();
    t.spawned = vec![tag(1, 1, None), tag(2, 2, None), tag(1, 3, None)];
    let mut dead = Dead::new();
    clear_prefab_instances(&mut t, &mut dead, PrefabKey(1));
    let left: Vec<u64> = t.spawned.iter().map(|t| t.entity).collect();
    assert_eq!(left, vec![2]);
    assert!(dead.is_marked(1) && dead.is_marked(3) && !dead.is_marked(2));
}

#[test]
fn spawn_all_instances_appends() {
    let mut config = Config::new();
    let fence = config.add_prefab(prefab("fence", false, 0));
    let tree = config.add_prefab(prefab("tree", false, 0));
    let first = config.add_instance(fence);
    let second = config.add_instance(tree);
    assert_eq!(config.instance_entries(), vec![(first, fence), (second, tree)]);
    let mut t = Tracker::new();
    t.spawned = vec![tag(1, 1, None)];
    spawn_all_instances(&mut t, &config, &vec![2, 3]);
    assert_eq!(
        t.spawned,
        vec![
            tag(1, 1, None),
            Tag::new(fence, InstanceSource::Config(first), 2),
            Tag::new(tree, InstanceSource::Config(second), 3),
        ]
    );
    assert_eq!(t.spawned[1].generation, 0);
    assert!(!t.spawned[2].killed);
}

#[test]
fn prefab_table_hands_out_fresh_keys() {
    let mut config = Config::new();
    let fence = config.add_prefab(prefab("fence", false, 0));
    let tree = config.add_prefab(prefab("tree", false, 0));
    assert_ne!(fence, tree);
    assert_eq!(config.prefab_keys(), vec![fence, tree]);
    config.remove(fence);
    assert_eq!(config.prefab_keys(), vec![tree]);
    // A removed key is not handed out again.
    let rock = config.add_prefab(prefab("rock", false, 0));
    assert_ne!(rock, fence);
    assert_eq!(config.prefab_keys().len(), 2);
    assert_eq!(config.get(rock).name, "rock");
    // Removing a key that is not there changes nothing.
    config.remove(fence);
    config.remove(PrefabKey(0));
    assert_eq!(config.prefab_keys().len(), 2);
}

#[test]
fn clear_removed_prefabs_removes_requested() {
    let mut config = Config::new();
    let fence = config.add_prefab(prefab("fence", false, 0));
    let tree = config.add_prefab(prefab("tree", false, 0));
    config.removal_key = Some(fence);
    let mut t = Tracker::new();
    t.spawned = vec![
        Tag::new(fence, InstanceSource::Config(InstanceKey(0)), 10),
        Tag::new(tree, InstanceSource::Config(InstanceKey(1)), 20),
    ];
    let mut dead = Dead::new();
    assert_eq!(clear_removed_prefabs(&mut config, &mut t, &mut dead), Some(fence));
    assert_eq!(config.removal_key, None);
    assert_eq!(config.prefab_keys(), vec![tree]);
    assert_eq!(t.spawned.len(), 1);
    assert!(dead.is_marked(10));
    assert_eq!(clear_removed_prefabs(&mut config, &mut t, &mut dead), None);
    assert_eq!(config.prefab_keys(), vec![tree]);
}

#[test]
fn config_by_name() {
    let mut config = Config::new();
    config.add_prefab(prefab("fence", false, 0));
    let tree = config.add_prefab(prefab("tree", false, 0));
    config.add_prefab(prefab("tree", false, 1));
    assert_eq!(config.by_name(&"tree".to_string()).map(|(k, pf)| (k, pf.generation)), Some((tree, 0)));
    assert!(config.by_name(&"rock".to_string()).is_none());
}

#[test]
fn keep_fresh_kills_then_respawns() {
    let mut config = Config::new();
    let fence = config.add_prefab(prefab("fence", true, 2));
    let mut t = Tracker::new();
    t.spawned = vec![
        Tag::new(fence, InstanceSource::Config(InstanceKey(5)), 10),
        Tag::new(fence, InstanceSource::Dynamic, 11),
    ];
    let mut dead = Dead::new();
    let mut living: HashSet<u64> = HashSet::new();
    living.insert(10);
    living.insert(11);

    // First frame: the out-of-date config instance is killed.
    let respawns = keep_fresh(&mut config, &mut t, &mut dead, &living);
    assert!(respawns.is_empty());
    assert!(t.spawned[0].killed);
    assert!(dead.is_marked(10));
    assert!(config.get(fence).dirty);

    // Once its entity is gone, it is respawned at the prefab's generation.
    living.remove(&10);
    let respawns = keep_fresh(&mut config, &mut t, &mut dead, &living);
    assert_eq!(respawns, vec![Respawn { tag_index: 0, instance_key: InstanceKey(5) }]);
    assert_eq!(t.spawned[0].generation, 2);
    assert!(!t.spawned[0].killed);
    assert!(!config.get(fence).dirty);
    assert_eq!(config.get(fence).generation, 2);
}

#[test]
fn keep_fresh_leaves_clean_prefabs() {
    let mut config = Config::new();
    let fence = config.add_prefab(prefab("fence", false, 2));
    let mut t = Tracker::new();
    t.spawned = vec![Tag::new(fence, InstanceSource::Config(InstanceKey(5)), 10)];
    let mut dead = Dead::new();
    let living: HashSet<u64> = HashSet::new();
    assert!(keep_fresh(&mut config, &mut t, &mut dead, &living).is_empty());
    assert!(!t.spawned[0].killed);
    assert!(!dead.is_marked(10));
}

#[test]
fn recycle_after_edit() {
    let mut t = Tracker::new();
    let mut old = tag(1, 10, Some(5));
    old.generation = 3;
    old.selected = true;
    t.spawned = vec![tag(1, 9, Some(4)), old];
    let mut dead = Dead::new();
    t.kill_for_recycle(1, &mut dead);
    assert!(t.spawned[1].killed);
    assert!(dead.is_marked(10));
    let mut living: HashSet<u64> = HashSet::new();
    living.insert(10);
    assert_eq!(t.recycle_slot(InstanceKey(5), &living), None);
    living.remove(&10);
    assert_eq!(t.recycle_slot(InstanceKey(5), &living), Some(1));
    assert_eq!(t.recycle_slot(InstanceKey(6), &living), None);
    t.recycled(1, 11);
    assert_eq!(t.spawned[1].entity, 11);
    assert_eq!(t.spawned[1].generation, 3);
    assert!(!t.spawned[1].killed && !t.spawned[1].selected);
}

#[test]
fn reset_waits_for_every_entity() {
    let mut t = Tracker::new();
    t.spawned = vec![tag(1, 1, Some(0)), tag(1, 2, None)];
    let mut dead = Dead::new();
    t.kill_all(&mut dead);
    assert!(dead.is_marked(1) && dead.is_marked(2));
    let mut living: HashSet<u64> = HashSet::new();
    living.insert(2);
    assert!(!t.finish_reset(&living));
    assert_eq!(t.spawned.len(), 2);
    living.clear();
    assert!(t.finish_reset(&living));
    assert!(t.spawned.is_empty());
}

use hexagolm::world::prefab::instances::tracker::selector::{
    box_select_actions, delete_instances, delete_selected, select_all, toggle, unpaste, Action,
    Chore, Selector, Step,
};
use hexagolm::world::prefab::instances::{InstanceSource, Tag, Tracker};
use hexagolm::world::prefab::{Config, InstanceKey, PrefabConfig, PrefabKey};
use hexagolm::world::Dead;

fn tag(entity: u64, key: Option<u64>) -> Tag {
    Tag::new(
        PrefabKey(1),
        match key {
            Some(k) => InstanceSource::Config(InstanceKey(k)),
            None => InstanceSource::Dynamic,
        },
        entity,
    )
}

fn tracker() -> Tracker {
    let mut t = Tracker::new();
    t.spawned = vec![tag(10, Some(0)), tag(11, Some(1)), tag(12, None)];
    t
}

fn selection(t: &Tracker) -> Vec<bool> {
    t.spawned.iter().map(|t| t.selected).collect()
}

#[test]
fn select_then_undo_then_redo() {
    let mut t = tracker();
    let mut dead = Dead::new();
    let mut config = Config::new();
    let mut s: Selector<()> = Selector::new();
    assert_eq!(s.do_save(&mut t, &mut dead, &mut config, Action::Select(11)), (Chore::Nothing, vec![]));
    assert_eq!(selection(&t), vec![false, true, false]);
    assert_eq!(s.stack.len(), 1);
    assert!(s.undo(&mut t, &mut dead, &mut config).is_some());
    assert_eq!(selection(&t), vec![false, false, false]);
    assert_eq!(s.stack.len(), 0);
    assert_eq!(s.z_stack.len(), 1);
    assert!(s.redo(&mut t, &mut dead, &mut config).is_some());
    assert_eq!(selection(&t), vec![false, true, false]);
    assert!(s.redo(&mut t, &mut dead, &mut config).is_none());
    assert!(s.undo(&mut t, &mut dead, &mut config).is_some());
    assert!(s.undo(&mut t, &mut dead, &mut config).is_none());
}

#[test]
fn group_actions_walk_both_ways() {
    let mut t = tracker();
    let mut dead = Dead::new();
    let mut config = Config::new();
    let mut a: Action<()> = Action::GroupSelect(vec![10, 12, 99]);
    a.walk(&mut t, &mut dead, &mut config, Step::Forward);
    assert_eq!(selection(&t), vec![true, false, true]);
    let mut d: Action<()> = Action::GroupDeselect(vec![12]);
    d.apply(&mut t, &mut dead, &mut config);
    assert_eq!(selection(&t), vec![true, false, false]);
    d.unapply(&mut t, &mut dead, &mut config);
    assert_eq!(selection(&t), vec![true, false, true]);
    a.unapply(&mut t, &mut dead, &mut config);
    assert_eq!(selection(&t), vec![false, false, false]);
}

#[test]
fn deselect_walk() {
    let mut t = tracker();
    let mut dead = Dead::new();
    let mut config = Config::new();
    t.set_selected(10, true);
    let mut a: Action<()> = Action::Deselect(10);
    a.apply(&mut t, &mut dead, &mut config);
    assert_eq!(selection(&t), vec![false, false, false]);
    a.unapply(&mut t, &mut dead, &mut config);
    assert_eq!(selection(&t), vec![true, false, false]);
}

#[test]
fn toggle_picks_the_opposite() {
    let mut t = tag(5, None);
    assert!(matches!(toggle::<()>(&t), Action::Select(5)));
    t.selected = true;
    assert!(matches!(toggle::<()>(&t), Action::Deselect(5)));
}

#[test]
fn select_all_toggles_everything() {
    let mut t = tracker();
    match select_all::<()>(&t) {
        Action::GroupSelect(es) => assert_eq!(es, vec![10, 11, 12]),
        other => panic!("unexpected {:?}", other),
    }
    t.set_selected(11, true);
    match select_all::<()>(&t) {
        Action::GroupDeselect(es) => assert_eq!(es, vec![11]),
        other => panic!("unexpected {:?}", other),
    }
}

#[test]
fn box_select_flips() {
    let acts = box_select_actions::<()>(&vec![(true, 1), (false, 2), (true, 3)]);
    assert_eq!(acts.len(), 2);
    assert!(matches!(&acts[0], Action::GroupDeselect(es) if *es == vec![1, 3]));
    assert!(matches!(&acts[1], Action::GroupSelect(es) if *es == vec![2]));
    let only_new = box_select_actions::<()>(&vec![(false, 4)]);
    assert_eq!(only_new.len(), 1);
    assert!(matches!(&only_new[0], Action::GroupSelect(es) if *es == vec![4]));
    assert!(box_select_actions::<()>(&vec![]).is_empty());
}

#[test]
fn delete_is_undone_by_restoring() {
    let mut config = Config::new();
    let fence = config.add_prefab(PrefabConfig { name: "fence".to_string(), dirty: false, generation: 0 });
    let first = config.add_instance(fence);
    let second = config.add_instance(fence);
    let mut t = Tracker::new();
    t.spawned = vec![
        Tag::new(fence, InstanceSource::Config(first), 10),
        Tag::new(fence, InstanceSource::Config(second), 11),
    ];
    let mut dead = Dead::new();
    let mut s: Selector<&str> = Selector::new();
    let (chore, keys) = s.do_save(&mut t, &mut dead, &mut config, Action::Delete(vec![(second, "tree")]));
    assert_eq!(chore, Chore::Nothing);
    assert_eq!(keys, vec![second]);
    assert!(dead.is_marked(11) && !dead.is_marked(10));
    // The deleted instance has left the Config; the other stays.
    assert_eq!(config.instance_entries(), vec![(first, fence)]);
    assert_eq!(s.undo(&mut t, &mut dead, &mut config), Some((Chore::Restore, vec![])));
    assert!(matches!(&s.z_stack[0], Action::Delete(list) if list[0].1 == "tree"));
    assert_eq!(config.instance_entries(), vec![(first, fence)]);
}

#[test]
fn paste_is_undone() {
    let mut t = tracker();
    let mut dead = Dead::new();
    let mut config = Config::new();
    let fence = config.add_prefab(PrefabConfig { name: "fence".to_string(), dirty: false, generation: 0 });
    let kept = config.add_instance(fence);
    t.set_selected(10, true);
    let mut s: Selector<&str> = Selector::new();
    let paste = Action::Paste { id: 4, selected_before: vec![], clipboard: vec!["fence"] };
    assert_eq!(s.do_save(&mut t, &mut dead, &mut config, paste), (Chore::Paste(4), vec![]));
    assert_eq!(selection(&t), vec![false, false, false]);
    assert!(matches!(&s.stack[0], Action::Paste { selected_before, .. } if *selected_before == vec![10]));
    // The caller carries out the paste: it places the instance and tracks it.
    let pasted = config.add_instance(fence);
    t.track_pasted(vec![Tag::new(fence, InstanceSource::Config(pasted), 30)], 4);
    assert_eq!(config.instance_entries().len(), 2);
    assert_eq!(s.undo(&mut t, &mut dead, &mut config), Some((Chore::Nothing, vec![pasted])));
    assert!(dead.is_marked(30));
    assert!(t.spawned[0].selected);
    assert_eq!(config.instance_entries(), vec![(kept, fence)]);
}

#[test]
fn forget_instances_keeps_the_rest_in_order() {
    let mut config = Config::new();
    let fence = config.add_prefab(PrefabConfig { name: "fence".to_string(), dirty: false, generation: 0 });
    let tree = config.add_prefab(PrefabConfig { name: "tree".to_string(), dirty: false, generation: 0 });
    let a = config.add_instance(fence);
    let b = config.add_instance(tree);
    let c = config.add_instance(fence);
    config.forget_instances(&vec![b, InstanceKey(12345), a]);
    assert_eq!(config.instance_entries(), vec![(c, fence)]);
    config.forget_instances(&vec![]);
    assert_eq!(config.instance_entries(), vec![(c, fence)]);
    assert_eq!(config.prefab_keys(), vec![fence, tree]);
}

#[test]
fn paste_and_unpaste() {
    let mut t = tracker();
    let mut dead = Dead::new();
    t.set_selected(10, true);
    let before = t.deselect_for_paste();
    assert_eq!(before, vec![10]);
    assert_eq!(selection(&t), vec![false, false, false]);
    t.track_pasted(vec![tag(20, Some(7)), tag(21, None)], 3);
    assert_eq!(t.spawned.len(), 5);
    assert!(t.spawned[3].selected && t.spawned[4].selected);
    assert_eq!(t.spawned[3].paste, Some(3));
    let keys = unpaste(&mut t, &mut dead, 3, &before);
    assert_eq!(keys, vec![InstanceKey(7)]);
    assert!(dead.is_marked(20));
    assert!(!dead.is_marked(21));
    assert!(t.spawned[0].selected);
}

#[test]
fn delete_selected_and_instances() {
    let mut t = tracker();
    t.set_selected(11, true);
    t.set_selected(12, true);
    let keys = delete_selected(&t);
    assert_eq!(keys, vec![InstanceKey(1)]);
    let mut dead = Dead::new();
    delete_instances(&t, &mut dead, &keys);
    assert!(dead.is_marked(11));
    assert!(!dead.is_marked(10));
    assert!(!dead.is_marked(12));
}

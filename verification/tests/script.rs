use hexagolm::world::prefab::instances::{InstanceSource, Tag, Tracker};
use hexagolm::world::prefab::{Config, PrefabConfig};
use hexagolm::world::script::{ent_prefab, tag_of_text, ScriptError, TagBank};
use hexagolm::world::Dead;

#[test]
fn tag_bank_deposit_and_find() {
    let mut bank = TagBank::new();
    bank.deposit(1, &vec![(10, Some(100)), (11, None)]);
    bank.deposit(2, &vec![(10, Some(200))]);
    assert_eq!(bank.all_tagged(10), vec![(1, Some(100)), (2, Some(200))]);
    assert_eq!(bank.all_tagged(12), vec![]);
    assert_eq!(bank.all_tagged_with_val(10, 200), vec![2]);
    assert_eq!(bank.ent_tagged(11), Ok((1, None)));
    assert_eq!(bank.ent_tagged(10), Err(ScriptError::MoreThanOneTagged(10)));
    assert_eq!(bank.ent_tagged(12), Err(ScriptError::NoSuchTag(12)));
    assert_eq!(bank.tag(1, 10), Ok(Some(100)));
    assert_eq!(bank.tag(1, 11), Ok(None));
    assert_eq!(bank.tag(3, 10), Err(ScriptError::NoTagsForEnt));
    assert_eq!(bank.tagval(1, 10), Ok(100));
    assert_eq!(bank.tagval(1, 11), Err(ScriptError::NotTagged(11)));
    assert_eq!(bank.has_tag(2, 10), Ok(true));
    assert_eq!(bank.has_tag(2, 11), Ok(false));
}

#[test]
fn tag_bank_cleanup_forgets_dead() {
    let mut bank = TagBank::new();
    bank.deposit(1, &vec![(10, Some(100))]);
    bank.deposit(2, &vec![(10, None), (11, None)]);
    let mut dead = Dead::new();
    dead.mark(1);
    dead.mark(7);
    bank.cleanup_tags(&dead);
    assert_eq!(bank.all_tagged(10), vec![(2, None)]);
    assert_eq!(bank.tag(1, 10), Err(ScriptError::NoTagsForEnt));
    assert_eq!(bank.ent_tagged(10), Ok((2, None)));
    let mut dead = Dead::new();
    dead.mark(2);
    bank.cleanup_tags(&dead);
    assert_eq!(bank.ent_tagged(11), Err(ScriptError::NoEntsTagged(11)));
}

#[test]
fn tag_text() {
    assert_eq!(tag_of_text(&"".to_string(), &"x".to_string()), None);
    assert_eq!(tag_of_text(&"door".to_string(), &"".to_string()), Some(("door".to_string(), None)));
    assert_eq!(
        tag_of_text(&"door".to_string(), &"red".to_string()),
        Some(("door".to_string(), Some("red".to_string())))
    );
}

#[test]
fn ent_prefab_lookup() {
    let mut config = Config::new();
    let fence = config.add_prefab(PrefabConfig { name: "fence".to_string(), dirty: false, generation: 0 });
    let tree = config.add_prefab(PrefabConfig { name: "tree".to_string(), dirty: false, generation: 0 });
    let mut tracker = Tracker::new();
    tracker.spawned.push(Tag::new(tree, InstanceSource::Dynamic, 7));
    assert_eq!(tracker.prefab_key_of(7), Some(tree));
    assert_eq!(tracker.prefab_key_of(8), None);
    assert_eq!(ent_prefab(&config, &tracker, 7).map(|pf| pf.name.clone()), Ok("tree".to_string()));
    assert!(matches!(ent_prefab(&config, &tracker, 8), Err(ScriptError::NoPrefab)));
    assert_eq!(config.get(fence).name, "fence");
}

pub mod instances;
pub mod table;
pub use instances::{spawn_all_instances, Tracker as InstanceTracker};

use crate::world::Dead;
use instances::{clear_prefab_instances, entities_of, tags_not_of};
use table::{
    has_key, instance_table_entries, instance_table_insert, instance_table_new,
    instance_table_remove, is_instance_table_key, is_table_key,
    lemma_keys_describe_table, table_entry, table_get, table_insert, table_keys, table_new,
    table_remove, InstanceTable, PrefabTable,
};

use vstd::prelude::*;

verus! {

/// Identifies a prefab, by the bits of its key in the prefab table.
#[derive(PartialEq, Eq, Structural, Clone, Copy, Debug)]
pub struct PrefabKey(pub u64);

/// Identifies an instance recorded in the Config, by the bits of its key.
#[derive(PartialEq, Eq, Structural, Clone, Copy, Debug)]
pub struct InstanceKey(pub u64);

/// What the game rules read of a prefab: its name, and, for keeping spawned
/// instances in sync with it, whether it has been edited and how many
/// edits it has seen.
#[derive(Debug)]
pub struct PrefabConfig {
    pub name: String,
    pub dirty: bool,
    pub generation: usize,
}

/// The instances placed in the world, the prefab table, and the prefab whose
/// removal has been asked for.
pub struct Config {
    pub instances: InstanceTable,
    pub fabs: PrefabTable,
    pub removal_key: Option<PrefabKey>,
}

impl Config {
    /// A config with no instances, no prefabs and no removal asked for.
    pub fn new() -> (config: Config)
        ensures
            config.instances@ == Seq::<(InstanceKey, PrefabKey)>::empty(),
            config.fabs@ == Seq::<(PrefabKey, PrefabConfig)>::empty(),
            config.removal_key is None,
    {
        Config { instances: instance_table_new(), fabs: table_new(), removal_key: None }
    }

    /// Places an instance of the prefab `prefab` under a fresh key, which it
    /// returns.
    pub fn add_instance(&mut self, prefab: PrefabKey) -> (key: InstanceKey)
        requires
            old(self).instances@.len() + 2 < 0x1_0000_0000,
        ensures
            forall|i: int|
                0 <= i < old(self).instances@.len() ==> (#[trigger] old(self).instances@[i]).0 != key,
            exists|i: int|
                0 <= i <= old(self).instances@.len() && final(self).instances@ == old(
                    self,
                ).instances@.insert(i, (key, prefab)),
            final(self).fabs@ == old(self).fabs@,
            final(self).removal_key == old(self).removal_key,
    {
        instance_table_insert(&mut self.instances, prefab)
    }

    /// The placed instances, each key with its prefab's key, in table order.
    pub fn instance_entries(&self) -> (entries: Vec<(InstanceKey, PrefabKey)>)
        ensures
            entries@ == self.instances@,
    {
        instance_table_entries(&self.instances)
    }

    /// Adds a prefab to the table under a fresh key, which it returns.
    pub fn add_prefab(&mut self, pf: PrefabConfig) -> (key: PrefabKey)
        requires
            old(self).fabs@.len() + 2 < 0x1_0000_0000,
        ensures
            !has_key(old(self).fabs@, key),
            exists|i: int|
                0 <= i <= old(self).fabs@.len() && final(self).fabs@ == old(self).fabs@.insert(
                    i,
                    (key, pf),
                ),
            final(self).instances@ == old(self).instances@,
            final(self).removal_key == old(self).removal_key,
    {
        table_insert(&mut self.fabs, pf)
    }

    /// The keys of the prefabs, in the order the table walks them.
    pub fn prefab_keys(&self) -> (keys: Vec<PrefabKey>)
        ensures
            keys@ == self.fabs@.map_values(|p: (PrefabKey, PrefabConfig)| p.0),
            keys@.no_duplicates(),
    {
        table_keys(&self.fabs)
    }

    /// The first prefab with the given name.
    pub fn by_name(&self, name: &String) -> (r: Option<(PrefabKey, &PrefabConfig)>)
        ensures
            match r {
                Some((k, pf)) => {
                    &&& pf.name@ == name@
                    &&& exists|i: int|
                        0 <= i < self.fabs@.len() && self.fabs@[i] == (k, *pf) && forall|j: int|
                            0 <= j < i ==> (#[trigger] self.fabs@[j]).1.name@ != name@
                },
                None => forall|i: int|
                    0 <= i < self.fabs@.len() ==> (#[trigger] self.fabs@[i]).1.name@ != name@,
            },
    {
        let keys = table_keys(&self.fabs);
        let mut i: usize = 0;
        while i < keys.len()
            invariant
                i <= keys.len(),
                keys@ == self.fabs@.map_values(|p: (PrefabKey, PrefabConfig)| p.0),
                keys@.no_duplicates(),
                forall|j: int| 0 <= j < keys@.len() ==> is_table_key(#[trigger] keys@[j]),
                forall|j: int| 0 <= j < i ==> (#[trigger] self.fabs@[j]).1.name@ != name@,
            decreases keys.len() - i,
        {
            let pf = table_entry(&self.fabs, &keys, i);
            if pf.name == *name {
                assert(self.fabs@[i as int] == (keys@[i as int], *pf));
                return Some((keys[i], pf));
            }
            i += 1;
        }
        None
    }
}

impl Config {
    /// The prefab `key`, which must be in the table.
    pub fn get(&self, key: PrefabKey) -> (pf: &PrefabConfig)
        requires
            has_key(self.fabs@, key),
        ensures
            exists|i: int| first_with_key(self.fabs@, key, i) && *pf == self.fabs@[i].1,
    {
        let keys = table_keys(&self.fabs);
        proof {
            lemma_keys_describe_table(self.fabs@, keys@);
        }
        let r = table_get(&self.fabs, key);
        let pf = r.unwrap();
        proof {
            let i = choose|i: int| 0 <= i < self.fabs@.len() && self.fabs@[i] == (key, *pf);
            assert(first_with_key(self.fabs@, key, i));
        }
        pf
    }
}

/// The placed instances but for those whose keys are in `keys`, in order.
pub open spec fn instances_without(
    instances: Seq<(InstanceKey, PrefabKey)>,
    keys: Seq<InstanceKey>,
) -> Seq<(InstanceKey, PrefabKey)> {
    instances.filter(|p: (InstanceKey, PrefabKey)| !keys.contains(p.0))
}

/// Whether `key` is one of `keys`.
fn holds_key(keys: &Vec<InstanceKey>, key: InstanceKey) -> (b: bool)
    ensures
        b == keys@.contains(key),
{
    let mut i: usize = 0;
    while i < keys.len()
        invariant
            i <= keys.len(),
            forall|j: int| 0 <= j < i ==> keys@[j] != key,
        decreases keys.len() - i,
    {
        if keys[i] == key {
            assert(keys@[i as int] == key);
            return true;
        }
        i += 1;
    }
    false
}

impl Config {
    /// Takes the placed instances whose keys are in `keys` out of the
    /// Config; the others stay, in order.
    pub fn forget_instances(&mut self, keys: &Vec<InstanceKey>)
        ensures
            final(self).instances@ == instances_without(old(self).instances@, keys@),
            final(self).fabs@ == old(self).fabs@,
            final(self).removal_key == old(self).removal_key,
    {
        let entries = instance_table_entries(&self.instances);
        let ghost start = self.instances@;
        let mut j: usize = 0;
        while j < entries.len()
            invariant
                j <= entries.len(),
                entries@ == start,
                forall|a: int, b: int|
                    0 <= a < start.len() && 0 <= b < start.len() && a != b ==> #[trigger] start[a].0
                        != #[trigger] start[b].0,
                forall|a: int| 0 <= a < start.len() ==> is_instance_table_key(#[trigger] start[a].0),
                self.instances@ == instances_without(start.take(j as int), keys@) + start.skip(j as int),
                self.fabs@ == old(self).fabs@,
                self.removal_key == old(self).removal_key,
            decreases entries.len() - j,
        {
            let key = entries[j].0;
            let ghost kept = instances_without(start.take(j as int), keys@);
            proof {
                lemma_without_step(start, keys@, j as int);
            }
            if holds_key(keys, key) {
                let ghost before = self.instances@;
                let current = instance_table_entries(&self.instances);
                assert(before[kept.len() as int] == start[j as int]);
                let removed = instance_table_remove(&mut self.instances, key);
                proof {
                    if removed is None {
                        assert(before[kept.len() as int].0 == key);
                        assert(false);
                    }
                    let i = choose|i: int|
                        0 <= i < before.len() && before[i] == (key, removed.unwrap())
                            && self.instances@ == before.remove(i);
                    assert(current@[i].0 == current@[kept.len() as int].0);
                    assert(i == kept.len());
                    assert(self.instances@ =~= kept + start.skip(j as int + 1));
                }
            } else {
                proof {
                    assert(self.instances@ =~= (kept + seq![start[j as int]]) + start.skip(
                        j as int + 1,
                    ));
                }
            }
            j += 1;
        }
        proof {
            assert(start.take(start.len() as int) =~= start);
            assert(start.skip(start.len() as int) =~= Seq::<(InstanceKey, PrefabKey)>::empty());
            assert(self.instances@ =~= instances_without(start, keys@));
        }
    }
}

/// Leaving out no keys leaves every placed instance, in order.
pub proof fn lemma_without_nothing(instances: Seq<(InstanceKey, PrefabKey)>)
    ensures
        instances_without(instances, Seq::empty()) == instances,
    decreases instances.len(),
{
    reveal(Seq::filter);
    if instances.len() > 0 {
        lemma_without_nothing(instances.drop_last());
        assert(instances.drop_last().push(instances.last()) =~= instances);
    }
}

/// Leaving out keys over one more placed instance: it is kept exactly when
/// its key is not among them.
proof fn lemma_without_step(start: Seq<(InstanceKey, PrefabKey)>, keys: Seq<InstanceKey>, j: int)
    requires
        0 <= j < start.len(),
    ensures
        instances_without(start.take(j + 1), keys) == if keys.contains(start[j].0) {
            instances_without(start.take(j), keys)
        } else {
            instances_without(start.take(j), keys).push(start[j])
        },
{
    reveal(Seq::filter);
    let t = start.take(j + 1);
    assert(t.drop_last() =~= start.take(j));
    assert(t.last() == start[j]);
}

/// Whether `i` is the first position of the prefab `key` in `fabs`.
pub open spec fn first_with_key(fabs: Seq<(PrefabKey, PrefabConfig)>, key: PrefabKey, i: int) -> bool {
    &&& 0 <= i < fabs.len()
    &&& fabs[i].0 == key
    &&& forall|j: int| 0 <= j < i ==> (#[trigger] fabs[j]).0 != key
}

/// No key occurs twice in the table.
pub open spec fn keys_distinct(fabs: Seq<(PrefabKey, PrefabConfig)>) -> bool {
    forall|i: int, j: int|
        0 <= i < fabs.len() && 0 <= j < fabs.len() && i != j ==> #[trigger] fabs[i].0
            != #[trigger] fabs[j].0
}

/// Taking an entry out of a table of distinct keys leaves its key nowhere in
/// it, and the other keys still distinct.
proof fn lemma_remove_distinct(fabs: Seq<(PrefabKey, PrefabConfig)>, i: int)
    requires
        keys_distinct(fabs),
        0 <= i < fabs.len(),
    ensures
        keys_distinct(fabs.remove(i)),
        forall|j: int| 0 <= j < fabs.remove(i).len() ==> (#[trigger] fabs.remove(i)[j]).0 != fabs[i].0,
{
    let r = fabs.remove(i);
    assert forall|j: int| 0 <= j < r.len() implies (#[trigger] r[j]).0 != fabs[i].0 by {
        if j < i {
            assert(r[j] == fabs[j]);
        } else {
            assert(r[j] == fabs[j + 1]);
        }
    }
    assert forall|a: int, b: int| 0 <= a < r.len() && 0 <= b < r.len() && a != b implies #[trigger] r[a].0
        != #[trigger] r[b].0 by {
        let a2 = if a < i { a } else { a + 1 };
        let b2 = if b < i { b } else { b + 1 };
        assert(r[a] == fabs[a2]);
        assert(r[b] == fabs[b2]);
    }
}

impl Config {
    /// Takes the prefab `key` out of the table: afterwards no entry has that
    /// key, and the others stay in order.
    pub fn remove(&mut self, key: PrefabKey)
        ensures
            forall|i: int| 0 <= i < final(self).fabs@.len() ==> (#[trigger] final(self).fabs@[i]).0 != key,
            final(self).instances@ == old(self).instances@,
            final(self).removal_key == old(self).removal_key,
            has_key(old(self).fabs@, key) ==> (exists|i: int|
                first_with_key(old(self).fabs@, key, i) && final(self).fabs@ == old(
                    self,
                ).fabs@.remove(i)),
            !has_key(old(self).fabs@, key) ==> final(self).fabs@ == old(self).fabs@,
    {
        let keys = table_keys(&self.fabs);
        proof {
            lemma_keys_describe_table(self.fabs@, keys@);
        }
        if key.0 / 0x1_0000_0000 % 2 == 1 {
            let ghost before = self.fabs@;
            let removed = table_remove(&mut self.fabs, key);
            proof {
                if removed is Some {
                    let i = choose|i: int|
                        0 <= i < before.len() && before[i] == (key, removed.unwrap()) && self.fabs@
                            == before.remove(i);
                    lemma_remove_distinct(before, i);
                    assert forall|j: int| 0 <= j < i implies (#[trigger] before[j]).0 != key by {
                        assert(before[j].0 != before[i].0);
                    }
                    assert(first_with_key(before, key, i));
                }
            }
        }
    }
}

/// Carries out a requested removal of a prefab: every instance of it stops
/// being tracked and has its entity marked dead, and the prefab leaves the
/// table. Returns the removed prefab's key, if a removal was requested.
pub fn clear_removed_prefabs(
    config: &mut Config,
    instance_tracker: &mut InstanceTracker,
    dead: &mut Dead,
) -> (removed: Option<PrefabKey>)
    ensures
        removed == old(config).removal_key,
        final(config).removal_key is None,
        final(config).instances@ == old(config).instances@,
        match removed {
            Some(key) => {
                &&& final(instance_tracker).spawned@ == tags_not_of(
                    old(instance_tracker).spawned@,
                    key,
                )
                &&& final(dead)@ == old(dead)@.union(
                    entities_of(old(instance_tracker).spawned@, key).to_set(),
                )
                &&& forall|i: int|
                    0 <= i < final(config).fabs@.len() ==> (#[trigger] final(config).fabs@[i]).0 != key
                &&& has_key(old(config).fabs@, key) ==> (exists|i: int|
                    first_with_key(old(config).fabs@, key, i) && final(config).fabs@ == old(
                        config,
                    ).fabs@.remove(i))
                &&& !has_key(old(config).fabs@, key) ==> final(config).fabs@ == old(config).fabs@
            },
            None => {
                &&& final(instance_tracker).spawned@ == old(instance_tracker).spawned@
                &&& final(dead)@ == old(dead)@
                &&& final(config).fabs@ == old(config).fabs@
            },
        },
{
    let removal = config.removal_key.take();
    if let Some(key) = removal {
        clear_prefab_instances(instance_tracker, dead, key);
        config.remove(key);
    }
    removal
}

} // verus!

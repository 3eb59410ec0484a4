use super::{InstanceKey, PrefabConfig, PrefabKey};
use slotmap::{DefaultKey, Key, KeyData, SlotMap};
use vstd::prelude::*;

verus! {

/// The prefab table: a slot map from prefab keys to prefabs. Verus does not
/// look inside it (`SlotMap` cannot be declared to Verus, its key parameter
/// being bound by `slotmap`'s own `Key` trait); what it holds is named by
/// `prefabs_of`, and every use of the slot map goes through a wrapper below.
#[verifier::external_body]
pub struct PrefabTable {
    slots: SlotMap<DefaultKey, PrefabConfig>,
}

/// The prefabs a prefab table holds, each with its key, in the order the
/// table walks them (the order of their slots).
pub uninterp spec fn prefabs_of(table: PrefabTable) -> Seq<(PrefabKey, PrefabConfig)>;

impl View for PrefabTable {
    type V = Seq<(PrefabKey, PrefabConfig)>;

    open spec fn view(&self) -> Seq<(PrefabKey, PrefabConfig)> {
        prefabs_of(*self)
    }
}

/// Whether `key` has the shape of a key the table hands out: the version in
/// its upper half is odd.
pub open spec fn is_table_key(key: PrefabKey) -> bool {
    (key.0 / 0x1_0000_0000) % 2 == 1
}

/// Whether some entry of `fabs` has the key `key`.
pub open spec fn has_key(fabs: Seq<(PrefabKey, PrefabConfig)>, key: PrefabKey) -> bool {
    exists|i: int| 0 <= i < fabs.len() && (#[trigger] fabs[i]).0 == key
}

/// Calls `SlotMap::new`: the new table is empty.
#[verifier::external_body]
pub(crate) fn table_new() -> (table: PrefabTable)
    ensures
        prefabs_of(table) == Seq::<(PrefabKey, PrefabConfig)>::empty(),
{
    PrefabTable { slots: SlotMap::new() }
}

/// Calls `SlotMap::insert`, which puts the prefab into a free slot (or a new
/// one at the end) under a key no live entry has, with an odd version; the
/// other entries keep their keys, values and order. It panics only when every
/// one of the `u32::MAX` slots is taken, which `requires` rules out.
#[verifier::external_body]
pub(crate) fn table_insert(table: &mut PrefabTable, pf: PrefabConfig) -> (key: PrefabKey)
    requires
        prefabs_of(*old(table)).len() + 2 < 0x1_0000_0000,
    ensures
        is_table_key(key),
        !has_key(prefabs_of(*old(table)), key),
        exists|i: int|
            0 <= i <= prefabs_of(*old(table)).len() && prefabs_of(*final(table)) == prefabs_of(
                *old(table),
            ).insert(i, (key, pf)),
{
    PrefabKey(table.slots.insert(pf).data().as_ffi())
}

/// Calls `SlotMap::keys`: the keys in the order the table walks them. They
/// are distinct, since each names its own slot, and each has an odd version.
#[verifier::external_body]
pub(crate) fn table_keys(table: &PrefabTable) -> (keys: Vec<PrefabKey>)
    ensures
        keys@ == prefabs_of(*table).map_values(|p: (PrefabKey, PrefabConfig)| p.0),
        keys@.no_duplicates(),
        forall|i: int| 0 <= i < keys@.len() ==> is_table_key(#[trigger] keys@[i]),
{
    table.slots.keys().map(|k| PrefabKey(k.data().as_ffi())).collect()
}

/// Calls `SlotMap::get` with the key whose bits are `key`: the prefab stored
/// under it, if any.
#[verifier::external_body]
pub(crate) fn table_get(table: &PrefabTable, key: PrefabKey) -> (pf: Option<&PrefabConfig>)
    requires
        is_table_key(key),
    ensures
        match pf {
            Some(pf) => exists|i: int|
                0 <= i < prefabs_of(*table).len() && prefabs_of(*table)[i] == (key, *pf),
            None => !has_key(prefabs_of(*table), key),
        },
{
    table.slots.get(KeyData::from_ffi(key.0).into())
}

/// Calls `SlotMap::get_mut` with the key whose bits are `key`, which is in
/// the table: what is written through the reference lands in that entry.
#[verifier::external_body]
pub(crate) fn table_get_mut(table: &mut PrefabTable, key: PrefabKey) -> (pf: &mut PrefabConfig)
    requires
        is_table_key(key),
        has_key(prefabs_of(*old(table)), key),
    ensures
        exists|i: int|
            0 <= i < prefabs_of(*old(table)).len() && prefabs_of(*old(table))[i] == (key, *pf)
                && prefabs_of(*final(table)) == prefabs_of(*old(table)).update(i, (key, *final(pf))),
{
    table.slots.get_mut(KeyData::from_ffi(key.0).into()).unwrap()
}

/// Calls `SlotMap::remove` with the key whose bits are `key`: the entry under
/// it leaves the table and its prefab is handed back; the others stay in order.
#[verifier::external_body]
pub(crate) fn table_remove(table: &mut PrefabTable, key: PrefabKey) -> (pf: Option<PrefabConfig>)
    requires
        is_table_key(key),
    ensures
        match pf {
            Some(pf) => exists|i: int|
                0 <= i < prefabs_of(*old(table)).len() && prefabs_of(*old(table))[i] == (key, pf)
                    && prefabs_of(*final(table)) == prefabs_of(*old(table)).remove(i),
            None => !has_key(prefabs_of(*old(table)), key) && prefabs_of(*final(table))
                == prefabs_of(*old(table)),
        },
{
    table.slots.remove(KeyData::from_ffi(key.0).into())
}

/// What `table_keys` hands back says of the table: its keys are distinct and
/// each has an odd version.
pub proof fn lemma_keys_describe_table(
    fabs: Seq<(PrefabKey, PrefabConfig)>,
    keys: Seq<PrefabKey>,
)
    requires
        keys == fabs.map_values(|p: (PrefabKey, PrefabConfig)| p.0),
        keys.no_duplicates(),
        forall|i: int| 0 <= i < keys.len() ==> is_table_key(#[trigger] keys[i]),
    ensures
        forall|i: int, j: int|
            0 <= i < fabs.len() && 0 <= j < fabs.len() && i != j ==> #[trigger] fabs[i].0
                != #[trigger] fabs[j].0,
        forall|i: int| 0 <= i < fabs.len() ==> is_table_key(#[trigger] fabs[i].0),
{
    assert forall|i: int, j: int|
        0 <= i < fabs.len() && 0 <= j < fabs.len() && i != j implies #[trigger] fabs[i].0
            != #[trigger] fabs[j].0 by {
        assert(keys[i] == fabs[i].0);
        assert(keys[j] == fabs[j].0);
    }
    assert forall|i: int| 0 <= i < fabs.len() implies is_table_key(#[trigger] fabs[i].0) by {
        assert(keys[i] == fabs[i].0);
    }
}

/// The prefab at position `i` of the table, found by its key in `keys`, what
/// `table_keys` handed back for this table.
pub(crate) fn table_entry<'a>(table: &'a PrefabTable, keys: &Vec<PrefabKey>, i: usize) -> (pf:
    &'a PrefabConfig)
    requires
        keys@ == table@.map_values(|p: (PrefabKey, PrefabConfig)| p.0),
        keys@.no_duplicates(),
        forall|j: int| 0 <= j < keys@.len() ==> is_table_key(#[trigger] keys@[j]),
        i < keys@.len(),
    ensures
        *pf == table@[i as int].1,
{
    proof {
        lemma_keys_describe_table(table@, keys@);
    }
    let key = keys[i];
    assert(key == table@[i as int].0);
    let r = table_get(table, key);
    assert(r is Some);
    let pf = r.unwrap();
    proof {
        let j = choose|j: int| 0 <= j < table@.len() && table@[j] == (key, *pf);
        assert(table@[j].0 == table@[i as int].0);
    }
    pf
}

/// The table of instances placed in the Config: a slot map from instance keys
/// to the key of each instance's prefab. Like `PrefabTable`, Verus does not
/// look inside it; what it holds is named by `instances_of`.
#[verifier::external_body]
pub struct InstanceTable {
    slots: SlotMap<DefaultKey, PrefabKey>,
}

/// The instances an instance table holds, each key with its prefab's key, in
/// the order the table walks them (the order of their slots).
pub uninterp spec fn instances_of(table: InstanceTable) -> Seq<(InstanceKey, PrefabKey)>;

impl View for InstanceTable {
    type V = Seq<(InstanceKey, PrefabKey)>;

    open spec fn view(&self) -> Seq<(InstanceKey, PrefabKey)> {
        instances_of(*self)
    }
}

/// Calls `SlotMap::new`: the new table is empty.
#[verifier::external_body]
pub(crate) fn instance_table_new() -> (table: InstanceTable)
    ensures
        instances_of(table) == Seq::<(InstanceKey, PrefabKey)>::empty(),
{
    InstanceTable { slots: SlotMap::new() }
}

/// Calls `SlotMap::insert`, which puts the instance into a free slot (or a new
/// one at the end) under a key no live entry has; the other entries keep their
/// keys, values and order. It panics only when every one of the `u32::MAX`
/// slots is taken, which `requires` rules out.
#[verifier::external_body]
pub(crate) fn instance_table_insert(table: &mut InstanceTable, prefab: PrefabKey) -> (key: InstanceKey)
    requires
        instances_of(*old(table)).len() + 2 < 0x1_0000_0000,
    ensures
        forall|i: int|
            0 <= i < instances_of(*old(table)).len() ==> (#[trigger] instances_of(*old(table))[i]).0
                != key,
        exists|i: int|
            0 <= i <= instances_of(*old(table)).len() && instances_of(*final(table))
                == instances_of(*old(table)).insert(i, (key, prefab)),
{
    InstanceKey(table.slots.insert(prefab).data().as_ffi())
}

/// Whether `key` has the shape of a key the instance table hands out: the
/// version in its upper half is odd.
pub open spec fn is_instance_table_key(key: InstanceKey) -> bool {
    (key.0 / 0x1_0000_0000) % 2 == 1
}

/// Calls `SlotMap::iter`: every instance with its prefab's key, in the order
/// the table walks them. The keys are distinct, since each names its own
/// slot, and each has an odd version.
#[verifier::external_body]
pub(crate) fn instance_table_entries(table: &InstanceTable) -> (entries: Vec<(InstanceKey, PrefabKey)>)
    ensures
        entries@ == instances_of(*table),
        forall|i: int, j: int|
            0 <= i < entries@.len() && 0 <= j < entries@.len() && i != j ==> #[trigger] entries@[i].0
                != #[trigger] entries@[j].0,
        forall|i: int| 0 <= i < entries@.len() ==> is_instance_table_key(#[trigger] entries@[i].0),
{
    table.slots.iter().map(|(k, pf)| (InstanceKey(k.data().as_ffi()), *pf)).collect()
}

/// Calls `SlotMap::remove` with the key whose bits are `key`: the instance
/// under it leaves the table and its prefab's key is handed back; the others
/// stay in order.
#[verifier::external_body]
pub(crate) fn instance_table_remove(table: &mut InstanceTable, key: InstanceKey) -> (prefab: Option<PrefabKey>)
    requires
        is_instance_table_key(key),
    ensures
        match prefab {
            Some(prefab) => exists|i: int|
                0 <= i < instances_of(*old(table)).len() && instances_of(*old(table))[i] == (
                    key,
                    prefab,
                ) && instances_of(*final(table)) == instances_of(*old(table)).remove(i),
            None => (forall|i: int|
                0 <= i < instances_of(*old(table)).len() ==> (#[trigger] instances_of(
                    *old(table),
                )[i]).0 != key) && instances_of(*final(table)) == instances_of(*old(table)),
        },
{
    table.slots.remove(KeyData::from_ffi(key.0).into())
}

} // verus!

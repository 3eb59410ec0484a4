use crate::entity::EntityId;
use crate::world::prefab::{InstanceKey, PrefabKey};
pub mod overview_ui;
pub mod selector;

use vstd::prelude::*;

verus! {

/// Where a spawned prefab instance comes from.
#[derive(PartialEq, Eq, Structural, Clone, Copy, Debug)]
pub enum InstanceSource {
    /// Instances spawned by scripts or otherwise not present in the Config.
    /// it prevents them from being saved with the "Save file" button or being
    /// shown in the developer UI.
    Dynamic,
    /// Instances recorded in and read from the Config.
    Config(InstanceKey),
}

/// Contains all of the information necessary to keep tabs on a spawned prefab instance
#[derive(PartialEq, Eq, Structural, Clone, Copy, Debug)]
pub struct Tag {
    /// Helps us keep track of if we need to recreate this Instance so it matches its Prefab.
    pub generation: usize,
    /// Helps us keep track of if we've started removing this Instance so we don't
    /// add it to the dead entity queue gratuitously
    pub killed: bool,
    pub selected: bool,
    pub prefab_key: PrefabKey,
    pub entity: EntityId,
    /// Which paste, if any, brought this instance into the world.
    pub paste: Option<usize>,
    pub source: InstanceSource,
}

impl Tag {
    /// A freshly spawned instance: generation zero, not killed, not selected,
    /// not pasted.
    pub open spec fn fresh(prefab_key: PrefabKey, source: InstanceSource, entity: EntityId) -> Tag {
        Tag {
            generation: 0,
            killed: false,
            selected: false,
            prefab_key,
            entity,
            paste: None,
            source,
        }
    }

    pub fn new(prefab_key: PrefabKey, source: InstanceSource, entity: EntityId) -> (t: Tag)
        ensures
            t == Tag::fresh(prefab_key, source, entity),
    {
        Tag {
            generation: 0,
            killed: false,
            selected: false,
            paste: None,
            prefab_key,
            source,
            entity,
        }
    }

    /// The key of the instance in the Config, for instances read from it.
    pub open spec fn spec_instance_key(self) -> Option<InstanceKey> {
        match self.source {
            InstanceSource::Config(k) => Some(k),
            InstanceSource::Dynamic => None,
        }
    }

    pub fn instance_key(&self) -> (k: Option<InstanceKey>)
        ensures
            k == self.spec_instance_key(),
    {
        match self.source {
            InstanceSource::Config(k) => Some(k),
            _ => None,
        }
    }
}

/// The tags, in order, of instances of the prefab `pf_key`.
pub open spec fn tags_of(tags: Seq<Tag>, pf_key: PrefabKey) -> Seq<Tag> {
    tags.filter_map(|t: Tag| if t.prefab_key == pf_key { Some(t) } else { None })
}

/// Tracks all of the spawned prefab instances
/// so that we can reset them or clear them if need be.
pub struct Tracker {
    pub spawned: Vec<Tag>,
}

impl Tracker {
    pub fn new() -> (t: Tracker)
        ensures
            t.spawned@ == Seq::<Tag>::empty(),
    {
        Tracker { spawned: Vec::new() }
    }

    /// The tracked instances of the prefab `pf_key`, in the order they are tracked.
    pub fn instances_of(&self, pf_key: PrefabKey) -> (v: Vec<Tag>)
        ensures
            v@ == tags_of(self.spawned@, pf_key),
    {
        let mut v: Vec<Tag> = Vec::new();
        let mut i: usize = 0;
        while i < self.spawned.len()
            invariant
                i <= self.spawned.len(),
                v@ == tags_of(self.spawned@.take(i as int), pf_key),
            decreases self.spawned.len() - i,
        {
            assert(self.spawned@.take(i as int + 1).drop_last() == self.spawned@.take(i as int));
            let t = self.spawned[i];
            if t.prefab_key == pf_key {
                v.push(t);
            }
            i += 1;
        }
        assert(self.spawned@.take(self.spawned.len() as int) == self.spawned@);
        v
    }

    /// Records the entity newly spawned for the tracked instance at
    /// `tag_index`.
    pub fn respawned(&mut self, tag_index: usize, entity: EntityId)
        requires
            tag_index < old(self).spawned@.len(),
        ensures
            final(self).spawned@ == old(self).spawned@.update(
                tag_index as int,
                Tag { entity, ..old(self).spawned@[tag_index as int] },
            ),
    {
        let t = self.spawned[tag_index];
        self.spawned.set(tag_index, Tag { entity, ..t });
    }

    /// Use this function to track Instances that aren't a part of the config,
    /// once `entity` has been spawned from the prefab `pf_key`.
    pub fn spawn_dynamic(&mut self, pf_key: PrefabKey, entity: EntityId) -> (t: Tag)
        ensures
            t == Tag::fresh(pf_key, InstanceSource::Dynamic, entity),
            final(self).spawned@ == old(self).spawned@.push(t),
    {
        let tag = Tag::new(pf_key, InstanceSource::Dynamic, entity);
        self.spawned.push(tag);
        tag
    }
}

} // verus!

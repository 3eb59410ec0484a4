use super::{Tag, Tracker};
use crate::entity::EntityId;
use crate::world::prefab::InstanceKey;
use crate::world::Dead;
use vstd::prelude::*;

verus! {

broadcast use vstd::std_specs::hash::group_hash_axioms;

/// The first tag, from `i` on, of the Config instance `key`.
pub open spec fn first_of_key(tags: Seq<Tag>, key: InstanceKey, i: int) -> Option<int>
    decreases tags.len() - i,
{
    if i < 0 || i >= tags.len() {
        None
    } else if tags[i].spec_instance_key() == Some(key) {
        Some(i)
    } else {
        first_of_key(tags, key, i + 1)
    }
}

proof fn lemma_first_of_key_skips(tags: Seq<Tag>, key: InstanceKey, i: int)
    requires
        0 <= i <= tags.len(),
        forall|j: int| 0 <= j < i ==> (#[trigger] tags[j]).spec_instance_key() != Some(key),
    ensures
        first_of_key(tags, key, 0) == first_of_key(tags, key, i),
    decreases i,
{
    if i > 0 {
        lemma_first_of_key_skips(tags, key, i - 1);
    }
}

/// The tag of an instance spawned again after an edit: fresh, but keeping
/// the generation it was spawned at.
pub open spec fn recycled_tag(t: Tag, entity: EntityId) -> Tag {
    Tag { entity, killed: false, selected: false, paste: None, ..t }
}

impl Tracker {
    /// An edited instance is killed so that it can be spawned again from its
    /// edited Config entry: its tag is marked killed and its entity dead.
    pub fn kill_for_recycle(&mut self, tag_index: usize, dead: &mut Dead)
        requires
            tag_index < old(self).spawned@.len(),
        ensures
            final(self).spawned@ == old(self).spawned@.update(
                tag_index as int,
                Tag { killed: true, ..old(self).spawned@[tag_index as int] },
            ),
            final(dead)@ == old(dead)@.insert(old(self).spawned@[tag_index as int].entity),
    {
        let t = self.spawned[tag_index];
        self.spawned.set(tag_index, Tag { killed: true, ..t });
        dead.mark(t.entity);
    }

    /// Where the instance `key`, waiting to be spawned again, is tracked, once
    /// its old entity is gone from `living`: the first tag of that instance,
    /// if its entity is gone; otherwise it keeps waiting.
    pub fn recycle_slot(&self, key: InstanceKey, living: &std::collections::HashSet<EntityId>) -> (r: Option<usize>)
        ensures
            r == match first_of_key(self.spawned@, key, 0) {
                Some(k) => if living@.contains(self.spawned@[k].entity) {
                    None
                } else {
                    Some(k as usize)
                },
                None => None::<usize>,
            },
    {
        let mut i: usize = 0;
        while i < self.spawned.len()
            invariant
                i <= self.spawned.len(),
                forall|j: int| 0 <= j < i ==> (#[trigger] self.spawned@[j]).spec_instance_key() != Some(key),
            decreases self.spawned.len() - i,
        {
            if self.spawned[i].instance_key() == Some(key) {
                proof {
                    lemma_first_of_key_skips(self.spawned@, key, i as int);
                }
                if living.contains(&self.spawned[i].entity) {
                    return None;
                } else {
                    return Some(i);
                }
            }
            i += 1;
        }
        proof {
            lemma_first_of_key_skips(self.spawned@, key, i as int);
        }
        None
    }

    /// Records the entity spawned again for the tag at `tag_index`.
    pub fn recycled(&mut self, tag_index: usize, entity: EntityId)
        requires
            tag_index < old(self).spawned@.len(),
        ensures
            final(self).spawned@ == old(self).spawned@.update(
                tag_index as int,
                recycled_tag(old(self).spawned@[tag_index as int], entity),
            ),
    {
        let t = self.spawned[tag_index];
        self.spawned.set(tag_index, Tag { entity, killed: false, selected: false, paste: None, ..t });
    }

    /// Resetting the instances begins by marking every tracked entity dead.
    pub fn kill_all(&self, dead: &mut Dead)
        ensures
            final(dead)@ == old(dead)@ + self.spawned@.map_values(|t: Tag| t.entity).to_set(),
    {
        let mut es: Vec<EntityId> = Vec::new();
        let mut i: usize = 0;
        while i < self.spawned.len()
            invariant
                i <= self.spawned.len(),
                es@ == self.spawned@.take(i as int).map_values(|t: Tag| t.entity),
            decreases self.spawned.len() - i,
        {
            es.push(self.spawned[i].entity);
            i += 1;
        }
        assert(self.spawned@.take(self.spawned.len() as int) == self.spawned@);
        dead.mark_all(&es);
    }

    /// A reset finishes once none of the tracked entities lives on: the
    /// tracker is then emptied, for every Config instance to be spawned anew.
    /// Returns whether it finished.
    pub fn finish_reset(&mut self, living: &std::collections::HashSet<EntityId>) -> (done: bool)
        ensures
            done == forall|j: int|
                0 <= j < old(self).spawned@.len() ==> !living@.contains(
                    #[trigger] old(self).spawned@[j].entity,
                ),
            done ==> final(self).spawned@ == Seq::<Tag>::empty(),
            !done ==> final(self).spawned@ == old(self).spawned@,
    {
        let mut i: usize = 0;
        while i < self.spawned.len()
            invariant
                i <= self.spawned.len(),
                self.spawned@ == old(self).spawned@,
                forall|j: int| 0 <= j < i ==> !living@.contains(#[trigger] self.spawned@[j].entity),
            decreases self.spawned.len() - i,
        {
            if living.contains(&self.spawned[i].entity) {
                return false;
            }
            i += 1;
        }
        self.spawned.clear();
        true
    }
}

} // verus!

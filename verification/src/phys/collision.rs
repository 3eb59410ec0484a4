use crate::entity::EntityId;
use crate::world::Dead;
use super::CollisionGroupNumbers;
use vstd::prelude::*;

verus! {

broadcast use vstd::std_specs::hash::group_hash_axioms;

/// Entities with static collision aren't moved when other things run into them.
/// Instead, only the things that run into them will move.
///
/// Walls, fences, mountains, etc. can be considered to be CollisionStatic.
#[derive(PartialEq, Eq, Structural, Clone, Copy, Debug, Default)]
pub struct CollisionStatic;

/// Assigning this component to an Entity allows you to get finer grained control
/// over what an Entity can collide with and be forced out of. The collision groups
/// you pass to `.add_hitbox` control all possible collisions your shape can collide with.
///
/// These groups control only what bodies your Entity will be forced out of should they collide.
/// If these aren't supplied, the collision system will simply default to the collision groups
/// supplied to `.add_hitbox`.
pub struct RigidGroups(pub CollisionGroupNumbers);

impl core::ops::Deref for RigidGroups {
    type Target = CollisionGroupNumbers;

    fn deref(&self) -> (g: &CollisionGroupNumbers)
        ensures
            *g == self.0,
    {
        &self.0
    }
}

/// Refers to an object in the collision world, by its slot.
#[derive(PartialEq, Eq, Structural, Clone, Copy, Debug)]
pub struct PhysHandle(pub usize);

/// The collision objects, in the order of `marks`, of those entities that
/// have one.
pub open spec fn handles_of(marks: Seq<EntityId>, handles: Map<EntityId, PhysHandle>) -> Seq<PhysHandle> {
    marks.filter_map(|e: EntityId| if handles.contains_key(e) { Some(handles[e]) } else { None })
}

/// The collision objects of dead entities, to be removed from the collision
/// world: one for each entity marked dead that has one (`handles` tells
/// which collision object each physical entity has).
pub fn clear_dead_collision_objects(
    dead: &Dead,
    handles: &std::collections::HashMap<EntityId, PhysHandle>,
) -> (removed: Vec<PhysHandle>)
    ensures
        exists|marks: Seq<EntityId>|
            {
                &&& marks.to_set() == dead@
                &&& marks.no_duplicates()
                &&& removed@ == handles_of(marks, handles@)
            },
{
    let marks = dead.marks();
    let mut removed: Vec<PhysHandle> = Vec::new();
    let mut i: usize = 0;
    while i < marks.len()
        invariant
            i <= marks.len(),
            removed@ == handles_of(marks@.take(i as int), handles@),
        decreases marks.len() - i,
    {
        assert(marks@.take(i as int + 1).drop_last() == marks@.take(i as int));
        let e = marks[i];
        if let Some(h) = handles.get(&e) {
            removed.push(*h);
        }
        i += 1;
    }
    assert(marks@.take(marks.len() as int) == marks@);
    removed
}

/// The collision world's word that two entities began or stopped touching.
#[derive(PartialEq, Eq, Structural, Clone, Copy, Debug)]
pub enum ContactEvent {
    Started(EntityId, EntityId),
    Stopped(EntityId, EntityId),
}

/// The set of entities each entity with contacts is touching.
pub open spec fn contact_sets(
    m: Map<EntityId, std::collections::HashSet<EntityId>>,
) -> Map<EntityId, Set<EntityId>> {
    m.map_values(|s: std::collections::HashSet<EntityId>| s@)
}

/// `a`'s contacts, if it records them, with `b` added (`start`) or taken out.
pub open spec fn touched(m: Map<EntityId, Set<EntityId>>, a: EntityId, b: EntityId, start: bool) -> Map<
    EntityId,
    Set<EntityId>,
> {
    if m.contains_key(a) {
        m.insert(
            a,
            if start {
                m[a].insert(b)
            } else {
                m[a].remove(b)
            },
        )
    } else {
        m
    }
}

/// The contacts once an event is recorded: each of the two entities, if it
/// records contacts, gains (or loses) the other.
pub open spec fn after_event(m: Map<EntityId, Set<EntityId>>, ev: ContactEvent) -> Map<
    EntityId,
    Set<EntityId>,
> {
    match ev {
        ContactEvent::Started(a, b) => touched(touched(m, a, b, true), b, a, true),
        ContactEvent::Stopped(a, b) => touched(touched(m, a, b, false), b, a, false),
    }
}

/// The contacts once the events are recorded, one after the other.
pub open spec fn after_events(m: Map<EntityId, Set<EntityId>>, evs: Seq<ContactEvent>) -> Map<
    EntityId,
    Set<EntityId>,
>
    decreases evs.len(),
{
    if evs.len() == 0 {
        m
    } else {
        after_event(after_events(m, evs.drop_last()), evs.last())
    }
}

/// The collisions the events begin, each in both orders, in order.
pub open spec fn started_pairs(evs: Seq<ContactEvent>) -> Seq<(EntityId, EntityId)>
    decreases evs.len(),
{
    if evs.len() == 0 {
        Seq::empty()
    } else {
        let p = started_pairs(evs.drop_last());
        match evs.last() {
            ContactEvent::Started(a, b) => p.push((a, b)).push((b, a)),
            ContactEvent::Stopped(_, _) => p,
        }
    }
}

/// Adds `b` to (`start`) or takes it out of `a`'s contacts, if `a` records
/// contacts.
fn touch(
    contacts: &mut std::collections::HashMap<EntityId, std::collections::HashSet<EntityId>>,
    a: EntityId,
    b: EntityId,
    start: bool,
)
    ensures
        contact_sets(final(contacts)@) == touched(contact_sets(old(contacts)@), a, b, start),
{
    let ghost before = contacts@;
    match contacts.remove(&a) {
        Some(mut set) => {
            if start {
                set.insert(b);
            } else {
                set.remove(&b);
            }
            contacts.insert(a, set);
            proof {
                assert(contacts@ == before.insert(a, contacts@[a]));
                assert(contact_sets(contacts@) =~= touched(contact_sets(before), a, b, start));
            }
        },
        None => {
            proof {
                assert(contacts@ == before);
            }
        },
    }
}

/// Records the collision world's contact events: each entity that records
/// contacts (`contacts` holds the entities it touches) gains the other
/// entity of a begun contact and loses that of an ended one, and every begun
/// contact is added to `new_collisions` in both orders, for scripts to see.
pub fn record_contact_events(
    contacts: &mut std::collections::HashMap<EntityId, std::collections::HashSet<EntityId>>,
    events: &Vec<ContactEvent>,
    new_collisions: &mut Vec<(EntityId, EntityId)>,
)
    ensures
        contact_sets(final(contacts)@) == after_events(contact_sets(old(contacts)@), events@),
        final(new_collisions)@ == old(new_collisions)@ + started_pairs(events@),
{
    let ghost m0 = contact_sets(contacts@);
    let ghost n0 = new_collisions@;
    let mut i: usize = 0;
    while i < events.len()
        invariant
            i <= events.len(),
            contact_sets(contacts@) == after_events(m0, events@.take(i as int)),
            new_collisions@ == n0 + started_pairs(events@.take(i as int)),
        decreases events.len() - i,
    {
        proof {
            assert(events@.take(i as int + 1).drop_last() == events@.take(i as int));
            assert(events@.take(i as int + 1).last() == events@[i as int]);
        }
        match events[i] {
            ContactEvent::Started(a, b) => {
                touch(contacts, a, b, true);
                touch(contacts, b, a, true);
                new_collisions.push((a, b));
                new_collisions.push((b, a));
                proof {
                    assert(new_collisions@ =~= n0 + started_pairs(events@.take(i as int + 1)));
                }
            },
            ContactEvent::Stopped(a, b) => {
                touch(contacts, a, b, false);
                touch(contacts, b, a, false);
            },
        }
        i += 1;
    }
    assert(events@.take(events.len() as int) == events@);
}

/// A contact that begins and then ends between entities that were not
/// touching leaves the contacts as they were.
pub proof fn lemma_contact_begun_and_ended(m: Map<EntityId, Set<EntityId>>, a: EntityId, b: EntityId)
    requires
        m.contains_key(a) ==> !m[a].contains(b),
        m.contains_key(b) ==> !m[b].contains(a),
    ensures
        after_event(after_event(m, ContactEvent::Started(a, b)), ContactEvent::Stopped(a, b)) == m,
{
    let m2 = after_event(after_event(m, ContactEvent::Started(a, b)), ContactEvent::Stopped(a, b));
    assert forall|k: EntityId| m.contains_key(k) implies m2[k] =~= m[k] by {}
    assert(m2 =~= m);
}

/// After a contact begins, each of its entities that records contacts is
/// touching the other.
pub proof fn lemma_contact_recorded(m: Map<EntityId, Set<EntityId>>, a: EntityId, b: EntityId)
    ensures
        after_event(m, ContactEvent::Started(a, b)).contains_key(a) == m.contains_key(a),
        m.contains_key(a) ==> after_event(m, ContactEvent::Started(a, b))[a].contains(b),
        m.contains_key(b) ==> after_event(m, ContactEvent::Started(a, b))[b].contains(a),
{
}

} // verus!

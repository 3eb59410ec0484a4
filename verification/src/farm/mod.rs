use crate::entity::EntityId;
use vstd::prelude::*;

verus! {

/// Marks tiles that can be planted on.
#[derive(PartialEq, Eq, Structural, Clone, Copy, Debug)]
pub struct Farmable;

/// Entities with this component will be dragged toward the center of the tile the player's mouse
/// is over, if that tile can be planted on and the player is holding a seed.
#[derive(PartialEq, Eq, Structural, Clone, Copy, Debug)]
pub struct PlantingCursor;

/// Replaces this entity with the given Item (as described in the config file)
/// after the supplied duration.
#[derive(Debug)]
pub struct Growth {
    /// Indicates which item in the config file should replace this entity
    /// when this one completes its growth.
    pub after: String,
    /// How long this growth stage lasts, in frames.
    pub duration: usize,
}

impl Growth {
    /// Counts down one frame of growth; returns whether the growth stage is
    /// over and the entity is to be replaced by the item `after`.
    pub fn grow(&mut self) -> (done: bool)
        requires
            old(self).duration > 0,
        ensures
            final(self).duration == old(self).duration - 1,
            final(self).after == old(self).after,
            done == (final(self).duration == 0),
    {
        self.duration = self.duration - 1;
        self.duration == 0
    }
}

/// The entities, in order, whose growth stage ends with this frame, each with
/// the item to replace it with.
pub open spec fn completed(growths: Seq<(EntityId, Growth)>) -> Seq<(EntityId, String)> {
    growths.filter_map(
        |g: (EntityId, Growth)|
            if g.1.duration == 1 {
                Some((g.0, g.1.after))
            } else {
                None
            },
    )
}

/// Counts down every growing entity; returns, in order, the entities whose
/// growth stage is over, each with the item to replace it with.
///
/// An entity whose growth is over has been replaced already, so each growth
/// given has at least one frame left.
pub fn growing(growths: &mut Vec<(EntityId, Growth)>) -> (grown: Vec<(EntityId, String)>)
    requires
        forall|i: int| 0 <= i < old(growths)@.len() ==> (#[trigger] old(growths)@[i]).1.duration > 0,
    ensures
        final(growths)@.len() == old(growths)@.len(),
        forall|i: int|
            0 <= i < old(growths)@.len() ==> {
                &&& (#[trigger] final(growths)@[i]).0 == old(growths)@[i].0
                &&& final(growths)@[i].1.after == old(growths)@[i].1.after
                &&& final(growths)@[i].1.duration == old(growths)@[i].1.duration - 1
            },
        grown@ == completed(old(growths)@),
{
    let mut grown: Vec<(EntityId, String)> = Vec::new();
    let mut i: usize = 0;
    while i < growths.len()
        invariant
            i <= growths.len(),
            growths@.len() == old(growths)@.len(),
            forall|j: int| i <= j < growths@.len() ==> #[trigger] growths@[j] == old(growths)@[j],
            forall|j: int|
                0 <= j < i ==> {
                    &&& (#[trigger] growths@[j]).0 == old(growths)@[j].0
                    &&& growths@[j].1.after == old(growths)@[j].1.after
                    &&& growths@[j].1.duration == old(growths)@[j].1.duration - 1
                },
            forall|j: int| 0 <= j < old(growths)@.len() ==> (#[trigger] old(growths)@[j]).1.duration > 0,
            grown@ == completed(old(growths)@.take(i as int)),
        decreases growths.len() - i,
    {
        assert(old(growths)@.take(i as int + 1).drop_last() == old(growths)@.take(i as int));
        let ghost g = old(growths)@[i as int];
        assert(old(growths)@.take(i as int + 1).last() == g);
        let entry = &mut growths[i];
        let done = entry.1.grow();
        if done {
            let after = entry.1.after.clone();
            grown.push((entry.0, after));
        }
        i += 1;
    }
    assert(old(growths)@.take(old(growths)@.len() as int) == old(growths)@);
    grown
}

/// A growing entity is replaced exactly on the frame its growth runs out:
/// it is among the completed ones, with its item, just when it had one frame
/// left.
pub proof fn lemma_grown_when_time_is_up(growths: Seq<(EntityId, Growth)>, e: EntityId, after: String)
    ensures
        completed(growths).contains((e, after)) <==> exists|i: int|
            0 <= i < growths.len() && (#[trigger] growths[i]).0 == e && growths[i].1.after == after
                && growths[i].1.duration == 1,
    decreases growths.len(),
{
    if growths.len() > 0 {
        let rest = growths.drop_last();
        lemma_grown_when_time_is_up(rest, e, after);
        let cr = completed(rest);
        let g = growths.last();
        if completed(growths).contains((e, after)) {
            let k = choose|k: int| 0 <= k < completed(growths).len() && completed(growths)[k] == (e, after);
            if g.1.duration == 1 && k == cr.len() {
                assert(growths[growths.len() - 1] == g);
            } else {
                assert(completed(growths)[k] == cr[k]);
                assert(cr.contains((e, after)));
                let i = choose|i: int|
                    0 <= i < rest.len() && (#[trigger] rest[i]).0 == e && rest[i].1.after == after
                        && rest[i].1.duration == 1;
                assert(growths[i] == rest[i]);
            }
        }
        if exists|i: int|
            0 <= i < growths.len() && (#[trigger] growths[i]).0 == e && growths[i].1.after == after
                && growths[i].1.duration == 1 {
            let i = choose|i: int|
                0 <= i < growths.len() && (#[trigger] growths[i]).0 == e && growths[i].1.after == after
                    && growths[i].1.duration == 1;
            if i < rest.len() {
                assert(rest[i] == growths[i]);
                assert(cr.contains((e, after)));
                let k = choose|k: int| 0 <= k < cr.len() && cr[k] == (e, after);
                if g.1.duration == 1 {
                    assert(completed(growths) == cr + seq![(g.0, g.1.after)]);
                    assert(completed(growths)[k] == (e, after));
                } else {
                    assert(completed(growths) == cr);
                }
            } else {
                assert(g == growths[i]);
                assert(completed(growths) == cr + seq![(g.0, g.1.after)]);
                assert(completed(growths)[cr.len() as int] == (e, after));
            }
        }
    }
}

} // verus!

pub mod player;
pub mod prefab;
pub mod script;

use crate::entity::EntityId;
use vstd::prelude::*;

verus! {

broadcast use vstd::std_specs::hash::group_hash_axioms;

/// Pushing an entity that a sequence lacks adds it to the sequence's set and
/// keeps the sequence free of duplicates.
proof fn lemma_push_fresh(s: Seq<EntityId>, e: EntityId)
    requires
        s.no_duplicates(),
        !s.contains(e),
    ensures
        s.push(e).to_set() == s.to_set().insert(e),
        s.push(e).no_duplicates(),
{
    assert forall|x: EntityId| s.push(e).to_set().contains(x) == s.to_set().insert(e).contains(x) by {
        if s.contains(x) {
            let i = choose|i: int| 0 <= i < s.len() && s[i] == x;
            assert(s.push(e)[i] == x);
        }
        if x == e {
            assert(s.push(e)[s.len() as int] == e);
        }
        if s.push(e).contains(x) {
            let i = choose|i: int| 0 <= i < s.len() + 1 && s.push(e)[i] == x;
            if i < s.len() {
                assert(s[i] == x);
            }
        }
    }
    assert(s.push(e).to_set() =~= s.to_set().insert(e));
    assert forall|i: int, j: int| 0 <= i < s.push(e).len() && 0 <= j < s.push(e).len() && i != j
        implies s.push(e)[i] != s.push(e)[j] by {
        if i < s.len() && j < s.len() {
        } else if i < s.len() {
            assert(s.contains(s[i]));
        } else {
            assert(s.contains(s[j]));
        }
    }
}

/// Marks Entities to be deleted at the end of the frame.
pub struct Dead {
    marks: std::collections::HashSet<EntityId>,
    /// The marked entities, each once, in the order they were first marked.
    order: Vec<EntityId>,
}

impl View for Dead {
    type V = Set<EntityId>;

    closed spec fn view(&self) -> Set<EntityId> {
        self.marks@
    }
}

impl Dead {
    #[verifier::type_invariant]
    closed spec fn wf(self) -> bool {
        &&& self.order@.to_set() == self.marks@
        &&& self.order@.no_duplicates()
    }

    /// A set of no marks that allocates nothing.
    fn empty() -> (d: Self)
        ensures
            d@ == Set::<EntityId>::empty(),
    {
        let marks = std::collections::HashSet::new();
        let order: Vec<EntityId> = Vec::new();
        assert(order@.to_set() =~= Set::<EntityId>::empty());
        Dead { marks, order }
    }

    pub fn new() -> (d: Self)
        ensures
            d@ == Set::<EntityId>::empty(),
    {
        let marks = std::collections::HashSet::with_capacity(1000);
        let order: Vec<EntityId> = Vec::new();
        assert(order@.to_set() =~= Set::<EntityId>::empty());
        Dead { marks, order }
    }

    pub fn mark(&mut self, e: EntityId)
        ensures
            final(self)@ == old(self)@.insert(e),
    {
        let mut taken = Dead::empty();
        core::mem::swap(&mut taken, self);
        proof {
            use_type_invariant(&taken);
        }
        let Dead { mut marks, mut order } = taken;
        let ghost old_order = order@;
        let ghost old_marks = marks@;
        if marks.insert(e) {
            assert(!old_order.to_set().contains(e));
            proof {
                lemma_push_fresh(old_order, e);
            }
            order.push(e);
        } else {
            assert(old_marks.insert(e) =~= old_marks);
            assert(marks@ =~= old_marks);
        }
        *self = Dead { marks, order };
    }

    /// Marks each of `es`.
    pub fn mark_all(&mut self, es: &Vec<EntityId>)
        ensures
            final(self)@ == old(self)@ + es@.to_set(),
    {
        let ghost start = self@;
        let mut i: usize = 0;
        while i < es.len()
            invariant
                i <= es.len(),
                self@ == start + es@.take(i as int).to_set(),
            decreases es.len() - i,
        {
            proof {
                assert(es@.take(i as int + 1) == es@.take(i as int).push(es@[i as int]));
                es@.take(i as int).lemma_push_to_set_commute(es@[i as int]);
            }
            self.mark(es[i]);
            proof {
                assert(self@ =~= start + es@.take(i as int + 1).to_set());
            }
            i += 1;
        }
        assert(es@.take(es.len() as int) == es@);
    }

    pub fn is_marked(&self, e: EntityId) -> (b: bool)
        ensures
            b == self@.contains(e),
    {
        self.marks.contains(&e)
    }

    /// The marked entities, each once.
    pub fn marks(&self) -> (v: Vec<EntityId>)
        ensures
            v@.to_set() == self@,
            v@.no_duplicates(),
    {
        proof {
            use_type_invariant(self);
        }
        self.order.clone()
    }

    /// Hands out the marked entities, each once, and forgets them.
    pub fn drain(&mut self) -> (v: Vec<EntityId>)
        ensures
            v@.to_set() == old(self)@,
            v@.no_duplicates(),
            final(self)@ == Set::<EntityId>::empty(),
    {
        proof {
            use_type_invariant(&*self);
        }
        let mut taken = Dead::new();
        core::mem::swap(&mut taken, self);
        proof {
            use_type_invariant(&taken);
        }
        let Dead { marks, order } = taken;
        order
    }
}

} // verus!

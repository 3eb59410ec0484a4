pub mod aiming;
pub mod collision;
pub mod face_cursor;
pub mod movement;

pub use collision::PhysHandle;

use collision::CollisionStatic;

use vstd::prelude::*;

verus! {

/// Collision Group Constants
#[derive(PartialEq, Eq, Structural, Clone, Copy, Debug, Hash)]
pub enum Collide {
    Player,
    Weapon,
    Enemy,
    /// Fences, Terrain, etc.
    World,
    Creature,
}

impl Collide {
    /// The collision group number of each marker, in declaration order.
    pub open spec fn spec_group(self) -> usize {
        match self {
            Collide::Player => 0,
            Collide::Weapon => 1,
            Collide::Enemy => 2,
            Collide::World => 3,
            Collide::Creature => 4,
        }
    }

    /// The collision group this marker stands for.
    pub fn group(self) -> (g: usize)
        ensures
            g == self.spec_group(),
    {
        match self {
            Collide::Player => 0,
            Collide::Weapon => 1,
            Collide::Enemy => 2,
            Collide::World => 3,
            Collide::Creature => 4,
        }
    }

    /// The marker a script names, if the name is one of the markers'.
    pub fn from_name(name: &str) -> (c: Option<Collide>)
        ensures
            c == if name@ == "Player"@ {
                Some(Collide::Player)
            } else if name@ == "Weapon"@ {
                Some(Collide::Weapon)
            } else if name@ == "Enemy"@ {
                Some(Collide::Enemy)
            } else if name@ == "World"@ {
                Some(Collide::World)
            } else if name@ == "Creature"@ {
                Some(Collide::Creature)
            } else {
                None
            },
    {
        let name = name.to_owned();
        if name == "Player".to_owned() {
            Some(Collide::Player)
        } else if name == "Weapon".to_owned() {
            Some(Collide::Weapon)
        } else if name == "Enemy".to_owned() {
            Some(Collide::Enemy)
        } else if name == "World".to_owned() {
            Some(Collide::World)
        } else if name == "Creature".to_owned() {
            Some(Collide::Creature)
        } else {
            None
        }
    }
}

/// Different markers stand for different collision groups.
pub proof fn lemma_groups_distinct(a: Collide, b: Collide)
    requires
        a != b,
    ensures
        a.spec_group() != b.spec_group(),
        a.spec_group() < 5,
{
}

/// A set of collision markers, each held once, in the order they were added.
pub struct CollideSet {
    members: Vec<Collide>,
}

impl View for CollideSet {
    type V = Set<Collide>;

    closed spec fn view(&self) -> Set<Collide> {
        self.members@.to_set()
    }
}

/// The markers of `s` other than `c`, in order.
pub open spec fn without_collide(s: Seq<Collide>, c: Collide) -> Seq<Collide> {
    s.filter_map(|x: Collide| if x == c { None } else { Some(x) })
}

proof fn lemma_without_collide(s: Seq<Collide>, c: Collide)
    requires
        s.no_duplicates(),
    ensures
        without_collide(s, c).no_duplicates(),
        without_collide(s, c).to_set() == s.to_set().remove(c),
    decreases s.len(),
{
    if s.len() > 0 {
        let rest = s.drop_last();
        assert forall|i: int, j: int| 0 <= i < rest.len() && 0 <= j < rest.len() && i != j implies rest[i]
            != rest[j] by {
            assert(rest[i] == s[i] && rest[j] == s[j]);
        }
        lemma_without_collide(rest, c);
        let wr = without_collide(rest, c);
        let x = s.last();
        assert(s == rest.push(x));
        rest.lemma_push_to_set_commute(x);
        assert(!rest.contains(x)) by {
            if rest.contains(x) {
                let k = choose|k: int| 0 <= k < rest.len() && rest[k] == x;
                assert(s[k] == s[s.len() - 1]);
            }
        }
        if x != c {
            assert(without_collide(s, c) == wr.push(x));
            wr.lemma_push_to_set_commute(x);
            assert(!wr.contains(x)) by {
                if wr.contains(x) {
                    assert(wr.to_set().contains(x));
                }
            }
            assert forall|i: int, j: int|
                0 <= i < wr.push(x).len() && 0 <= j < wr.push(x).len() && i != j implies wr.push(x)[i]
                != wr.push(x)[j] by {
                if i == wr.len() {
                    assert(wr.contains(wr.push(x)[j]));
                } else if j == wr.len() {
                    assert(wr.contains(wr.push(x)[i]));
                }
            }
            assert(wr.push(x).to_set() =~= s.to_set().remove(c));
        } else {
            assert(without_collide(s, c) == wr);
            assert(wr.to_set() =~= s.to_set().remove(c));
        }
    }
}

impl CollideSet {
    #[verifier::type_invariant]
    closed spec fn wf(self) -> bool {
        self.members@.no_duplicates()
    }

    pub fn new() -> (s: Self)
        ensures
            s@ == Set::<Collide>::empty(),
    {
        let members: Vec<Collide> = Vec::new();
        assert(members@.to_set() =~= Set::<Collide>::empty());
        CollideSet { members }
    }

    pub fn contains(&self, c: Collide) -> (b: bool)
        ensures
            b == self@.contains(c),
    {
        let mut i: usize = 0;
        while i < self.members.len()
            invariant
                i <= self.members.len(),
                forall|j: int| 0 <= j < i ==> self.members@[j] != c,
            decreases self.members.len() - i,
        {
            if self.members[i] == c {
                assert(self.members@.contains(c));
                return true;
            }
            i += 1;
        }
        assert(!self.members@.contains(c));
        false
    }

    /// Adds a marker; returns whether it was new.
    pub fn insert(&mut self, c: Collide) -> (added: bool)
        ensures
            added == !old(self)@.contains(c),
            final(self)@ == old(self)@.insert(c),
    {
        proof {
            use_type_invariant(&*self);
        }
        if self.contains(c) {
            assert(self@.insert(c) =~= self@);
            false
        } else {
            let mut taken = CollideSet::new();
            core::mem::swap(&mut taken, self);
            let CollideSet { mut members } = taken;
            proof {
                members@.lemma_push_to_set_commute(c);
                assert(!members@.contains(c));
            }
            let ghost before = members@;
            members.push(c);
            proof {
                assert forall|i: int, j: int|
                    0 <= i < members@.len() && 0 <= j < members@.len() && i != j implies members@[i]
                    != members@[j] by {
                    if i == before.len() {
                        assert(before.contains(members@[j]));
                    } else if j == before.len() {
                        assert(before.contains(members@[i]));
                    } else {
                        assert(members@[i] == before[i] && members@[j] == before[j]);
                    }
                }
            }
            *self = CollideSet { members };
            true
        }
    }

    /// Takes a marker out; returns whether it was there.
    pub fn remove(&mut self, c: Collide) -> (removed: bool)
        ensures
            removed == old(self)@.contains(c),
            final(self)@ == old(self)@.remove(c),
    {
        proof {
            use_type_invariant(&*self);
        }
        let was = self.contains(c);
        let mut kept: Vec<Collide> = Vec::new();
        let mut i: usize = 0;
        while i < self.members.len()
            invariant
                i <= self.members.len(),
                kept@ == without_collide(self.members@.take(i as int), c),
            decreases self.members.len() - i,
        {
            assert(self.members@.take(i as int + 1).drop_last() == self.members@.take(i as int));
            let x = self.members[i];
            if x != c {
                kept.push(x);
            }
            i += 1;
        }
        proof {
            assert(self.members@.take(self.members.len() as int) == self.members@);
            lemma_without_collide(self.members@, c);
        }
        *self = CollideSet { members: kept };
        was
    }

    /// The collision groups of the markers, each once.
    pub fn groups(&self) -> (g: Vec<usize>)
        ensures
            g@.to_set() == self@.map(|c: Collide| c.spec_group()),
            g@.no_duplicates(),
    {
        proof {
            use_type_invariant(self);
        }
        let mut g: Vec<usize> = Vec::new();
        let mut i: usize = 0;
        while i < self.members.len()
            invariant
                i <= self.members.len(),
                self.members@.no_duplicates(),
                g@ == self.members@.take(i as int).map_values(|c: Collide| c.spec_group()),
            decreases self.members.len() - i,
        {
            g.push(self.members[i].group());
            i += 1;
        }
        proof {
            let ms = self.members@;
            assert(ms.take(ms.len() as int) == ms);
            assert forall|x: usize| g@.to_set().contains(x) == self@.map(|c: Collide| c.spec_group()).contains(x) by {
                if g@.to_set().contains(x) {
                    let k = choose|k: int| 0 <= k < g@.len() && g@[k] == x;
                    assert(ms.contains(ms[k]));
                    assert(self@.contains(ms[k]));
                }
                if self@.map(|c: Collide| c.spec_group()).contains(x) {
                    let c = choose|c: Collide| self@.contains(c) && c.spec_group() == x;
                    let k = choose|k: int| 0 <= k < ms.len() && ms[k] == c;
                    assert(g@[k] == x);
                }
            }
            assert(g@.to_set() =~= self@.map(|c: Collide| c.spec_group()));
            assert forall|i: int, j: int| 0 <= i < g@.len() && 0 <= j < g@.len() && i != j implies g@[i]
                != g@[j] by {
                if g@[i] == g@[j] {
                    lemma_same_group_same_marker(ms[i], ms[j]);
                }
            }
        }
        g
    }
}

proof fn lemma_same_group_same_marker(a: Collide, b: Collide)
    requires
        a.spec_group() == b.spec_group(),
    ensures
        a == b,
{
}

/// The collision groups a body is in, collides with only, and never collides with.
pub struct CollisionGroupNumbers {
    pub membership: Vec<usize>,
    pub whitelist: Vec<usize>,
    pub blacklist: Vec<usize>,
}

/// A collision relationship :P
pub struct Collisionship {
    pub collision_static: Option<CollisionStatic>,
    pub blacklist: CollideSet,
    pub whitelist: CollideSet,
    pub membership: CollideSet,
}

impl Collisionship {
    /// Whether bodies of this relationship are immovable.
    pub open spec fn is_static(self) -> bool {
        self.collision_static is Some
    }

    /// Nothing immovable, and no groups.
    pub fn new() -> (c: Self)
        ensures
            !c.is_static(),
            c.blacklist@ == Set::<Collide>::empty(),
            c.whitelist@ == Set::<Collide>::empty(),
            c.membership@ == Set::<Collide>::empty(),
    {
        Collisionship {
            collision_static: None,
            blacklist: CollideSet::new(),
            whitelist: CollideSet::new(),
            membership: CollideSet::new(),
        }
    }

    /// Makes bodies of this relationship immovable or not; returns whether
    /// that changed anything.
    pub fn set_static(&mut self, immovable: bool) -> (dirty: bool)
        ensures
            final(self).is_static() == immovable,
            dirty == (immovable != old(self).is_static()),
            final(self).blacklist@ == old(self).blacklist@,
            final(self).whitelist@ == old(self).whitelist@,
            final(self).membership@ == old(self).membership@,
    {
        let was = self.collision_static.is_some();
        self.collision_static = if immovable {
            Some(CollisionStatic)
        } else {
            None
        };
        was != immovable
    }

    /// Whether bodies of this relationship are immovable, and the collision
    /// groups they are in, collide with only, and never collide with.
    pub fn into_parts(self) -> (r: (Option<CollisionStatic>, CollisionGroupNumbers))
        ensures
            r.0 is Some == self.is_static(),
            r.1.membership@.to_set() == self.membership@.map(|c: Collide| c.spec_group()),
            r.1.whitelist@.to_set() == self.whitelist@.map(|c: Collide| c.spec_group()),
            r.1.blacklist@.to_set() == self.blacklist@.map(|c: Collide| c.spec_group()),
    {
        let groups = CollisionGroupNumbers {
            membership: self.membership.groups(),
            whitelist: self.whitelist.groups(),
            blacklist: self.blacklist.groups(),
        };
        (self.collision_static, groups)
    }

    /// The collision groups of this relationship.
    pub fn into_groups(self) -> (g: CollisionGroupNumbers)
        ensures
            g.membership@.to_set() == self.membership@.map(|c: Collide| c.spec_group()),
            g.whitelist@.to_set() == self.whitelist@.map(|c: Collide| c.spec_group()),
            g.blacklist@.to_set() == self.blacklist@.map(|c: Collide| c.spec_group()),
    {
        let (_, groups) = self.into_parts();
        groups
    }
}

} // verus!

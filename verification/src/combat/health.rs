use crate::entity::EntityId;
use vstd::prelude::*;

verus! {

/// A measure of hit points.
///
/// Symbolically represents how close something is to dying.
///
/// If this value reaches 0, the Entity associated with it is deleted.
#[derive(Clone, Copy, Debug, PartialEq, Eq, Structural)]
pub enum Health {
    Points(usize),
    Dead,
}

impl Health {
    /// How many points this health stands for; the dead have none.
    pub open spec fn amount(self) -> nat {
        match self {
            Health::Points(v) => v as nat,
            Health::Dead => 0,
        }
    }

    /// What subtracting `other` from `self` gives: the points left over,
    /// or death when nothing (or less than nothing) would be left.
    pub open spec fn minus(self, other: Health) -> Health {
        if self.amount() > other.amount() {
            Health::Points((self.amount() - other.amount()) as usize)
        } else {
            Health::Dead
        }
    }

    /// What adding `other` to `self` gives: the dead stay dead, and a sum
    /// that is zero or does not fit in a `usize` is death as well.
    pub open spec fn plus(self, other: Health) -> Health {
        if self is Points && 0 < self.amount() + other.amount() <= usize::MAX {
            Health::Points((self.amount() + other.amount()) as usize)
        } else {
            Health::Dead
        }
    }

    /// The health that a count of points stands for: zero is death.
    pub open spec fn from_count(num: usize) -> Health {
        if num == 0 {
            Health::Dead
        } else {
            Health::Points(num)
        }
    }

    pub fn new(val: usize) -> (h: Self)
        ensures
            h == Health::Points(val),
    {
        Health::Points(val)
    }

    pub fn is_dead(&self) -> (b: bool)
        ensures
            b == (*self is Dead),
    {
        match self {
            Health::Dead => true,
            _ => false,
        }
    }

    pub fn is_alive(&self) -> (b: bool)
        ensures
            b == (*self is Points),
    {
        !self.is_dead()
    }

    pub fn points(&self) -> (p: Option<usize>)
        ensures
            p == (match *self {
                Health::Points(v) => Some(v),
                Health::Dead => None::<usize>,
            }),
    {
        match self {
            Health::Points(val) => Some(*val),
            Health::Dead => None,
        }
    }

    pub fn points_ref(&self) -> (p: Option<&usize>)
        ensures
            p == (match *self {
                Health::Points(v) => Some(&v),
                Health::Dead => None::<&usize>,
            }),
    {
        match self {
            Health::Points(val) => Some(val),
            Health::Dead => None,
        }
    }

    pub fn points_mut(&mut self) -> (p: Option<&mut usize>)
        ensures
            match p {
                Some(r) => {
                    &&& *old(self) == Health::Points(*r)
                    &&& *final(self) == Health::Points(*final(r))
                },
                None => {
                    &&& *old(self) is Dead
                    &&& *final(self) == *old(self)
                },
            },
    {
        match self {
            Health::Points(val) => Some(val),
            Health::Dead => None,
        }
    }

    /// The number of points as a plain count; the dead have none.
    fn count(&self) -> (n: usize)
        ensures
            n == self.amount(),
    {
        match self {
            Health::Points(val) => *val,
            Health::Dead => 0,
        }
    }
}

impl core::ops::Deref for Health {
    type Target = usize;

    fn deref(&self) -> (r: &usize)
        ensures
            *r == self.amount(),
    {
        match self {
            Health::Points(val) => val,
            Health::Dead => &0,
        }
    }
}

impl core::ops::Sub for Health {
    type Output = Health;

    fn sub(self, other: Self) -> (r: Self)
        ensures
            r == self.minus(other),
    {
        let a = self.count();
        let b = other.count();
        match a.checked_sub(b) {
            Some(x) => {
                if x != 0 {
                    Health::Points(x)
                } else {
                    Health::Dead
                }
            },
            None => Health::Dead,
        }
    }
}

impl vstd::std_specs::ops::SubSpecImpl for Health {
    open spec fn obeys_sub_spec() -> bool {
        true
    }

    open spec fn sub_req(self, rhs: Health) -> bool {
        true
    }

    open spec fn sub_spec(self, rhs: Health) -> Health {
        self.minus(rhs)
    }
}

impl core::ops::Add for Health {
    type Output = Health;

    fn add(self, other: Self) -> (r: Self)
        ensures
            r == self.plus(other),
    {
        let a = self.count();
        let b = other.count();
        match a.checked_add(b) {
            Some(x) => {
                if x != 0 && !self.is_dead() {
                    Health::Points(x)
                } else {
                    Health::Dead
                }
            },
            None => Health::Dead,
        }
    }
}

impl vstd::std_specs::ops::AddSpecImpl for Health {
    open spec fn obeys_add_spec() -> bool {
        true
    }

    open spec fn add_req(self, rhs: Health) -> bool {
        true
    }

    open spec fn add_spec(self, rhs: Health) -> Health {
        self.plus(rhs)
    }
}

impl core::ops::SubAssign for Health {
    fn sub_assign(&mut self, other: Self)
        ensures
            *final(self) == old(self).minus(other),
    {
        *self = *self - other;
    }
}

impl core::ops::AddAssign for Health {
    fn add_assign(&mut self, other: Self)
        ensures
            *final(self) == old(self).plus(other),
    {
        *self = *self + other;
    }
}

impl From<usize> for Health {
    fn from(num: usize) -> (h: Self)
        ensures
            h == Health::from_count(num),
    {
        if num == 0 {
            Health::Dead
        } else {
            Health::Points(num)
        }
    }
}

impl vstd::std_specs::convert::FromSpecImpl<usize> for Health {
    open spec fn obeys_from_spec() -> bool {
        true
    }

    open spec fn from_spec(num: usize) -> Health {
        Health::from_count(num)
    }
}

/// The entities, in the order given, whose health is zero: `Dead`, or no
/// points left.
pub open spec fn out_of_health(healths: Seq<(EntityId, Health)>) -> Seq<EntityId> {
    healths.filter_map(|p: (EntityId, Health)| if p.1.amount() == 0 { Some(p.0) } else { None })
}

/// Gives things with 0 health the Dead mark: each entity given whose health
/// is zero is to be marked dead, in the order given.
pub fn remove_out_of_health(healths: &Vec<(EntityId, Health)>) -> (dying: Vec<EntityId>)
    ensures
        dying@ == out_of_health(healths@),
{
    let mut dying: Vec<EntityId> = Vec::new();
    let mut i: usize = 0;
    while i < healths.len()
        invariant
            i <= healths.len(),
            dying@ == out_of_health(healths@.take(i as int)),
        decreases healths.len() - i,
    {
        let (ent, health) = healths[i];
        assert(healths@.take(i as int + 1).drop_last() == healths@.take(i as int));
        if health.count() == 0 {
            dying.push(ent);
        }
        i += 1;
    }
    assert(healths@.take(healths.len() as int) == healths@);
    dying
}

/// Taking hit points away or adding them never leaves a living thing at zero
/// points: the result is either dead or has at least one point.
pub proof fn lemma_results_never_zero(a: Health, b: Health)
    ensures
        a.minus(b) is Dead || a.minus(b).amount() > 0,
        a.plus(b) is Dead || a.plus(b).amount() > 0,
{
}

/// The dead stay dead whatever is added to them.
pub proof fn lemma_dead_absorbs_healing(b: Health)
    ensures
        Health::Dead.plus(b) == Health::Dead,
{
}

/// Subtracting or adding `Dead` (no points) leaves a living health unchanged.
pub proof fn lemma_dead_is_neutral(n: usize)
    requires
        n > 0,
    ensures
        Health::Points(n).minus(Health::Dead) == Health::Points(n),
        Health::Points(n).plus(Health::Dead) == Health::Points(n),
{
}

/// Damage that does not kill is undone by healing the same amount.
pub proof fn lemma_heal_undoes_damage(a: Health, b: Health)
    requires
        a.amount() > b.amount(),
    ensures
        a.minus(b).plus(b) == Health::Points(a.amount() as usize),
{
}

/// Healing a living thing is undone by damaging it by the same amount.
pub proof fn lemma_damage_undoes_heal(a: Health, b: Health)
    requires
        a is Points,
        a.amount() > 0,
        a.amount() + b.amount() <= usize::MAX,
    ensures
        a.plus(b).minus(b) == a,
{
}

/// Damage at least as large as the points left kills.
pub proof fn lemma_overkill_is_death(a: Health, b: Health)
    requires
        a.amount() <= b.amount(),
    ensures
        a.minus(b) == Health::Dead,
{
}

/// A count of points turned into health gives back that count, and zero is death.
pub proof fn lemma_from_count_round_trip(num: usize)
    ensures
        Health::from_count(num).amount() == num,
        (Health::from_count(num) is Dead) == (num == 0),
{
}

} // verus!

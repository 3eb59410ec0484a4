use crate::entity::EntityId;
use vstd::prelude::*;

verus! {

/// Entities with this component get inserted into the Inventory
/// component of the given Entity at the end of the next frame.
///
/// As soon as it's processed, this component is removed from the entity it affected.
#[derive(PartialEq, Eq, Structural, Clone, Copy, Debug)]
pub struct InventoryInsert(pub EntityId);

/// Entities with this component have their equipped item deleted and another of the same type
/// equipped take its place (if one is available) at the end of the next frame.
///
/// Processing it requires that the inventory has something equipped.
///
/// As soon as it's processed, this component is removed from the entity it affected.
#[derive(PartialEq, Eq, Structural, Clone, Copy, Debug)]
pub struct InventoryConsumeEquipped;

/// Switch the Inventory component of the entity this component is
/// associated with over to the given type of item at the end of the
/// next frame.
///
/// The name of the type of item is supplied a string, the same string
/// as is used for the item's image file.
///
/// As soon as it's processed, this component is removed from the entity it affected.
pub struct InventoryEquip(pub Option<String>);

/// A stack of items of one kind, the last one on top.
pub struct ItemStack {
    pub name: String,
    pub items: Vec<EntityId>,
}

/// The position of the first stack, from `i` on, named `name`; -1 if none is.
pub open spec fn find_from(slots: Seq<ItemStack>, name: Seq<char>, i: int) -> int
    decreases slots.len() - i,
{
    if i < 0 || i >= slots.len() {
        -1
    } else if slots[i].name@ == name {
        i
    } else {
        find_from(slots, name, i + 1)
    }
}

/// Whether two sequences of stacks carry the same names at each position.
pub open spec fn same_names(a: Seq<ItemStack>, b: Seq<ItemStack>) -> bool {
    &&& a.len() == b.len()
    &&& forall|j: int| 0 <= j < a.len() ==> (#[trigger] a[j]).name@ == b[j].name@
}

/// The first stack named `name` is found by skipping the ones before `i`
/// that have other names.
proof fn lemma_find_skips(slots: Seq<ItemStack>, name: Seq<char>, i: int)
    requires
        0 <= i <= slots.len(),
        forall|j: int| 0 <= j < i ==> (#[trigger] slots[j]).name@ != name,
    ensures
        find_from(slots, name, 0) == find_from(slots, name, i),
    decreases i,
{
    if i > 0 {
        lemma_find_skips(slots, name, i - 1);
    }
}

/// Where a stack is found, it holds that name; nothing found means no stack
/// from `i` on holds it.
proof fn lemma_find_result(slots: Seq<ItemStack>, name: Seq<char>, i: int)
    requires
        0 <= i,
    ensures
        find_from(slots, name, i) == -1 || (i <= find_from(slots, name, i) < slots.len()
            && slots[find_from(slots, name, i)].name@ == name),
        find_from(slots, name, i) == -1 ==> forall|j: int|
            i <= j < slots.len() ==> (#[trigger] slots[j]).name@ != name,
    decreases slots.len() - i,
{
    if i < slots.len() && slots[i].name@ != name {
        lemma_find_result(slots, name, i + 1);
    }
}

/// Stacks with the same names are searched alike.
proof fn lemma_find_same_names(a: Seq<ItemStack>, b: Seq<ItemStack>, name: Seq<char>, i: int)
    requires
        same_names(a, b),
    ensures
        find_from(a, name, i) == find_from(b, name, i),
    decreases a.len() - i,
{
    if 0 <= i < a.len() && a[i].name@ != name {
        lemma_find_same_names(a, b, name, i + 1);
    }
}

/// A stack added at the end is found only for its own name, and only when no
/// earlier stack has that name.
proof fn lemma_find_push(slots: Seq<ItemStack>, x: ItemStack, name: Seq<char>, i: int)
    requires
        0 <= i <= slots.len(),
    ensures
        find_from(slots.push(x), name, i) == if find_from(slots, name, i) != -1 {
            find_from(slots, name, i)
        } else if x.name@ == name {
            slots.len() as int
        } else {
            -1
        },
    decreases slots.len() - i,
{
    if i < slots.len() {
        assert(slots.push(x)[i] == slots[i]);
        if slots[i].name@ != name {
            lemma_find_push(slots, x, name, i + 1);
        }
    } else {
        assert(slots.push(x)[i] == x);
        assert(find_from(slots.push(x), name, i + 1) == -1);
    }
}

/// The contents of an inventory: stacks of items by kind, and the equipped
/// item with its kind.
#[derive(Default)]
pub struct Inventory {
    /// The stacks of items, by kind; the kind names the item's appearance.
    pub slots: Vec<ItemStack>,
    // the type of the equipped thing is also stored
    pub equipped: Option<(EntityId, String)>,
}

impl Inventory {
    /// The stack of items of the kind `name`, bottom first.
    pub closed spec fn stack(&self, name: Seq<char>) -> Seq<EntityId> {
        let k = find_from(self.slots@, name, 0);
        if k == -1 {
            Seq::empty()
        } else {
            self.slots@[k].items@
        }
    }

    pub fn new() -> (inv: Self)
        ensures
            inv.equipped is None,
            forall|name: Seq<char>| #[trigger] inv.stack(name) == Seq::<EntityId>::empty(),
    {
        Inventory { slots: Vec::new(), equipped: None }
    }

    pub fn equipped_ent(&self) -> (e: Option<EntityId>)
        ensures
            e == match self.equipped {
                Some((ent, _)) => Some(ent),
                None => None::<EntityId>,
            },
    {
        match &self.equipped {
            Some((e, _)) => Some(*e),
            None => None,
        }
    }

    /// The position of the stack named `name`, if there is one.
    fn find(&self, name: &String) -> (k: Option<usize>)
        ensures
            match k {
                Some(i) => i as int == find_from(self.slots@, name@, 0) && i < self.slots@.len(),
                None => find_from(self.slots@, name@, 0) == -1,
            },
    {
        let mut i: usize = 0;
        while i < self.slots.len()
            invariant
                i <= self.slots.len(),
                forall|j: int| 0 <= j < i ==> (#[trigger] self.slots@[j]).name@ != name@,
            decreases self.slots.len() - i,
        {
            if self.slots[i].name == *name {
                proof {
                    lemma_find_skips(self.slots@, name@, i as int);
                }
                return Some(i);
            }
            i += 1;
        }
        proof {
            lemma_find_skips(self.slots@, name@, i as int);
        }
        None
    }

    /// Puts `item_ent` on top of the stack of items of the kind `item_name`.
    pub fn insert(&mut self, item_name: String, item_ent: EntityId)
        ensures
            final(self).stack(item_name@) == old(self).stack(item_name@).push(item_ent),
            forall|name: Seq<char>|
                name != item_name@ ==> #[trigger] final(self).stack(name) == old(self).stack(name),
            final(self).equipped == old(self).equipped,
    {
        let ghost old_slots = self.slots@;
        match self.find(&item_name) {
            Some(k) => {
                self.slots[k].items.push(item_ent);
                proof {
                    assert(same_names(old_slots, self.slots@));
                    assert forall|name: Seq<char>| name != item_name@ implies #[trigger] self.stack(
                        name,
                    ) == old(self).stack(name) by {
                        lemma_find_same_names(old_slots, self.slots@, name, 0);
                        lemma_find_result(old_slots, name, 0);
                        lemma_find_result(old_slots, item_name@, 0);
                        let k2 = find_from(old_slots, name, 0);
                        if k2 != -1 {
                            assert(k2 != k);
                            assert(self.slots@[k2] == old_slots[k2]);
                        }
                    }
                    lemma_find_same_names(old_slots, self.slots@, item_name@, 0);
                }
            },
            None => {
                let ghost name_seq = item_name@;
                let mut items: Vec<EntityId> = Vec::new();
                items.push(item_ent);
                let stack = ItemStack { name: item_name, items };
                let ghost st = stack;
                self.slots.push(stack);
                proof {
                    lemma_find_push(old_slots, st, name_seq, 0);
                    assert(st.items@ == seq![item_ent]);
                    assert forall|name: Seq<char>| name != name_seq implies #[trigger] self.stack(
                        name,
                    ) == old(self).stack(name) by {
                        lemma_find_push(old_slots, st, name, 0);
                        lemma_find_result(old_slots, name, 0);
                        let k2 = find_from(old_slots, name, 0);
                        if k2 != -1 {
                            assert(self.slots@[k2] == old_slots[k2]);
                        }
                    }
                }
            },
        }
    }

    /// Finds the stack of items with this name, pops one off of the top and equips it.
    pub fn equip_named(&mut self, name: String) -> (popped: Option<EntityId>)
        ensures
            old(self).stack(name@).len() == 0 ==> {
                &&& popped is None
                &&& final(self).equipped == old(self).equipped
                &&& forall|n: Seq<char>| #[trigger] final(self).stack(n) == old(self).stack(n)
            },
            old(self).stack(name@).len() > 0 ==> popped == Some(old(self).stack(name@).last()),
            old(self).stack(name@).len() > 0 ==> final(self).equipped == Some(
                (old(self).stack(name@).last(), name),
            ),
            old(self).stack(name@).len() > 0 ==> final(self).stack(name@) == old(self).stack(
                name@,
            ).drop_last(),
            old(self).stack(name@).len() > 0 ==> forall|n: Seq<char>|
                n != name@ ==> #[trigger] final(self).stack(n) == old(self).stack(n),
    {
        let ghost old_slots = self.slots@;
        match self.find(&name) {
            Some(k) => {
                if self.slots[k].items.len() == 0 {
                    return None;
                }
                let ghost old_items = self.slots@[k as int].items@;
                let popped = self.slots[k].items.pop().unwrap();
                self.equipped = Some((popped, name));
                proof {
                    assert(popped == old_items.last());
                    assert(self.slots@[k as int].items@ == old_items.drop_last());
                    assert(same_names(old_slots, self.slots@));
                    assert forall|n: Seq<char>| n != name@ implies #[trigger] self.stack(n) == old(
                        self,
                    ).stack(n) by {
                        lemma_find_same_names(old_slots, self.slots@, n, 0);
                        lemma_find_result(old_slots, n, 0);
                        lemma_find_result(old_slots, name@, 0);
                        let k2 = find_from(old_slots, n, 0);
                        if k2 != -1 {
                            assert(k2 != k);
                            assert(self.slots@[k2] == old_slots[k2]);
                        }
                    }
                    lemma_find_same_names(old_slots, self.slots@, name@, 0);
                }
                Some(popped)
            },
            None => None,
        }
    }

    /// What a stack looks like once the equipped item, if any, is put back.
    pub open spec fn stack_with_equipped_returned(&self, name: Seq<char>) -> Seq<EntityId> {
        match self.equipped {
            Some((e, n)) => if n@ == name {
                self.stack(name).push(e)
            } else {
                self.stack(name)
            },
            None => self.stack(name),
        }
    }

    /// Deletes the equipped item and equips another of the same kind, if one
    /// is available. Returns the newly equipped item.
    pub fn consume_equipped(&mut self) -> (next: Option<EntityId>)
        requires
            old(self).equipped is Some,
        ensures
            ({
                let name = old(self).equipped.unwrap().1;
                &&& old(self).stack(name@).len() == 0 ==> {
                    &&& next is None
                    &&& final(self).equipped is None
                    &&& forall|n: Seq<char>| #[trigger] final(self).stack(n) == old(self).stack(n)
                }
                &&& old(self).stack(name@).len() > 0 ==> {
                    &&& next == Some(old(self).stack(name@).last())
                    &&& final(self).equipped == Some((old(self).stack(name@).last(), name))
                    &&& final(self).stack(name@) == old(self).stack(name@).drop_last()
                    &&& forall|n: Seq<char>|
                        n != name@ ==> #[trigger] final(self).stack(n) == old(self).stack(n)
                }
            }),
    {
        let (_, equipped_item_name) = self.equipped.take().unwrap();
        self.equip_named(equipped_item_name)
    }

    /// Carries out an `InventoryEquip` request: the equipped item, if any,
    /// goes back on top of its stack, then an item of the requested kind, if
    /// one is requested, is taken from its stack and equipped.
    ///
    /// Equipping a kind of which there is no item is refused by `requires`.
    pub fn equip(&mut self, request: Option<String>)
        requires
            request matches Some(name) ==> old(self).stack_with_equipped_returned(name@).len() > 0,
        ensures
            match request {
                None => {
                    &&& final(self).equipped is None
                    &&& forall|n: Seq<char>|
                        #[trigger] final(self).stack(n) == old(self).stack_with_equipped_returned(n)
                },
                Some(name) => {
                    let top = old(self).stack_with_equipped_returned(name@).last();
                    &&& final(self).equipped == Some((top, name))
                    &&& final(self).stack(name@) == old(self).stack_with_equipped_returned(
                        name@,
                    ).drop_last()
                    &&& forall|n: Seq<char>|
                        n != name@ ==> #[trigger] final(self).stack(n)
                            == old(self).stack_with_equipped_returned(n)
                },
            },
    {
        if let Some((equipped_ent, item_name)) = self.equipped.take() {
            self.insert(item_name, equipped_ent);
        }
        proof {
            assert forall|n: Seq<char>| #[trigger] self.stack(n) == old(
                self,
            ).stack_with_equipped_returned(n) by {}
        }
        if let Some(item_name) = request {
            let top = self.equip_named(item_name);
        }
    }
}

/// Asking to equip the kind of item already equipped keeps that very item
/// equipped: it goes back on top of its stack and is the one taken again.
pub proof fn lemma_reequip_keeps_item(inv: Inventory, name: String)
    requires
        inv.equipped matches Some((_, n)) && n@ == name@,
    ensures
        inv.stack_with_equipped_returned(name@).len() > 0,
        inv.stack_with_equipped_returned(name@).last() == inv.equipped.unwrap().0,
        inv.stack_with_equipped_returned(name@).drop_last() == inv.stack(name@),
{
}

/// Putting an item away and then equipping its kind hands back that very
/// item and leaves the stacks as they were.
pub proof fn lemma_insert_then_equip(a: Inventory, b: Inventory, c: Inventory, name: String, e: EntityId)
    requires
        b.stack(name@) == a.stack(name@).push(e),
        forall|n: Seq<char>| n != name@ ==> #[trigger] b.stack(n) == a.stack(n),
        b.stack(name@).len() > 0 ==> {
            &&& c.equipped == Some((b.stack(name@).last(), name))
            &&& c.stack(name@) == b.stack(name@).drop_last()
            &&& forall|n: Seq<char>| n != name@ ==> #[trigger] c.stack(n) == b.stack(n)
        },
    ensures
        c.equipped == Some((e, name)),
        forall|n: Seq<char>| #[trigger] c.stack(n) == a.stack(n),
{
    assert(a.stack(name@).push(e).drop_last() =~= a.stack(name@));
}

} // verus!

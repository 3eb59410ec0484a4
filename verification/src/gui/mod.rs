use crate::entity::EntityId;
use crate::items::InventoryEquip;
use vstd::prelude::*;

verus! {

/// How many of a type of item a player has.
#[derive(PartialEq, Eq, Structural, Clone, Copy, Debug)]
pub struct Counter(pub usize);

impl Counter {
    /// One item of the slot's kind was used up; returns whether any are left
    /// (and so whether the slot still shows its counter and icon).
    ///
    /// A slot being consumed from holds at least one item.
    pub fn consume(&mut self) -> (left: bool)
        requires
            old(self).0 > 0,
        ensures
            final(self).0 == old(self).0 - 1,
            left == (final(self).0 > 0),
    {
        self.0 = self.0 - 1;
        self.0 > 0
    }
}

/// ItemSlot structs correspond to inventory items and dump their contents out on release.
#[derive(Debug)]
pub struct ItemSlot {
    /// The type of item this ItemSlot contains (None if it's still empty)
    pub item_name: Option<String>,
    /// The Entity for the image that shows what item_name this slot stores.
    pub icon_ent: EntityId,
    /// The Entity for the text that indicates how many items are held in this slot.
    pub counter_ent: EntityId,
    /// The InventoryWindow that owns this ItemSlot
    pub parent: EntityId,
}

/// This component goes on the Entity which has the real items::Inventory component,
/// and helps update its GUI when Inventory events happen.
pub struct InventoryWindow {
    /// The Entity of the main GUI window, all of the slots are positioned relative to it.
    pub window: EntityId,
    /// That special slot that holds the thing they're currently using
    pub equipped_slot: EntityId,
    /// The other slots that hold the other kinds of items they have
    pub loose_slots: Vec<EntityId>,
}

/// The loose slots without `out_ent`, in order.
pub open spec fn without(slots: Seq<EntityId>, out_ent: EntityId) -> Seq<EntityId> {
    slots.filter_map(|e: EntityId| if e == out_ent { None } else { Some(e) })
}

impl InventoryWindow {
    /// Takes out_ent out of the inventory and puts in_ent into the same category of slots
    /// as out_ent was in. This means that this method works for equipped_slots and loose_slots,
    /// and whichever of those two out_ent was, in_ent will become.
    pub fn swap_in_out(&mut self, in_ent: EntityId, out_ent: EntityId)
        ensures
            final(self).window == old(self).window,
            out_ent == old(self).equipped_slot ==> {
                &&& final(self).equipped_slot == in_ent
                &&& final(self).loose_slots@ == old(self).loose_slots@
            },
            out_ent != old(self).equipped_slot ==> {
                &&& final(self).equipped_slot == old(self).equipped_slot
                &&& final(self).loose_slots@ == without(old(self).loose_slots@, out_ent).push(
                    in_ent,
                )
            },
    {
        if out_ent == self.equipped_slot {
            self.equipped_slot = in_ent;
        } else {
            let mut kept: Vec<EntityId> = Vec::new();
            let mut i: usize = 0;
            while i < self.loose_slots.len()
                invariant
                    i <= self.loose_slots.len(),
                    kept@ == without(self.loose_slots@.take(i as int), out_ent),
                decreases self.loose_slots.len() - i,
            {
                assert(self.loose_slots@.take(i as int + 1).drop_last() == self.loose_slots@.take(
                    i as int,
                ));
                let e = self.loose_slots[i];
                if e != out_ent {
                    kept.push(e);
                }
                i += 1;
            }
            assert(self.loose_slots@.take(self.loose_slots.len() as int) == self.loose_slots@);
            kept.push(in_ent);
            self.loose_slots = kept;
        }
    }

    /// All of the slots in an InventoryWindow, loose or equipped.
    ///
    /// Iteration order: first all of the loose slots, starting with the top left. Finally, the equipped
    /// slot is tacked onto the end.
    pub fn slots(&self) -> (v: Vec<EntityId>)
        ensures
            v@ == self.loose_slots@.push(self.equipped_slot),
    {
        let mut v = self.loose_slots.clone();
        v.push(self.equipped_slot);
        v
    }
}

impl InventoryWindow {
    /// One half of swapping two slots: if `this_ent` is this window's
    /// equipped slot, `other_ent` takes its place. Returns whether it did.
    pub fn swap_if_equipped(&mut self, this_ent: EntityId, other_ent: EntityId) -> (swapped: bool)
        ensures
            swapped == (old(self).equipped_slot == this_ent),
            swapped ==> {
                &&& final(self).equipped_slot == other_ent
                &&& final(self).window == old(self).window
                &&& final(self).loose_slots@ == old(self).loose_slots@
            },
            !swapped ==> {
                &&& final(self).equipped_slot == old(self).equipped_slot
                &&& final(self).window == old(self).window
                &&& final(self).loose_slots@ == old(self).loose_slots@
            },
    {
        if self.equipped_slot == this_ent {
            self.swap_in_out(other_ent, this_ent);
            true
        } else {
            false
        }
    }
}

/// A copy of a slot's item name.
fn copy_name(item: &Option<String>) -> (r: Option<String>)
    ensures
        r == *item,
{
    match item {
        Some(n) => Some(n.clone()),
        None => None,
    }
}

/// What dropping one item slot (`drag_slot`) onto another (`drop_slot`)
/// asks of their inventories, besides swapping the two: an equipped slot's
/// inventory is to equip what the other slot holds. The requests come as the
/// inventory entity and the request, the drop slot's first.
pub fn equips_on_drop(
    drop_slot: &ItemSlot,
    drop_equipped: bool,
    drag_slot: &ItemSlot,
    drag_equipped: bool,
) -> (requests: Vec<(EntityId, InventoryEquip)>)
    ensures
        requests@.len() == (if drop_equipped { 1int } else { 0 }) + (if drag_equipped { 1int } else { 0 }),
        drop_equipped ==> requests@[0].0 == drop_slot.parent && requests@[0].1.0 == drag_slot.item_name,
        drag_equipped ==> requests@.last().0 == drag_slot.parent && requests@.last().1.0 == drop_slot.item_name,
{
    let mut requests: Vec<(EntityId, InventoryEquip)> = Vec::new();
    if drop_equipped {
        requests.push((drop_slot.parent, InventoryEquip(copy_name(&drag_slot.item_name))));
    }
    if drag_equipped {
        requests.push((drag_slot.parent, InventoryEquip(copy_name(&drop_slot.item_name))));
    }
    requests
}

/// Where the loose slots of an inventory window sit, as (column, row) in the
/// window's grid of three columns and two rows: the order of
/// `InventoryWindow::loose_slots`, left to right, top row first.
pub open spec fn loose_slot_cell(i: int) -> (u8, u8) {
    ((i % 3) as u8, (i / 3) as u8)
}

/// The grid cells of the loose slots, in order.
pub fn loose_slot_layout() -> (cells: Vec<(u8, u8)>)
    ensures
        cells@.len() == 6,
        forall|i: int| 0 <= i < 6 ==> #[trigger] cells@[i] == loose_slot_cell(i),
{
    let mut cells: Vec<(u8, u8)> = Vec::new();
    let mut y: u8 = 0;
    while y < 2
        invariant
            y <= 2,
            cells@.len() == 3 * y,
            forall|i: int| 0 <= i < 3 * y ==> #[trigger] cells@[i] == loose_slot_cell(i),
        decreases 2 - y,
    {
        let mut x: u8 = 0;
        while x < 3
            invariant
                y < 2,
                x <= 3,
                cells@.len() == 3 * y + x,
                forall|i: int| 0 <= i < 3 * y + x ==> #[trigger] cells@[i] == loose_slot_cell(i),
            decreases 3 - x,
        {
            let ghost k = 3 * y + x;
            assert(k % 3 == x && k / 3 == y) by (nonlinear_arith)
                requires
                    k == 3 * y + x,
                    x < 3,
            ;
            cells.push((x, y));
            x += 1;
        }
        y += 1;
    }
    cells
}

/// The first slot, from `i` on, storing items named `name`.
pub open spec fn first_named_from(slots: Seq<(ItemSlot, Counter)>, name: Seq<char>, i: int) -> Option<int>
    decreases slots.len() - i,
{
    if i < 0 || i >= slots.len() {
        None
    } else if slots[i].0.item_name matches Some(n) && n@ == name {
        Some(i)
    } else {
        first_named_from(slots, name, i + 1)
    }
}

/// The first slot, from `i` on, storing nothing yet.
pub open spec fn first_empty_from(slots: Seq<(ItemSlot, Counter)>, i: int) -> Option<int>
    decreases slots.len() - i,
{
    if i < 0 || i >= slots.len() {
        None
    } else if slots[i].0.item_name is None {
        Some(i)
    } else {
        first_empty_from(slots, i + 1)
    }
}

/// The slot an item named `name` goes into, and whether that slot is newly
/// opened: the first slot already storing that kind, else the first empty
/// one; none when neither exists.
pub open spec fn slot_for(slots: Seq<(ItemSlot, Counter)>, name: Seq<char>) -> Option<(int, bool)> {
    match first_named_from(slots, name, 0) {
        Some(i) => Some((i, false)),
        None => match first_empty_from(slots, 0) {
            Some(i) => Some((i, true)),
            None => None,
        },
    }
}

proof fn lemma_first_named_skips(slots: Seq<(ItemSlot, Counter)>, name: Seq<char>, i: int)
    requires
        0 <= i <= slots.len(),
        forall|j: int|
            0 <= j < i ==> !((#[trigger] slots[j]).0.item_name matches Some(n) && n@ == name),
    ensures
        first_named_from(slots, name, 0) == first_named_from(slots, name, i),
    decreases i,
{
    if i > 0 {
        lemma_first_named_skips(slots, name, i - 1);
    }
}

proof fn lemma_first_empty_skips(slots: Seq<(ItemSlot, Counter)>, i: int)
    requires
        0 <= i <= slots.len(),
        forall|j: int| 0 <= j < i ==> (#[trigger] slots[j]).0.item_name is Some,
    ensures
        first_empty_from(slots, 0) == first_empty_from(slots, i),
    decreases i,
{
    if i > 0 {
        lemma_first_empty_skips(slots, i - 1);
    }
}

/// Records an item named `item_name` going into an inventory's GUI, given
/// the window's slots (in the order `InventoryWindow::slots` gives) with
/// their counters: the slot it goes to is opened for that kind if it was
/// empty, and its counter goes up by one. Returns that slot and whether it
/// was newly opened (and so needs an icon); none when there is no space.
pub fn try_slot_insert(slots: &mut Vec<(ItemSlot, Counter)>, item_name: &String) -> (r: Option<(usize, bool)>)
    requires
        slot_for(old(slots)@, item_name@) matches Some((i, _)) ==> old(slots)@[i].1.0 < usize::MAX,
    ensures
        r == match slot_for(old(slots)@, item_name@) {
            Some((i, new_slot)) => Some((i as usize, new_slot)),
            None => None::<(usize, bool)>,
        },
        final(slots)@.len() == old(slots)@.len(),
        match r {
            Some((i, new_slot)) => {
                &&& final(slots)@[i as int].1 == Counter((old(slots)@[i as int].1.0 + 1) as usize)
                &&& final(slots)@[i as int].0.item_name == if new_slot {
                    Some(*item_name)
                } else {
                    old(slots)@[i as int].0.item_name
                }
                &&& final(slots)@[i as int].0.icon_ent == old(slots)@[i as int].0.icon_ent
                &&& final(slots)@[i as int].0.counter_ent == old(slots)@[i as int].0.counter_ent
                &&& final(slots)@[i as int].0.parent == old(slots)@[i as int].0.parent
                &&& forall|j: int|
                    0 <= j < old(slots)@.len() && j != i ==> #[trigger] final(slots)@[j] == old(
                        slots,
                    )@[j]
            },
            None => final(slots)@ == old(slots)@,
        },
{
    let (found, new_slot) = match find_named(slots, item_name) {
        Some(k) => (Some(k), false),
        None => (find_empty(slots), true),
    };
    match found {
        Some(k) => {
            let entry = &mut slots[k];
            if new_slot {
                entry.0.item_name = Some(item_name.clone());
            }
            entry.1 = Counter(entry.1.0 + 1);
            Some((k, new_slot))
        },
        None => None,
    }
}

/// Slots whose names agree everywhere but at `k`, where the second has
/// `name`, search alike for `name` up to `k`.
proof fn lemma_first_named_after_open(
    a: Seq<(ItemSlot, Counter)>,
    b: Seq<(ItemSlot, Counter)>,
    name: Seq<char>,
    k: int,
    i: int,
)
    requires
        a.len() == b.len(),
        0 <= k < a.len(),
        0 <= i <= k,
        b[k].0.item_name matches Some(n) && n@ == name,
        forall|j: int| 0 <= j < a.len() && j != k ==> (#[trigger] b[j]).0.item_name == a[j].0.item_name,
        forall|j: int|
            i <= j < k ==> !((#[trigger] a[j]).0.item_name matches Some(n) && n@ == name),
    ensures
        first_named_from(b, name, i) == Some(k),
    decreases k - i,
{
    if i < k {
        lemma_first_named_after_open(a, b, name, k, i + 1);
    }
}

/// Slots whose names agree everywhere search alike.
proof fn lemma_first_named_same_names(
    a: Seq<(ItemSlot, Counter)>,
    b: Seq<(ItemSlot, Counter)>,
    name: Seq<char>,
    i: int,
)
    requires
        a.len() == b.len(),
        forall|j: int| 0 <= j < a.len() ==> (#[trigger] b[j]).0.item_name == a[j].0.item_name,
    ensures
        first_named_from(a, name, i) == first_named_from(b, name, i),
    decreases a.len() - i,
{
    if 0 <= i < a.len() {
        lemma_first_named_same_names(a, b, name, i + 1);
    }
}

proof fn lemma_first_named_found(slots: Seq<(ItemSlot, Counter)>, name: Seq<char>, i: int)
    requires
        0 <= i,
    ensures
        first_named_from(slots, name, i) matches Some(k) ==> i <= k < slots.len() && (
        slots[k].0.item_name matches Some(n) && n@ == name),
        first_named_from(slots, name, i) is None ==> forall|j: int|
            i <= j < slots.len() ==> !((#[trigger] slots[j]).0.item_name matches Some(n) && n@
                == name),
    decreases slots.len() - i,
{
    if i < slots.len() {
        lemma_first_named_found(slots, name, i + 1);
    }
}

/// Items of one kind gather in one slot: once an item has gone into a slot,
/// the next item of its kind goes to that same slot, which is no longer new.
pub proof fn lemma_same_kind_same_slot(
    before: Seq<(ItemSlot, Counter)>,
    after: Seq<(ItemSlot, Counter)>,
    name: String,
    k: int,
    new_slot: bool,
)
    requires
        slot_for(before, name@) == Some((k, new_slot)),
        after.len() == before.len(),
        after[k].0.item_name == if new_slot {
            Some(name)
        } else {
            before[k].0.item_name
        },
        forall|j: int| 0 <= j < before.len() && j != k ==> #[trigger] after[j] == before[j],
    ensures
        slot_for(after, name@) == Some((k, false)),
{
    lemma_first_named_found(before, name@, 0);
    if new_slot {
        assert(first_named_from(before, name@, 0) is None);
        lemma_first_empty_found(before, 0);
        lemma_first_named_after_open(before, after, name@, k, 0);
    } else {
        assert forall|j: int| 0 <= j < before.len() implies (#[trigger] after[j]).0.item_name
            == before[j].0.item_name by {}
        lemma_first_named_same_names(before, after, name@, 0);
    }
}

proof fn lemma_first_empty_found(slots: Seq<(ItemSlot, Counter)>, i: int)
    requires
        0 <= i,
    ensures
        first_empty_from(slots, i) matches Some(k) ==> i <= k < slots.len() && slots[k].0.item_name is None,
    decreases slots.len() - i,
{
    if i < slots.len() {
        lemma_first_empty_found(slots, i + 1);
    }
}

/// Where `first_named_from(slots, name, 0)` points.
fn find_named(slots: &Vec<(ItemSlot, Counter)>, name: &String) -> (r: Option<usize>)
    ensures
        match r {
            Some(k) => k < slots@.len() && first_named_from(slots@, name@, 0) == Some(k as int),
            None => first_named_from(slots@, name@, 0) is None,
        },
{
    let mut i: usize = 0;
    while i < slots.len()
        invariant
            i <= slots.len(),
            forall|j: int|
                0 <= j < i ==> !((#[trigger] slots@[j]).0.item_name matches Some(n) && n@
                    == name@),
        decreases slots.len() - i,
    {
        let named = match &slots[i].0.item_name {
            Some(n) => *n == *name,
            None => false,
        };
        if named {
            proof {
                lemma_first_named_skips(slots@, name@, i as int);
            }
            return Some(i);
        }
        i += 1;
    }
    proof {
        lemma_first_named_skips(slots@, name@, i as int);
    }
    None
}

/// Where `first_empty_from(slots, 0)` points.
fn find_empty(slots: &Vec<(ItemSlot, Counter)>) -> (r: Option<usize>)
    ensures
        match r {
            Some(k) => k < slots@.len() && first_empty_from(slots@, 0) == Some(k as int),
            None => first_empty_from(slots@, 0) is None,
        },
{
    let mut i: usize = 0;
    while i < slots.len()
        invariant
            i <= slots.len(),
            forall|j: int| 0 <= j < i ==> (#[trigger] slots@[j]).0.item_name is Some,
        decreases slots.len() - i,
    {
        if slots[i].0.item_name.is_none() {
            proof {
                lemma_first_empty_skips(slots@, i as int);
            }
            return Some(i);
        }
        i += 1;
    }
    proof {
        lemma_first_empty_skips(slots@, i as int);
    }
    None
}

/// The entity being dragged around the GUI, if any.
pub struct GuiState {
    pub dragging_ent: Option<EntityId>,
}

/// What the GUI does with the mouse this frame.
#[derive(PartialEq, Eq, Structural, Clone, Copy, Debug)]
pub enum DragAction {
    /// The entity follows the mouse.
    Drag(EntityId),
    /// The dragged entity was released over another draggable entity.
    Drop { released: EntityId, under: EntityId },
    /// Nothing to do.
    Idle,
}

impl GuiState {
    pub fn new() -> (g: Self)
        ensures
            g.dragging_ent is None,
    {
        GuiState { dragging_ent: None }
    }

    pub fn is_dragging(&self) -> (b: bool)
        ensures
            b == self.dragging_ent is Some,
    {
        self.dragging_ent.is_some()
    }

    /// Decides what the mouse does: while the button is held, the entity
    /// being dragged (or else the draggable entity under the mouse) follows
    /// it; releasing it over another draggable entity drops the dragged one
    /// there.
    pub fn update_draggable_under_mouse(&mut self, mouse_down: bool, draggable_under: Option<EntityId>) -> (a: DragAction)
        ensures
            ({
                let drag_me = if mouse_down && old(self).dragging_ent is Some {
                    old(self).dragging_ent
                } else {
                    draggable_under
                };
                if mouse_down && drag_me is Some {
                    &&& a == DragAction::Drag(drag_me.unwrap())
                    &&& final(self).dragging_ent == drag_me
                } else if old(self).dragging_ent is Some && draggable_under is Some {
                    &&& a == (DragAction::Drop {
                        released: old(self).dragging_ent.unwrap(),
                        under: draggable_under.unwrap(),
                    })
                    &&& final(self).dragging_ent is None
                } else {
                    &&& a == DragAction::Idle
                    &&& final(self).dragging_ent == old(self).dragging_ent
                }
            }),
    {
        let drag_me = if mouse_down && self.dragging_ent.is_some() {
            self.dragging_ent
        } else {
            draggable_under
        };
        match (mouse_down, drag_me) {
            (true, Some(entity)) => {
                self.dragging_ent = Some(entity);
                DragAction::Drag(entity)
            },
            _ => match (self.dragging_ent, draggable_under) {
                (Some(released), Some(under)) => {
                    self.dragging_ent = None;
                    DragAction::Drop { released, under }
                },
                _ => DragAction::Idle,
            },
        }
    }
}

impl GuiState {
    /// Whether the mouse works the GUI this frame (rather than aiming and
    /// planting): while something is dragged, or a draggable entity is under
    /// the mouse.
    pub fn has_mouse(&self, draggable_under: Option<EntityId>) -> (b: bool)
        ensures
            b == (draggable_under is Some || self.dragging_ent is Some),
    {
        draggable_under.is_some() || self.is_dragging()
    }
}

} // verus!

use super::{Tag, Tracker};
use crate::entity::EntityId;
use crate::world::prefab::{instances_without, lemma_without_nothing, Config, InstanceKey, PrefabKey};
use crate::world::Dead;
use vstd::prelude::*;

verus! {

/// A change the instance editor makes, kept so that it can be undone and
/// redone. `C` is what the Config holds of an instance.
#[derive(Debug)]
pub enum Action<C> {
    Select(EntityId),
    Deselect(EntityId),
    GroupSelect(Vec<EntityId>),
    GroupDeselect(Vec<EntityId>),
    /// Config instances taken out, each with its key and what it held.
    Delete(Vec<(InstanceKey, C)>),
    /// The paste numbered `id` of `clipboard`, and what was selected before it.
    Paste { id: usize, selected_before: Vec<EntityId>, clipboard: Vec<C> },
}

/// Which way an action is walked: `Forward` applies it, `Back` undoes it.
#[derive(PartialEq, Eq, Structural, Clone, Copy, Debug)]
pub enum Step {
    Back,
    Forward,
}

/// The outside work that walking an action leaves to its caller.
#[derive(PartialEq, Eq, Structural, Clone, Copy, Debug)]
pub enum Chore {
    Nothing,
    /// Put the deleted instances back into the Config, spawn them and track them.
    Restore,
    /// Insert the clipboard into the Config, spawn it, track it with
    /// `Tracker::track_pasted` under this paste number, and count the paste.
    Paste(usize),
}

impl<C> Action<C> {
    /// Whether the action only changes which instances are selected.
    pub open spec fn is_selection(&self) -> bool {
        ||| self is Select
        ||| self is Deselect
        ||| self is GroupSelect
        ||| self is GroupDeselect
    }

    /// The entities whose selection the action changes, in order.
    pub open spec fn targets(&self) -> Seq<EntityId> {
        match self {
            Action::Select(e) => seq![*e],
            Action::Deselect(e) => seq![*e],
            Action::GroupSelect(es) => es@,
            Action::GroupDeselect(es) => es@,
            _ => Seq::empty(),
        }
    }

    /// Whether walking a selection action this way leaves its targets selected.
    pub open spec fn selects(&self, step: Step) -> bool {
        match self {
            Action::Select(_) | Action::GroupSelect(_) => step == Step::Forward,
            Action::Deselect(_) | Action::GroupDeselect(_) => step == Step::Back,
            _ => false,
        }
    }
}

/// The keys of deleted instances, in order.
pub open spec fn deleted_keys<C>(list: Seq<(InstanceKey, C)>) -> Seq<InstanceKey> {
    list.map_values(|p: (InstanceKey, C)| p.0)
}

/// The tags once `a` is walked `step` over `tags`: a selection action marks
/// its targets; a paste deselects everything, and its undoing selects again
/// what was selected before it; a deletion changes no tag.
pub open spec fn walk_tags<C>(a: Action<C>, tags: Seq<Tag>, step: Step) -> Seq<Tag> {
    match a {
        Action::Delete(_) => tags,
        Action::Paste { selected_before, .. } => if step == Step::Forward {
            deselected(tags)
        } else {
            with_all_selected(tags, selected_before@, true)
        },
        _ => with_all_selected(tags, a.targets(), a.selects(step)),
    }
}

/// The entities marked dead once `a` is walked `step`: a deletion kills the
/// instances of its keys, and undoing a paste kills the pasted instances.
pub open spec fn walk_dead<C>(a: Action<C>, tags: Seq<Tag>, dead: Set<EntityId>, step: Step) -> Set<EntityId> {
    match a {
        Action::Delete(list) => if step == Step::Forward {
            dead + entities(tags_with_keys(tags, deleted_keys(list@))).to_set()
        } else {
            dead
        },
        Action::Paste { id, .. } => if step == Step::Back {
            dead + entities(pasted_tags(tags, id)).to_set()
        } else {
            dead
        },
        _ => dead,
    }
}

/// The Config keys whose instances walking takes out of the Config.
pub open spec fn walk_keys<C>(a: Action<C>, tags: Seq<Tag>, step: Step) -> Seq<InstanceKey> {
    match a {
        Action::Delete(list) => if step == Step::Forward {
            deleted_keys(list@)
        } else {
            Seq::empty()
        },
        Action::Paste { id, .. } => if step == Step::Back {
            instance_keys(pasted_tags(tags, id))
        } else {
            Seq::empty()
        },
        _ => Seq::empty(),
    }
}

/// The outside work walking `a` `step` leaves to the caller.
pub open spec fn walk_chore<C>(a: Action<C>, step: Step) -> Chore {
    match a {
        Action::Delete(_) => if step == Step::Forward {
            Chore::Nothing
        } else {
            Chore::Restore
        },
        Action::Paste { id, .. } => if step == Step::Forward {
            Chore::Paste(id)
        } else {
            Chore::Nothing
        },
        _ => Chore::Nothing,
    }
}

/// What walking leaves of the action itself (`b`, from `a`): applying a
/// paste records what was selected before it; nothing else changes.
pub open spec fn walked_action<C>(a: Action<C>, b: Action<C>, tags: Seq<Tag>, step: Step) -> bool {
    if a is Paste && step == Step::Forward {
        b matches Action::Paste { id, selected_before, clipboard } && a->Paste_id == id
            && a->Paste_clipboard == clipboard && selected_before@ == entities(selected_tags(tags))
    } else {
        b == a
    }
}

/// The first tag, from `i` on, tracking the entity `e`.
pub open spec fn first_tag_from(tags: Seq<Tag>, e: EntityId, i: int) -> Option<int>
    decreases tags.len() - i,
{
    if i < 0 || i >= tags.len() {
        None
    } else if tags[i].entity == e {
        Some(i)
    } else {
        first_tag_from(tags, e, i + 1)
    }
}

/// `tags` with the first tag of `e`, if there is one, marked selected or not.
pub open spec fn with_selected(tags: Seq<Tag>, e: EntityId, selected: bool) -> Seq<Tag> {
    match first_tag_from(tags, e, 0) {
        Some(k) => tags.update(k, Tag { selected, ..tags[k] }),
        None => tags,
    }
}

/// `tags` with the first tag of each of `ents`, one after the other, marked
/// selected or not.
pub open spec fn with_all_selected(tags: Seq<Tag>, ents: Seq<EntityId>, selected: bool) -> Seq<Tag>
    decreases ents.len(),
{
    if ents.len() == 0 {
        tags
    } else {
        with_selected(with_all_selected(tags, ents.drop_last(), selected), ents.last(), selected)
    }
}

/// Whether the tag at `k` is the first tag of one of `ents`.
pub open spec fn targeted(tags: Seq<Tag>, ents: Seq<EntityId>, k: int) -> bool {
    exists|j: int| 0 <= j < ents.len() && first_tag_from(tags, ents[j], 0) == Some(k)
}

proof fn lemma_first_tag_from_found(tags: Seq<Tag>, e: EntityId, i: int)
    ensures
        first_tag_from(tags, e, i) matches Some(k) ==> i <= k < tags.len() && tags[k].entity
            == e,
    decreases tags.len() - i,
{
    if 0 <= i < tags.len() && tags[i].entity != e {
        lemma_first_tag_from_found(tags, e, i + 1);
    }
}

proof fn lemma_first_tag_same_entities(a: Seq<Tag>, b: Seq<Tag>, e: EntityId, i: int)
    requires
        a.len() == b.len(),
        forall|k: int| 0 <= k < a.len() ==> (#[trigger] a[k]).entity == b[k].entity,
    ensures
        first_tag_from(a, e, i) == first_tag_from(b, e, i),
    decreases a.len() - i,
{
    if 0 <= i < a.len() {
        lemma_first_tag_same_entities(a, b, e, i + 1);
    }
}

proof fn lemma_first_tag_skips(tags: Seq<Tag>, e: EntityId, i: int)
    requires
        0 <= i <= tags.len(),
        forall|j: int| 0 <= j < i ==> (#[trigger] tags[j]).entity != e,
    ensures
        first_tag_from(tags, e, 0) == first_tag_from(tags, e, i),
    decreases i,
{
    if i > 0 {
        lemma_first_tag_skips(tags, e, i - 1);
    }
}

/// What marking the first tags of `ents` does, tag by tag: the targeted tags
/// get the new mark and keep all else; the others are left alone.
proof fn lemma_with_all_selected(tags: Seq<Tag>, ents: Seq<EntityId>, selected: bool)
    ensures
        with_all_selected(tags, ents, selected).len() == tags.len(),
        forall|k: int|
            0 <= k < tags.len() ==> (#[trigger] with_all_selected(tags, ents, selected)[k]) == if targeted(
                tags,
                ents,
                k,
            ) {
                Tag { selected, ..tags[k] }
            } else {
                tags[k]
            },
    decreases ents.len(),
{
    if ents.len() > 0 {
        let prev = ents.drop_last();
        let mid = with_all_selected(tags, prev, selected);
        lemma_with_all_selected(tags, prev, selected);
        assert forall|k: int| 0 <= k < mid.len() implies (#[trigger] mid[k]).entity
            == tags[k].entity by {}
        lemma_first_tag_same_entities(mid, tags, ents.last(), 0);
        lemma_first_tag_from_found(tags, ents.last(), 0);
        assert forall|k: int| 0 <= k < tags.len() implies (#[trigger] with_all_selected(
            tags,
            ents,
            selected,
        )[k]) == if targeted(tags, ents, k) {
            Tag { selected, ..tags[k] }
        } else {
            tags[k]
        } by {
            let last_hit = first_tag_from(tags, ents.last(), 0) == Some(k);
            if targeted(tags, prev, k) {
                let j = choose|j: int| 0 <= j < prev.len() && first_tag_from(tags, prev[j], 0) == Some(k);
                assert(ents[j] == prev[j]);
            }
            if last_hit {
                assert(ents[ents.len() - 1] == ents.last());
            }
            if targeted(tags, ents, k) && !last_hit {
                let j = choose|j: int| 0 <= j < ents.len() && first_tag_from(tags, ents[j], 0) == Some(k);
                if j == ents.len() - 1 {
                    assert(ents[j] == ents.last());
                } else {
                    assert(prev[j] == ents[j]);
                }
            }
        }
    }
}

/// Marking the same entities twice: the second mark is the one that stays.
pub proof fn lemma_last_mark_wins(tags: Seq<Tag>, ents: Seq<EntityId>, first: bool, second: bool)
    ensures
        with_all_selected(with_all_selected(tags, ents, first), ents, second) == with_all_selected(
            tags,
            ents,
            second,
        ),
{
    let mid = with_all_selected(tags, ents, first);
    lemma_with_all_selected(tags, ents, first);
    lemma_with_all_selected(mid, ents, second);
    lemma_with_all_selected(tags, ents, second);
    assert forall|k: int| 0 <= k < mid.len() implies (#[trigger] mid[k]).entity
        == tags[k].entity by {}
    assert forall|k: int| 0 <= k < tags.len() implies targeted(mid, ents, k) == targeted(
        tags,
        ents,
        k,
    ) by {
        if targeted(mid, ents, k) {
            let j = choose|j: int| 0 <= j < ents.len() && first_tag_from(mid, ents[j], 0) == Some(k);
            lemma_first_tag_same_entities(mid, tags, ents[j], 0);
        }
        if targeted(tags, ents, k) {
            let j = choose|j: int| 0 <= j < ents.len() && first_tag_from(tags, ents[j], 0) == Some(k);
            lemma_first_tag_same_entities(mid, tags, ents[j], 0);
        }
    }
    assert(with_all_selected(mid, ents, second) =~= with_all_selected(tags, ents, second));
}

/// Undoing an action restores the selection it changed, when every instance
/// it touched started out the other way from how the action leaves it (as
/// it does for the actions the editor issues: it selects what is not
/// selected, and deselects what is).
pub proof fn lemma_undo_restores<C>(tags: Seq<Tag>, a: Action<C>)
    requires
        a.is_selection(),
        forall|j: int|
            #![trigger a.targets()[j]]
            0 <= j < a.targets().len() ==> (first_tag_from(tags, a.targets()[j], 0) matches Some(k)
                ==> tags[k].selected != a.selects(Step::Forward)),
    ensures
        walk_tags(a, walk_tags(a, tags, Step::Forward), Step::Back) == tags,
{
    let ents = a.targets();
    lemma_last_mark_wins(tags, ents, a.selects(Step::Forward), a.selects(Step::Back));
    lemma_with_all_selected(tags, ents, a.selects(Step::Back));
    assert forall|k: int| 0 <= k < tags.len() implies #[trigger] with_all_selected(
        tags,
        ents,
        a.selects(Step::Back),
    )[k] == tags[k] by {
        if targeted(tags, ents, k) {
            let j = choose|j: int| 0 <= j < ents.len() && first_tag_from(tags, ents[j], 0) == Some(k);
            assert(ents[j] == a.targets()[j]);
        }
    }
    assert(with_all_selected(tags, ents, a.selects(Step::Back)) =~= tags);
}

impl Tracker {
    /// Marks the first tracked instance of `e`, if any, selected or not.
    pub fn set_selected(&mut self, e: EntityId, selected: bool)
        ensures
            final(self).spawned@ == with_selected(old(self).spawned@, e, selected),
    {
        let mut i: usize = 0;
        while i < self.spawned.len()
            invariant
                i <= self.spawned.len(),
                self.spawned@ == old(self).spawned@,
                forall|j: int| 0 <= j < i ==> (#[trigger] self.spawned@[j]).entity != e,
            decreases self.spawned.len() - i,
        {
            if self.spawned[i].entity == e {
                proof {
                    lemma_first_tag_skips(self.spawned@, e, i as int);
                }
                let t = self.spawned[i];
                self.spawned.set(i, Tag { selected, ..t });
                return;
            }
            i += 1;
        }
        proof {
            lemma_first_tag_skips(self.spawned@, e, i as int);
        }
    }
}

/// Marks the first tracked instance of each of `ents`, one after the
/// other, selected or not.
fn mark_all_of(tracker: &mut Tracker, ents: &Vec<EntityId>, selected: bool)
    ensures
        final(tracker).spawned@ == with_all_selected(old(tracker).spawned@, ents@, selected),
{
    let ghost start = tracker.spawned@;
    let mut i: usize = 0;
    while i < ents.len()
        invariant
            i <= ents.len(),
            tracker.spawned@ == with_all_selected(start, ents@.take(i as int), selected),
        decreases ents.len() - i,
    {
        assert(ents@.take(i as int + 1).drop_last() == ents@.take(i as int));
        assert(ents@.take(i as int + 1).last() == ents@[i as int]);
        tracker.set_selected(ents[i], selected);
        i += 1;
    }
    assert(ents@.take(ents.len() as int) == ents@);
}

/// The keys of deleted instances, in order.
fn keys_of_deleted<C>(list: &Vec<(InstanceKey, C)>) -> (keys: Vec<InstanceKey>)
    ensures
        keys@ == deleted_keys(list@),
{
    let mut keys: Vec<InstanceKey> = Vec::new();
    let mut i: usize = 0;
    while i < list.len()
        invariant
            i <= list.len(),
            keys@ == deleted_keys(list@.take(i as int)),
        decreases list.len() - i,
    {
        keys.push(list[i].0);
        i += 1;
    }
    assert(list@.take(list.len() as int) == list@);
    keys
}

impl<C> Action<C> {
    /// Applies (`Forward`) or undoes (`Back`) the action on the tracked
    /// instances, the dead marks and the instances placed in the Config:
    /// deleting, and undoing a paste, take instances out of the Config.
    /// Returns the outside work left to the caller, and the Config keys whose
    /// instances it took out.
    pub fn walk(&mut self, tracker: &mut Tracker, dead: &mut Dead, config: &mut Config, step: Step) -> (r: (
        Chore,
        Vec<InstanceKey>,
    ))
        ensures
            final(config).instances@ == instances_without(
                old(config).instances@,
                walk_keys(*old(self), old(tracker).spawned@, step),
            ),
            final(config).fabs@ == old(config).fabs@,
            final(config).removal_key == old(config).removal_key,
            final(tracker).spawned@ == walk_tags(*old(self), old(tracker).spawned@, step),
            final(dead)@ == walk_dead(*old(self), old(tracker).spawned@, old(dead)@, step),
            r.0 == walk_chore(*old(self), step),
            r.1@ == walk_keys(*old(self), old(tracker).spawned@, step),
            walked_action(*old(self), *final(self), old(tracker).spawned@, step),
    {
        proof {
            lemma_without_nothing(config.instances@);
        }
        match self {
            Action::Select(e) => {
                let ents = vec![*e];
                assert(ents@ == seq![*e]);
                mark_all_of(tracker, &ents, step == Step::Forward);
                (Chore::Nothing, Vec::new())
            },
            Action::Deselect(e) => {
                let ents = vec![*e];
                assert(ents@ == seq![*e]);
                mark_all_of(tracker, &ents, step == Step::Back);
                (Chore::Nothing, Vec::new())
            },
            Action::GroupSelect(es) => {
                mark_all_of(tracker, es, step == Step::Forward);
                (Chore::Nothing, Vec::new())
            },
            Action::GroupDeselect(es) => {
                mark_all_of(tracker, es, step == Step::Back);
                (Chore::Nothing, Vec::new())
            },
            Action::Delete(list) => {
                if step == Step::Forward {
                    let keys = keys_of_deleted(list);
                    delete_instances(tracker, dead, &keys);
                    config.forget_instances(&keys);
                    (Chore::Nothing, keys)
                } else {
                    (Chore::Restore, Vec::new())
                }
            },
            Action::Paste { id, selected_before, clipboard } => {
                if step == Step::Forward {
                    let before = tracker.deselect_for_paste();
                    *selected_before = before;
                    (Chore::Paste(*id), Vec::new())
                } else {
                    let keys = unpaste(tracker, dead, *id, selected_before);
                    config.forget_instances(&keys);
                    (Chore::Nothing, keys)
                }
            },
        }
    }

    /// Applies the action.
    pub fn apply(&mut self, tracker: &mut Tracker, dead: &mut Dead, config: &mut Config) -> (r: (
        Chore,
        Vec<InstanceKey>,
    ))
        ensures
            final(config).instances@ == instances_without(
                old(config).instances@,
                walk_keys(*old(self), old(tracker).spawned@, Step::Forward),
            ),
            final(config).fabs@ == old(config).fabs@,
            final(config).removal_key == old(config).removal_key,
            final(tracker).spawned@ == walk_tags(*old(self), old(tracker).spawned@, Step::Forward),
            final(dead)@ == walk_dead(*old(self), old(tracker).spawned@, old(dead)@, Step::Forward),
            r.0 == walk_chore(*old(self), Step::Forward),
            r.1@ == walk_keys(*old(self), old(tracker).spawned@, Step::Forward),
            walked_action(*old(self), *final(self), old(tracker).spawned@, Step::Forward),
    {
        self.walk(tracker, dead, config, Step::Forward)
    }

    /// Undoes the action.
    pub fn unapply(&mut self, tracker: &mut Tracker, dead: &mut Dead, config: &mut Config) -> (r: (
        Chore,
        Vec<InstanceKey>,
    ))
        ensures
            final(config).instances@ == instances_without(
                old(config).instances@,
                walk_keys(*old(self), old(tracker).spawned@, Step::Back),
            ),
            final(config).fabs@ == old(config).fabs@,
            final(config).removal_key == old(config).removal_key,
            final(tracker).spawned@ == walk_tags(*old(self), old(tracker).spawned@, Step::Back),
            final(dead)@ == walk_dead(*old(self), old(tracker).spawned@, old(dead)@, Step::Back),
            r.0 == walk_chore(*old(self), Step::Back),
            r.1@ == walk_keys(*old(self), old(tracker).spawned@, Step::Back),
            *final(self) == *old(self),
    {
        self.walk(tracker, dead, config, Step::Back)
    }
}

/// Walking a selection action back and then forward again leaves the
/// selection just as the first walk forward left it: redoing undoes the undo.
pub proof fn lemma_redo_restores<C>(tags: Seq<Tag>, a: Action<C>)
    requires
        a.is_selection(),
    ensures
        ({
            let done = walk_tags(a, tags, Step::Forward);
            let undone = walk_tags(a, done, Step::Back);
            walk_tags(a, undone, Step::Forward) == done
        }),
{
    let ents = a.targets();
    let done = with_all_selected(tags, ents, a.selects(Step::Forward));
    lemma_last_mark_wins(done, ents, a.selects(Step::Back), a.selects(Step::Forward));
    lemma_last_mark_wins(tags, ents, a.selects(Step::Forward), a.selects(Step::Forward));
}

/// The actions done, for undoing, and the actions undone, for redoing.
pub struct Selector<C> {
    /// Stack of actions, for Undo
    pub stack: Vec<Action<C>>,
    /// Stack of actions, for Redo
    pub z_stack: Vec<Action<C>>,
}

impl<C> Selector<C> {
    pub fn new() -> (s: Self)
        ensures
            s.stack@ == Seq::<Action<C>>::empty(),
            s.z_stack@ == Seq::<Action<C>>::empty(),
    {
        Selector { stack: Vec::new(), z_stack: Vec::new() }
    }

    /// Applies an action, then saves it for undoing. Returns the outside work
    /// left to the caller, as `Action::walk` does.
    pub fn do_save(&mut self, tracker: &mut Tracker, dead: &mut Dead, config: &mut Config, a: Action<C>) -> (r: (
        Chore,
        Vec<InstanceKey>,
    ))
        ensures
            final(config).instances@ == instances_without(
                old(config).instances@,
                walk_keys(a, old(tracker).spawned@, Step::Forward),
            ),
            final(config).fabs@ == old(config).fabs@,
            final(config).removal_key == old(config).removal_key,
            final(tracker).spawned@ == walk_tags(a, old(tracker).spawned@, Step::Forward),
            final(dead)@ == walk_dead(a, old(tracker).spawned@, old(dead)@, Step::Forward),
            r.0 == walk_chore(a, Step::Forward),
            r.1@ == walk_keys(a, old(tracker).spawned@, Step::Forward),
            final(self).stack@.len() == old(self).stack@.len() + 1,
            final(self).stack@.drop_last() == old(self).stack@,
            walked_action(a, final(self).stack@.last(), old(tracker).spawned@, Step::Forward),
            final(self).z_stack@ == old(self).z_stack@,
    {
        let mut a = a;
        let r = a.walk(tracker, dead, config, Step::Forward);
        let ghost before = self.stack@;
        self.stack.push(a);
        assert(self.stack@.drop_last() =~= before);
        r
    }

    /// Undoes the last action saved, then saves it for redoing. Returns the
    /// outside work left to the caller, or `None` when there was nothing to
    /// undo.
    pub fn undo(&mut self, tracker: &mut Tracker, dead: &mut Dead, config: &mut Config) -> (r: Option<
        (Chore, Vec<InstanceKey>),
    >)
        ensures
            r is Some == (old(self).stack@.len() > 0),
            r matches Some(w) ==> {
                let a = old(self).stack@.last();
                &&& final(tracker).spawned@ == walk_tags(a, old(tracker).spawned@, Step::Back)
                &&& final(dead)@ == walk_dead(a, old(tracker).spawned@, old(dead)@, Step::Back)
                &&& w.0 == walk_chore(a, Step::Back)
                &&& w.1@ == walk_keys(a, old(tracker).spawned@, Step::Back)
                &&& final(config).instances@ == instances_without(old(config).instances@, w.1@)
                &&& final(self).stack@ == old(self).stack@.drop_last()
                &&& final(self).z_stack@ == old(self).z_stack@.push(a)
            },
            final(config).fabs@ == old(config).fabs@,
            final(config).removal_key == old(config).removal_key,
            r is None ==> {
                &&& final(config).instances@ == old(config).instances@
                &&& final(tracker).spawned@ == old(tracker).spawned@
                &&& final(dead)@ == old(dead)@
                &&& final(self).stack@ == old(self).stack@
                &&& final(self).z_stack@ == old(self).z_stack@
            },
    {
        match self.stack.pop() {
            Some(a) => {
                let mut a = a;
                let w = a.unapply(tracker, dead, config);
                self.z_stack.push(a);
                Some(w)
            },
            None => None,
        }
    }

    /// Reapplies the last action undone, then saves it for undoing again.
    /// Returns the outside work left to the caller, or `None` when there was
    /// nothing to redo.
    pub fn redo(&mut self, tracker: &mut Tracker, dead: &mut Dead, config: &mut Config) -> (r: Option<
        (Chore, Vec<InstanceKey>),
    >)
        ensures
            r is Some == (old(self).z_stack@.len() > 0),
            r matches Some(w) ==> {
                let a = old(self).z_stack@.last();
                &&& final(tracker).spawned@ == walk_tags(a, old(tracker).spawned@, Step::Forward)
                &&& final(dead)@ == walk_dead(a, old(tracker).spawned@, old(dead)@, Step::Forward)
                &&& w.0 == walk_chore(a, Step::Forward)
                &&& w.1@ == walk_keys(a, old(tracker).spawned@, Step::Forward)
                &&& final(config).instances@ == instances_without(old(config).instances@, w.1@)
                &&& final(self).stack@.len() == old(self).stack@.len() + 1
                &&& final(self).stack@.drop_last() == old(self).stack@
                &&& walked_action(a, final(self).stack@.last(), old(tracker).spawned@, Step::Forward)
                &&& final(self).z_stack@ == old(self).z_stack@.drop_last()
            },
            final(config).fabs@ == old(config).fabs@,
            final(config).removal_key == old(config).removal_key,
            r is None ==> {
                &&& final(config).instances@ == old(config).instances@
                &&& final(tracker).spawned@ == old(tracker).spawned@
                &&& final(dead)@ == old(dead)@
                &&& final(self).stack@ == old(self).stack@
                &&& final(self).z_stack@ == old(self).z_stack@
            },
    {
        match self.z_stack.pop() {
            Some(a) => Some(self.do_save(tracker, dead, config, a)),
            None => None,
        }
    }
}

/// Clicking an instance: selects it if it wasn't, deselects it if it was.
pub fn toggle<C>(tag: &Tag) -> (a: Action<C>)
    ensures
        a == if tag.selected {
            Action::<C>::Deselect(tag.entity)
        } else {
            Action::<C>::Select(tag.entity)
        },
{
    if tag.selected {
        Action::Deselect(tag.entity)
    } else {
        Action::Select(tag.entity)
    }
}

/// The entities of `tags`, in order.
pub open spec fn entities(tags: Seq<Tag>) -> Seq<EntityId> {
    tags.map_values(|t: Tag| t.entity)
}

/// The selected tags of `tags`, in order.
pub open spec fn selected_tags(tags: Seq<Tag>) -> Seq<Tag> {
    tags.filter_map(|t: Tag| if t.selected { Some(t) } else { None })
}

impl Tracker {
    /// The selected instances, in the order they are tracked.
    pub fn selected(&self) -> (v: Vec<Tag>)
        ensures
            v@ == selected_tags(self.spawned@),
    {
        let mut v: Vec<Tag> = Vec::new();
        let mut i: usize = 0;
        while i < self.spawned.len()
            invariant
                i <= self.spawned.len(),
                v@ == selected_tags(self.spawned@.take(i as int)),
            decreases self.spawned.len() - i,
        {
            assert(self.spawned@.take(i as int + 1).drop_last() == self.spawned@.take(i as int));
            let t = self.spawned[i];
            if t.selected {
                v.push(t);
            }
            i += 1;
        }
        assert(self.spawned@.take(self.spawned.len() as int) == self.spawned@);
        v
    }
}

/// The entities of `tags`, in order.
fn entities_of(tags: &Vec<Tag>) -> (v: Vec<EntityId>)
    ensures
        v@ == entities(tags@),
{
    let mut v: Vec<EntityId> = Vec::new();
    let mut i: usize = 0;
    while i < tags.len()
        invariant
            i <= tags.len(),
            v@ == entities(tags@.take(i as int)),
        decreases tags.len() - i,
    {
        v.push(tags[i].entity);
        i += 1;
    }
    assert(tags@.take(tags.len() as int) == tags@);
    v
}

/// Select all: selects every instance when none is selected, and otherwise
/// deselects the selected ones.
pub fn select_all<C>(tracker: &Tracker) -> (a: Action<C>)
    ensures
        selected_tags(tracker.spawned@).len() == 0 ==> (a matches Action::GroupSelect(es) && es@
            == entities(tracker.spawned@)),
        selected_tags(tracker.spawned@).len() > 0 ==> (a matches Action::GroupDeselect(es) && es@
            == entities(selected_tags(tracker.spawned@))),
{
    let selected = tracker.selected();
    if selected.len() == 0 {
        Action::GroupSelect(entities_of(&tracker.spawned))
    } else {
        Action::GroupDeselect(entities_of(&selected))
    }
}

/// The entities of the boxed instances that were selected (`true`) or not
/// (`false`), in order.
pub open spec fn boxed_with(over: Seq<(bool, EntityId)>, selected: bool) -> Seq<EntityId> {
    over.filter_map(|p: (bool, EntityId)| if p.0 == selected { Some(p.1) } else { None })
}

fn boxed_with_exec(over: &Vec<(bool, EntityId)>, selected: bool) -> (v: Vec<EntityId>)
    ensures
        v@ == boxed_with(over@, selected),
{
    let mut v: Vec<EntityId> = Vec::new();
    let mut i: usize = 0;
    while i < over.len()
        invariant
            i <= over.len(),
            v@ == boxed_with(over@.take(i as int), selected),
        decreases over.len() - i,
    {
        assert(over@.take(i as int + 1).drop_last() == over@.take(i as int));
        let (s, e) = over[i];
        if s == selected {
            v.push(e);
        }
        i += 1;
    }
    assert(over@.take(over.len() as int) == over@);
    v
}

/// Releasing a box drawn over instances (each given with whether it is
/// selected) flips them: first one action deselecting those that were
/// selected, if any, then one selecting those that were not, if any.
pub fn box_select_actions<C>(over: &Vec<(bool, EntityId)>) -> (actions: Vec<Action<C>>)
    ensures
        ({
            let sel = boxed_with(over@, true);
            let unsel = boxed_with(over@, false);
            &&& actions@.len() == (if sel.len() > 0 { 1int } else { 0 }) + (if unsel.len() > 0 {
                1int
            } else {
                0
            })
            &&& sel.len() > 0 ==> (actions@[0] matches Action::GroupDeselect(es) && es@ == sel)
            &&& unsel.len() > 0 ==> (actions@.last() matches Action::GroupSelect(es) && es@ == unsel)
        }),
{
    let mut actions: Vec<Action<C>> = Vec::new();
    let sel = boxed_with_exec(over, true);
    if sel.len() > 0 {
        actions.push(Action::GroupDeselect(sel));
    }
    let unsel = boxed_with_exec(over, false);
    if unsel.len() > 0 {
        actions.push(Action::GroupSelect(unsel));
    }
    actions
}

/// `tags` with nothing selected.
pub open spec fn deselected(tags: Seq<Tag>) -> Seq<Tag> {
    tags.map_values(|t: Tag| Tag { selected: false, ..t })
}

/// Tags of the paste `id`, as tracked once pasted: selected, and marked
/// with the paste they came from.
pub open spec fn as_pasted(tags: Seq<Tag>, id: usize) -> Seq<Tag> {
    tags.map_values(|t: Tag| Tag { selected: true, paste: Some(id), ..t })
}

/// The tags brought in by the paste `id` that have an instance in the Config.
pub open spec fn pasted_tags(tags: Seq<Tag>, id: usize) -> Seq<Tag> {
    tags.filter_map(
        |t: Tag|
            if t.paste == Some(id) && t.spec_instance_key() is Some {
                Some(t)
            } else {
                None
            },
    )
}

/// The Config keys of `tags`, which all have one.
pub open spec fn instance_keys(tags: Seq<Tag>) -> Seq<InstanceKey> {
    tags.map_values(|t: Tag| t.spec_instance_key().unwrap())
}

/// The tags whose Config instance is one of `keys`.
pub open spec fn tags_with_keys(tags: Seq<Tag>, keys: Seq<InstanceKey>) -> Seq<Tag> {
    tags.filter_map(
        |t: Tag|
            if t.spec_instance_key() matches Some(k) && keys.contains(k) {
                Some(t)
            } else {
                None
            },
    )
}

/// The selected tags that have an instance in the Config.
pub open spec fn selected_config_tags(tags: Seq<Tag>) -> Seq<Tag> {
    tags.filter_map(
        |t: Tag|
            if t.selected && t.spec_instance_key() is Some {
                Some(t)
            } else {
                None
            },
    )
}

impl Tracker {
    /// The first half of pasting: deselects everything, returning the
    /// entities that were selected, in order, so that undoing the paste can
    /// select them again.
    pub fn deselect_for_paste(&mut self) -> (selected_before: Vec<EntityId>)
        ensures
            selected_before@ == entities(selected_tags(old(self).spawned@)),
            final(self).spawned@ == deselected(old(self).spawned@),
    {
        let before = self.selected();
        let ghost start = self.spawned@;
        let mut i: usize = 0;
        while i < self.spawned.len()
            invariant
                i <= self.spawned.len(),
                self.spawned@.len() == start.len(),
                forall|j: int| 0 <= j < i ==> #[trigger] self.spawned@[j] == (Tag { selected: false, ..start[j] }),
                forall|j: int| i <= j < start.len() ==> #[trigger] self.spawned@[j] == start[j],
            decreases self.spawned.len() - i,
        {
            let t = self.spawned[i];
            self.spawned.set(i, Tag { selected: false, ..t });
            i += 1;
        }
        assert(self.spawned@ =~= deselected(start));
        entities_of(&before)
    }

    /// The second half of pasting: tracks the instances spawned by the
    /// paste `id`, selected.
    pub fn track_pasted(&mut self, pasted: Vec<Tag>, id: usize)
        ensures
            final(self).spawned@ == old(self).spawned@ + as_pasted(pasted@, id),
    {
        let ghost start = self.spawned@;
        let mut i: usize = 0;
        while i < pasted.len()
            invariant
                i <= pasted.len(),
                self.spawned@ == start + as_pasted(pasted@.take(i as int), id),
            decreases pasted.len() - i,
        {
            assert(as_pasted(pasted@.take(i as int + 1), id) == as_pasted(pasted@.take(i as int), id).push(
                Tag { selected: true, paste: Some(id), ..pasted@[i as int] },
            ));
            let t = pasted[i];
            self.spawned.push(Tag { selected: true, paste: Some(id), ..t });
            i += 1;
        }
        assert(pasted@.take(pasted.len() as int) == pasted@);
    }

    /// The instances brought in by the paste `id` that have an instance in
    /// the Config, in order.
    pub fn pasted(&self, id: usize) -> (v: Vec<Tag>)
        ensures
            v@ == pasted_tags(self.spawned@, id),
    {
        let mut v: Vec<Tag> = Vec::new();
        let mut i: usize = 0;
        while i < self.spawned.len()
            invariant
                i <= self.spawned.len(),
                v@ == pasted_tags(self.spawned@.take(i as int), id),
            decreases self.spawned.len() - i,
        {
            assert(self.spawned@.take(i as int + 1).drop_last() == self.spawned@.take(i as int));
            let t = self.spawned[i];
            if t.paste == Some(id) && t.instance_key().is_some() {
                v.push(t);
            }
            i += 1;
        }
        assert(self.spawned@.take(self.spawned.len() as int) == self.spawned@);
        v
    }

    /// The selected instances that have an instance in the Config, in order:
    /// the ones that deleting the selection takes out.
    pub fn selected_config(&self) -> (v: Vec<Tag>)
        ensures
            v@ == selected_config_tags(self.spawned@),
    {
        let mut v: Vec<Tag> = Vec::new();
        let mut i: usize = 0;
        while i < self.spawned.len()
            invariant
                i <= self.spawned.len(),
                v@ == selected_config_tags(self.spawned@.take(i as int)),
            decreases self.spawned.len() - i,
        {
            assert(self.spawned@.take(i as int + 1).drop_last() == self.spawned@.take(i as int));
            let t = self.spawned[i];
            if t.selected && t.instance_key().is_some() {
                v.push(t);
            }
            i += 1;
        }
        assert(self.spawned@.take(self.spawned.len() as int) == self.spawned@);
        v
    }

    /// The instances whose Config instance is one of `keys`, in order.
    pub fn with_keys(&self, keys: &Vec<InstanceKey>) -> (v: Vec<Tag>)
        ensures
            v@ == tags_with_keys(self.spawned@, keys@),
    {
        let mut v: Vec<Tag> = Vec::new();
        let mut i: usize = 0;
        while i < self.spawned.len()
            invariant
                i <= self.spawned.len(),
                v@ == tags_with_keys(self.spawned@.take(i as int), keys@),
            decreases self.spawned.len() - i,
        {
            assert(self.spawned@.take(i as int + 1).drop_last() == self.spawned@.take(i as int));
            let t = self.spawned[i];
            let hit = match t.instance_key() {
                Some(k) => contains_key(keys, k),
                None => false,
            };
            if hit {
                v.push(t);
            }
            i += 1;
        }
        assert(self.spawned@.take(self.spawned.len() as int) == self.spawned@);
        v
    }
}

fn contains_key(keys: &Vec<InstanceKey>, k: InstanceKey) -> (b: bool)
    ensures
        b == keys@.contains(k),
{
    let mut i: usize = 0;
    while i < keys.len()
        invariant
            i <= keys.len(),
            forall|j: int| 0 <= j < i ==> keys@[j] != k,
        decreases keys.len() - i,
    {
        if keys[i] == k {
            return true;
        }
        i += 1;
    }
    false
}

/// The Config keys of `tags`, which all have one.
fn keys_of(tags: &Vec<Tag>) -> (v: Vec<InstanceKey>)
    requires
        forall|j: int| 0 <= j < tags@.len() ==> (#[trigger] tags@[j]).spec_instance_key() is Some,
    ensures
        v@ == instance_keys(tags@),
{
    let mut v: Vec<InstanceKey> = Vec::new();
    let mut i: usize = 0;
    while i < tags.len()
        invariant
            i <= tags.len(),
            forall|j: int| 0 <= j < tags@.len() ==> (#[trigger] tags@[j]).spec_instance_key() is Some,
            v@ == instance_keys(tags@.take(i as int)),
        decreases tags.len() - i,
    {
        let k = tags[i].instance_key().unwrap();
        v.push(k);
        i += 1;
    }
    assert(tags@.take(tags.len() as int) == tags@);
    v
}

/// Undoing the paste `id`: marks the instances it brought in dead and
/// selects again what was selected before it. Returns the Config keys of
/// the pasted instances, in order, for the Config to forget.
pub fn unpaste(tracker: &mut Tracker, dead: &mut Dead, id: usize, selected_before: &Vec<EntityId>) -> (keys: Vec<InstanceKey>)
    ensures
        keys@ == instance_keys(pasted_tags(old(tracker).spawned@, id)),
        final(dead)@ == old(dead)@ + entities(pasted_tags(old(tracker).spawned@, id)).to_set(),
        final(tracker).spawned@ == with_all_selected(old(tracker).spawned@, selected_before@, true),
{
    let pasted = tracker.pasted(id);
    proof {
        assert forall|j: int| 0 <= j < pasted@.len() implies (#[trigger] pasted@[j]).spec_instance_key() is Some by {
            lemma_filter_map_kept(tracker.spawned@, id, j);
        }
    }
    dead.mark_all(&entities_of(&pasted));
    mark_all_of(tracker, selected_before, true);
    keys_of(&pasted)
}

proof fn lemma_filter_map_kept(tags: Seq<Tag>, id: usize, j: int)
    requires
        0 <= j < pasted_tags(tags, id).len(),
    ensures
        pasted_tags(tags, id)[j].paste == Some(id),
        pasted_tags(tags, id)[j].spec_instance_key() is Some,
    decreases tags.len(),
{
    if tags.len() > 0 {
        let rest = pasted_tags(tags.drop_last(), id);
        if j < rest.len() {
            lemma_filter_map_kept(tags.drop_last(), id, j);
        }
    }
}

/// Deleting instances from the Config: marks dead every tracked instance of
/// one of `keys`.
pub fn delete_instances(tracker: &Tracker, dead: &mut Dead, keys: &Vec<InstanceKey>)
    ensures
        final(dead)@ == old(dead)@ + entities(tags_with_keys(tracker.spawned@, keys@)).to_set(),
{
    let doomed = tracker.with_keys(keys);
    dead.mark_all(&entities_of(&doomed));
}

/// The Config keys of the selected instances, in order: what deleting the
/// selection takes out of the Config.
pub fn delete_selected(tracker: &Tracker) -> (keys: Vec<InstanceKey>)
    ensures
        keys@ == instance_keys(selected_config_tags(tracker.spawned@)),
{
    let tags = tracker.selected_config();
    proof {
        assert forall|j: int| 0 <= j < tags@.len() implies (#[trigger] tags@[j]).spec_instance_key() is Some by {
            lemma_selected_config_kept(tracker.spawned@, j);
        }
    }
    keys_of(&tags)
}

proof fn lemma_selected_config_kept(tags: Seq<Tag>, j: int)
    requires
        0 <= j < selected_config_tags(tags).len(),
    ensures
        selected_config_tags(tags)[j].selected,
        selected_config_tags(tags)[j].spec_instance_key() is Some,
    decreases tags.len(),
{
    if tags.len() > 0 {
        let rest = selected_config_tags(tags.drop_last());
        if j < rest.len() {
            lemma_selected_config_kept(tags.drop_last(), j);
        }
    }
}

/// No two tags track the same entity.
pub open spec fn distinct_entities(tags: Seq<Tag>) -> bool {
    forall|i: int, j: int|
        0 <= i < tags.len() && 0 <= j < tags.len() && i != j ==> #[trigger] tags[i].entity
            != #[trigger] tags[j].entity
}

/// The selected tags are exactly the tags that are selected.
proof fn lemma_selected_tags_members(tags: Seq<Tag>)
    ensures
        forall|j: int|
            0 <= j < selected_tags(tags).len() ==> (#[trigger] selected_tags(tags)[j]).selected
                && tags.contains(selected_tags(tags)[j]),
        forall|m: int|
            0 <= m < tags.len() && (#[trigger] tags[m]).selected ==> selected_tags(tags).contains(
                tags[m],
            ),
    decreases tags.len(),
{
    if tags.len() > 0 {
        let rest = tags.drop_last();
        lemma_selected_tags_members(rest);
        let st = selected_tags(tags);
        let sr = selected_tags(rest);
        assert forall|j: int| 0 <= j < st.len() implies (#[trigger] st[j]).selected && tags.contains(
            st[j],
        ) by {
            if j < sr.len() {
                assert(st[j] == sr[j]);
                let m = choose|m: int| 0 <= m < rest.len() && rest[m] == sr[j];
                assert(tags[m] == rest[m]);
            } else {
                assert(st[j] == tags.last());
                assert(tags[tags.len() - 1] == tags.last());
            }
        }
        assert forall|m: int| 0 <= m < tags.len() && (#[trigger] tags[m]).selected implies st.contains(
            tags[m],
        ) by {
            if m < rest.len() {
                assert(rest[m] == tags[m]);
                let j = choose|j: int| 0 <= j < sr.len() && sr[j] == rest[m];
                assert(st[j] == sr[j]);
            } else {
                assert(tags[m] == tags.last());
                assert(st[sr.len() as int] == tags.last());
            }
        }
    }
}

proof fn lemma_first_tag_is_the_only_one(tags: Seq<Tag>, k: int)
    requires
        distinct_entities(tags),
        0 <= k < tags.len(),
    ensures
        first_tag_from(tags, tags[k].entity, 0) == Some(k),
{
    assert forall|j: int| 0 <= j < k implies (#[trigger] tags[j]).entity != tags[k].entity by {}
    lemma_first_tag_skips(tags, tags[k].entity, k);
}

/// Undoing a paste gives back the selection from before it: pasting
/// deselects everything and tracks the pasted instances, selected; undoing
/// it selects again what was selected before, so every instance that was
/// there before the paste is as it was (the pasted ones are marked dead).
/// This holds when no two instances track the same entity.
pub proof fn lemma_unpaste_restores_selection(tags: Seq<Tag>, pasted: Seq<Tag>, id: usize)
    requires
        distinct_entities(deselected(tags) + as_pasted(pasted, id)),
    ensures
        ({
            let during = deselected(tags) + as_pasted(pasted, id);
            let after = with_all_selected(during, entities(selected_tags(tags)), true);
            &&& after.len() == tags.len() + pasted.len()
            &&& forall|k: int| 0 <= k < tags.len() ==> #[trigger] after[k] == tags[k]
        }),
{
    let during = deselected(tags) + as_pasted(pasted, id);
    let before = entities(selected_tags(tags));
    let st = selected_tags(tags);
    lemma_with_all_selected(during, before, true);
    lemma_selected_tags_members(tags);
    assert forall|k: int| 0 <= k < tags.len() implies #[trigger] with_all_selected(
        during,
        before,
        true,
    )[k] == tags[k] by {
        assert(during[k] == Tag { selected: false, ..tags[k] });
        if tags[k].selected {
            assert(st.contains(tags[k]));
            let j = choose|j: int| 0 <= j < st.len() && st[j] == tags[k];
            assert(before[j] == tags[k].entity);
            lemma_first_tag_is_the_only_one(during, k);
            assert(targeted(during, before, k));
        } else {
            if targeted(during, before, k) {
                let j = choose|j: int| 0 <= j < before.len() && first_tag_from(during, before[j], 0) == Some(k);
                lemma_first_tag_from_found(during, before[j], 0);
                assert(st[j].selected && tags.contains(st[j]));
                let m = choose|m: int| 0 <= m < tags.len() && tags[m] == st[j];
                assert(during[m].entity == tags[m].entity);
                assert(false);
            }
        }
    }
}

impl Tracker {
    /// The prefab of the first tracked instance of the entity `e`, if it is
    /// tracked.
    pub fn prefab_key_of(&self, e: EntityId) -> (k: Option<PrefabKey>)
        ensures
            k == match first_tag_from(self.spawned@, e, 0) {
                Some(i) => Some(self.spawned@[i].prefab_key),
                None => None::<PrefabKey>,
            },
    {
        let mut i: usize = 0;
        while i < self.spawned.len()
            invariant
                i <= self.spawned.len(),
                forall|j: int| 0 <= j < i ==> (#[trigger] self.spawned@[j]).entity != e,
            decreases self.spawned.len() - i,
        {
            if self.spawned[i].entity == e {
                proof {
                    lemma_first_tag_skips(self.spawned@, e, i as int);
                }
                return Some(self.spawned[i].prefab_key);
            }
            i += 1;
        }
        proof {
            lemma_first_tag_skips(self.spawned@, e, i as int);
        }
        None
    }
}

} // verus!

pub mod tracker;
pub use tracker::{InstanceSource, Tag, Tracker};

use crate::entity::EntityId;
use crate::world::prefab::{Config, InstanceKey, PrefabConfig, PrefabKey};
use crate::world::prefab::table::{is_table_key, lemma_keys_describe_table, table_entry, table_get_mut, table_keys};
use tracker::tags_of;
use crate::world::Dead;
use vstd::prelude::*;

verus! {

broadcast use vstd::std_specs::hash::group_hash_axioms;

/// The tags that stay tracked once the entities marked dead are forgotten:
/// a tag goes when its entity is marked dead, unless it was killed on purpose
/// to be respawned.
pub open spec fn survivors(tags: Seq<Tag>, dead: Set<EntityId>) -> Seq<Tag> {
    tags.filter_map(|t: Tag| if !t.killed && dead.contains(t.entity) { None } else { Some(t) })
}

/// The tags of instances of prefabs other than `key`.
pub open spec fn tags_not_of(tags: Seq<Tag>, key: PrefabKey) -> Seq<Tag> {
    tags.filter_map(|t: Tag| if t.prefab_key == key { None } else { Some(t) })
}

/// The entities of the instances of the prefab `key`, in order.
pub open spec fn entities_of(tags: Seq<Tag>, key: PrefabKey) -> Seq<EntityId> {
    tags.filter_map(|t: Tag| if t.prefab_key == key { Some(t.entity) } else { None })
}

/// Stops recording entities that are marked "dead"
pub fn clear_dead(dead: &Dead, instance_tracker: &mut Tracker)
    ensures
        final(instance_tracker).spawned@ == survivors(old(instance_tracker).spawned@, dead@),
{
    let mut kept: Vec<Tag> = Vec::new();
    let mut i: usize = 0;
    while i < instance_tracker.spawned.len()
        invariant
            i <= instance_tracker.spawned.len(),
            instance_tracker.spawned@ == old(instance_tracker).spawned@,
            kept@ == survivors(instance_tracker.spawned@.take(i as int), dead@),
        decreases instance_tracker.spawned.len() - i,
    {
        assert(instance_tracker.spawned@.take(i as int + 1).drop_last()
            == instance_tracker.spawned@.take(i as int));
        let tag = instance_tracker.spawned[i];
        if !(!tag.killed && dead.is_marked(tag.entity)) {
            kept.push(tag);
        }
        i += 1;
    }
    assert(instance_tracker.spawned@.take(instance_tracker.spawned.len() as int)
        == instance_tracker.spawned@);
    instance_tracker.spawned = kept;
}

/// Stops tracking every instance of the prefab `key`, marking their
/// entities dead.
pub fn clear_prefab_instances(instance_tracker: &mut Tracker, dead: &mut Dead, key: PrefabKey)
    ensures
        final(instance_tracker).spawned@ == tags_not_of(old(instance_tracker).spawned@, key),
        final(dead)@ == old(dead)@.union(entities_of(old(instance_tracker).spawned@, key).to_set()),
{
    let mut kept: Vec<Tag> = Vec::new();
    let mut i: usize = 0;
    while i < instance_tracker.spawned.len()
        invariant
            i <= instance_tracker.spawned.len(),
            instance_tracker.spawned@ == old(instance_tracker).spawned@,
            kept@ == tags_not_of(instance_tracker.spawned@.take(i as int), key),
            dead@ == old(dead)@.union(
                entities_of(instance_tracker.spawned@.take(i as int), key).to_set(),
            ),
        decreases instance_tracker.spawned.len() - i,
    {
        let ghost prefix = instance_tracker.spawned@.take(i as int);
        assert(instance_tracker.spawned@.take(i as int + 1).drop_last() == prefix);
        let tag = instance_tracker.spawned[i];
        if tag.prefab_key == key {
            dead.mark(tag.entity);
            proof {
                entities_of(prefix, key).lemma_push_to_set_commute(tag.entity);
            }
            assert(entities_of(instance_tracker.spawned@.take(i as int + 1), key) == entities_of(
                prefix,
                key,
            ).push(tag.entity));
        } else {
            kept.push(tag);
            assert(entities_of(instance_tracker.spawned@.take(i as int + 1), key) == entities_of(
                prefix,
                key,
            ));
        }
        i += 1;
    }
    assert(instance_tracker.spawned@.take(instance_tracker.spawned.len() as int)
        == instance_tracker.spawned@);
    instance_tracker.spawned = kept;
}

/// The tags of the instances spawned from the Config's instances, one for
/// each, in the table's order: the instance `instances[i]` (its key and its
/// prefab's key) spawned as the entity `entities[i]`, freshly tagged.
pub open spec fn config_tags(instances: Seq<(InstanceKey, PrefabKey)>, entities: Seq<EntityId>) -> Seq<Tag> {
    Seq::new(
        instances.len(),
        |i: int| Tag::fresh(instances[i].1, InstanceSource::Config(instances[i].0), entities[i]),
    )
}

/// Starts tracking, after the instances already tracked, one instance for
/// each instance placed in the Config, in table order: `entities` holds the
/// entity spawned for each.
pub fn spawn_all_instances(
    instance_tracker: &mut Tracker,
    config: &Config,
    entities: &Vec<EntityId>,
)
    requires
        entities@.len() == config.instances@.len(),
    ensures
        final(instance_tracker).spawned@ == old(instance_tracker).spawned@ + config_tags(
            config.instances@,
            entities@,
        ),
{
    let instances = config.instance_entries();
    let ghost start = instance_tracker.spawned@;
    let mut i: usize = 0;
    while i < instances.len()
        invariant
            i <= instances.len(),
            entities@.len() == instances@.len(),
            instance_tracker.spawned@ == start + config_tags(
                instances@.take(i as int),
                entities@.take(i as int),
            ),
        decreases instances.len() - i,
    {
        let (key, pf_key) = instances[i];
        let tag = Tag::new(pf_key, InstanceSource::Config(key), entities[i]);
        instance_tracker.spawned.push(tag);
        proof {
            assert(config_tags(instances@.take(i as int + 1), entities@.take(i as int + 1)) =~= config_tags(
                instances@.take(i as int),
                entities@.take(i as int),
            ).push(tag));
            assert(instance_tracker.spawned@ =~= start + config_tags(
                instances@.take(i as int + 1),
                entities@.take(i as int + 1),
            ));
        }
        i += 1;
    }
    assert(instances@.take(instances.len() as int) == instances@);
    assert(entities@.take(entities.len() as int) == entities@);
}

/// A request to respawn the Config instance `instance_key`, whose tag sits at
/// `tag_index` in the tracker: its old entity is gone and a new one should
/// take its place.
#[derive(PartialEq, Eq, Structural, Clone, Copy, Debug)]
pub struct Respawn {
    pub tag_index: usize,
    pub instance_key: InstanceKey,
}

/// Whether a tag belongs to the prefab `pf_key`, is out of sync with the
/// prefab's generation `generation`, and can be respawned from the Config.
pub open spec fn needs_refresh(t: Tag, pf_key: PrefabKey, generation: usize) -> bool {
    &&& t.prefab_key == pf_key
    &&& t.generation != generation
    &&& t.source is Config
}

/// The tag of an instance respawned from the Config at `generation`:
/// a fresh tag of the same prefab and instance, at that generation.
pub open spec fn respawned_tag(t: Tag, generation: usize) -> Tag {
    Tag { generation, killed: false, selected: false, paste: None, ..t }
}

/// What refreshing one prefab has done so far.
pub struct RefreshState {
    pub tags: Seq<Tag>,
    pub dead: Set<EntityId>,
    pub respawns: Seq<Respawn>,
    /// Whether an instance has held up the refresh, ending it for this frame.
    pub halted: bool,
}

/// Refreshing the prefab `pf_key` at `generation` over the first `n` tags:
/// an out of sync instance that is not killed yet is killed (its entity is
/// marked dead) and holds up the refresh; one killed whose entity is gone is
/// respawned; one killed whose entity still lives holds up the refresh.
pub open spec fn refresh_prefix(
    tags: Seq<Tag>,
    n: nat,
    pf_key: PrefabKey,
    generation: usize,
    living: Set<EntityId>,
    dead: Set<EntityId>,
    respawns: Seq<Respawn>,
) -> RefreshState
    decreases n,
{
    if n == 0 {
        RefreshState { tags, dead, respawns, halted: false }
    } else {
        let s = refresh_prefix(tags, (n - 1) as nat, pf_key, generation, living, dead, respawns);
        let i = n - 1;
        let t = tags[i];
        if s.halted || !needs_refresh(t, pf_key, generation) {
            s
        } else if !t.killed {
            RefreshState {
                tags: s.tags.update(i, Tag { killed: true, ..t }),
                dead: s.dead.insert(t.entity),
                respawns: s.respawns,
                halted: true,
            }
        } else if !living.contains(t.entity) {
            RefreshState {
                tags: s.tags.update(i, respawned_tag(t, generation)),
                dead: s.dead,
                respawns: s.respawns.push(
                    Respawn { tag_index: i as usize, instance_key: t.spec_instance_key().unwrap() },
                ),
                halted: false,
            }
        } else {
            RefreshState { halted: true, ..s }
        }
    }
}

/// What keeping prefab instances fresh has done so far.
pub struct FreshState {
    pub tags: Seq<Tag>,
    pub dead: Set<EntityId>,
    pub respawns: Seq<Respawn>,
    /// The prefab whose instances have all been brought in sync, if any.
    pub done: Option<int>,
}

/// Keeping instances fresh over the first `m` prefabs: each dirty prefab in
/// turn is refreshed, until one is refreshed without being held up.
pub open spec fn fresh_prefix(
    fabs: Seq<(PrefabKey, PrefabConfig)>,
    m: nat,
    tags: Seq<Tag>,
    living: Set<EntityId>,
    dead: Set<EntityId>,
) -> FreshState
    decreases m,
{
    if m == 0 {
        FreshState { tags, dead, respawns: Seq::empty(), done: None }
    } else {
        let s = fresh_prefix(fabs, (m - 1) as nat, tags, living, dead);
        let (pf_key, pf) = fabs[m - 1];
        if s.done is Some || !pf.dirty {
            s
        } else {
            let r = refresh_prefix(
                s.tags,
                s.tags.len(),
                pf_key,
                pf.generation,
                living,
                s.dead,
                s.respawns,
            );
            FreshState {
                tags: r.tags,
                dead: r.dead,
                respawns: r.respawns,
                done: if r.halted {
                    None
                } else {
                    Some(m - 1)
                },
            }
        }
    }
}

/// Refreshing a prefab only rewrites tags in place.
proof fn lemma_refresh_keeps_length(
    tags: Seq<Tag>,
    n: nat,
    pf_key: PrefabKey,
    generation: usize,
    living: Set<EntityId>,
    dead: Set<EntityId>,
    respawns: Seq<Respawn>,
)
    requires
        n <= tags.len(),
    ensures
        refresh_prefix(tags, n, pf_key, generation, living, dead, respawns).tags.len()
            == tags.len(),
        forall|j: int|
            n <= j < tags.len() ==> #[trigger] refresh_prefix(
                tags,
                n,
                pf_key,
                generation,
                living,
                dead,
                respawns,
            ).tags[j] == tags[j],
    decreases n,
{
    if n > 0 {
        lemma_refresh_keeps_length(
            tags,
            (n - 1) as nat,
            pf_key,
            generation,
            living,
            dead,
            respawns,
        );
    }
}

/// Once an instance has held up the refresh of a prefab, the tags after it
/// are left alone.
proof fn lemma_refresh_halted_stays(
    tags: Seq<Tag>,
    n1: nat,
    n2: nat,
    pf_key: PrefabKey,
    generation: usize,
    living: Set<EntityId>,
    dead: Set<EntityId>,
    respawns: Seq<Respawn>,
)
    requires
        n1 <= n2,
        refresh_prefix(tags, n1, pf_key, generation, living, dead, respawns).halted,
    ensures
        refresh_prefix(tags, n2, pf_key, generation, living, dead, respawns) == refresh_prefix(
            tags,
            n1,
            pf_key,
            generation,
            living,
            dead,
            respawns,
        ),
    decreases n2 - n1,
{
    if n2 > n1 {
        lemma_refresh_halted_stays(
            tags,
            n1,
            (n2 - 1) as nat,
            pf_key,
            generation,
            living,
            dead,
            respawns,
        );
    }
}

/// Keeping prefabs fresh only rewrites tags in place.
proof fn lemma_fresh_keeps_length(
    fabs: Seq<(PrefabKey, PrefabConfig)>,
    m: nat,
    tags: Seq<Tag>,
    living: Set<EntityId>,
    dead: Set<EntityId>,
)
    requires
        m <= fabs.len(),
    ensures
        fresh_prefix(fabs, m, tags, living, dead).tags.len() == tags.len(),
    decreases m,
{
    if m > 0 {
        lemma_fresh_keeps_length(fabs, (m - 1) as nat, tags, living, dead);
        let s = fresh_prefix(fabs, (m - 1) as nat, tags, living, dead);
        lemma_refresh_keeps_length(
            s.tags,
            s.tags.len(),
            fabs[m - 1].0,
            fabs[m - 1].1.generation,
            living,
            s.dead,
            s.respawns,
        );
    }
}

/// Refreshes the instances of the prefab `pf_key` against its generation
/// `generation`; returns whether no instance held the refresh up.
fn refresh_instances(
    instance_tracker: &mut Tracker,
    dead: &mut Dead,
    respawns: &mut Vec<Respawn>,
    pf_key: PrefabKey,
    generation: usize,
    living: &std::collections::HashSet<EntityId>,
) -> (all_fresh: bool)
    ensures
        ({
            let r = refresh_prefix(
                old(instance_tracker).spawned@,
                old(instance_tracker).spawned@.len(),
                pf_key,
                generation,
                living@,
                old(dead)@,
                old(respawns)@,
            );
            &&& final(instance_tracker).spawned@ == r.tags
            &&& final(dead)@ == r.dead
            &&& final(respawns)@ == r.respawns
            &&& all_fresh == !r.halted
        }),
{
    let ghost tags0 = instance_tracker.spawned@;
    let ghost dead0 = dead@;
    let ghost respawns0 = respawns@;
    let mut i: usize = 0;
    while i < instance_tracker.spawned.len()
        invariant
            i <= instance_tracker.spawned.len(),
            instance_tracker.spawned@.len() == tags0.len(),
            tags0 == old(instance_tracker).spawned@,
            dead0 == old(dead)@,
            respawns0 == old(respawns)@,
            ({
                let r = refresh_prefix(tags0, i as nat, pf_key, generation, living@, dead0, respawns0);
                &&& instance_tracker.spawned@ == r.tags
                &&& dead@ == r.dead
                &&& respawns@ == r.respawns
                &&& !r.halted
            }),
        decreases instance_tracker.spawned.len() - i,
    {
        proof {
            lemma_refresh_keeps_length(tags0, i as nat, pf_key, generation, living@, dead0, respawns0);
        }
        let t = instance_tracker.spawned[i];
        assert(t == tags0[i as int]);
        if t.prefab_key == pf_key && t.generation != generation {
            if let Some(instance_key) = t.instance_key() {
                if !t.killed {
                    instance_tracker.spawned.set(i, Tag { killed: true, ..t });
                    dead.mark(t.entity);
                    proof {
                        lemma_refresh_halted_stays(
                            tags0,
                            (i + 1) as nat,
                            tags0.len(),
                            pf_key,
                            generation,
                            living@,
                            dead0,
                            respawns0,
                        );
                    }
                    return false;
                } else if !living.contains(&t.entity) {
                    instance_tracker.spawned.set(
                        i,
                        Tag { generation, killed: false, selected: false, paste: None, ..t },
                    );
                    respawns.push(Respawn { tag_index: i, instance_key });
                } else {
                    proof {
                        lemma_refresh_halted_stays(
                            tags0,
                            (i + 1) as nat,
                            tags0.len(),
                            pf_key,
                            generation,
                            living@,
                            dead0,
                            respawns0,
                        );
                    }
                    return false;
                }
            }
        }
        i += 1;
    }
    true
}

/// Respawns instances of prefabs that are marked "dirty".
///
/// The dirty prefabs are taken in order. Each instance out of sync with its
/// prefab is first killed (its entity marked dead); once its entity is gone
/// from `living`, a respawn is requested, which the caller carries out by
/// spawning a new entity for the instance and recording it with
/// `Tracker::respawned`. The first dirty prefab whose instances are all in
/// sync is no longer dirty.
pub fn keep_fresh(
    config: &mut Config,
    instance_tracker: &mut Tracker,
    dead: &mut Dead,
    living: &std::collections::HashSet<EntityId>,
) -> (respawns: Vec<Respawn>)
    ensures
        ({
            let f = fresh_prefix(
                old(config).fabs@,
                old(config).fabs@.len(),
                old(instance_tracker).spawned@,
                living@,
                old(dead)@,
            );
            &&& final(instance_tracker).spawned@ == f.tags
            &&& final(dead)@ == f.dead
            &&& respawns@ == f.respawns
            &&& final(config).removal_key == old(config).removal_key
            &&& final(config).instances@ == old(config).instances@
            &&& final(config).fabs@.len() == old(config).fabs@.len()
            &&& forall|i: int|
                0 <= i < old(config).fabs@.len() ==> {
                    let (k, pf) = #[trigger] old(config).fabs@[i];
                    let (k2, pf2) = final(config).fabs@[i];
                    &&& k2 == k
                    &&& pf2.name == pf.name
                    &&& pf2.generation == pf.generation
                    &&& pf2.dirty == (pf.dirty && f.done != Some(i))
                }
        }),
{
    let ghost fabs0 = config.fabs@;
    let ghost tags0 = instance_tracker.spawned@;
    let ghost dead0 = dead@;
    let keys = table_keys(&config.fabs);
    let mut respawns: Vec<Respawn> = Vec::new();
    let mut m: usize = 0;
    let mut done: Option<usize> = None;
    while m < keys.len()
        invariant_except_break
            ({
                let f = fresh_prefix(fabs0, m as nat, tags0, living@, dead0);
                &&& instance_tracker.spawned@ == f.tags
                &&& dead@ == f.dead
                &&& respawns@ == f.respawns
                &&& f.done is None
            }),
            done is None,
        invariant
            m <= keys.len(),
            config.fabs@ == fabs0,
            keys@ == fabs0.map_values(|p: (PrefabKey, PrefabConfig)| p.0),
            keys@.no_duplicates(),
            forall|j: int| 0 <= j < keys@.len() ==> is_table_key(#[trigger] keys@[j]),
        ensures
            ({
                let f = fresh_prefix(fabs0, fabs0.len(), tags0, living@, dead0);
                &&& instance_tracker.spawned@ == f.tags
                &&& dead@ == f.dead
                &&& respawns@ == f.respawns
                &&& f.done == match done {
                    Some(i) => Some(i as int),
                    None => None::<int>,
                }
            }),
            done is Some ==> done.unwrap() < fabs0.len(),
        decreases keys.len() - m,
    {
        let pf_key = keys[m];
        let pf = table_entry(&config.fabs, &keys, m);
        let dirty = pf.dirty;
        let generation = pf.generation;
        if dirty {
            if refresh_instances(instance_tracker, dead, &mut respawns, pf_key, generation, living) {
                done = Some(m);
                proof {
                    lemma_fresh_done_stays(fabs0, (m + 1) as nat, fabs0.len(), tags0, living@, dead0);
                }
                break;
            }
        }
        m += 1;
    }
    if let Some(i) = done {
        let key = keys[i];
        proof {
            lemma_keys_describe_table(fabs0, keys@);
            assert(fabs0[i as int].0 == key);
        }
        let ghost before = config.fabs@;
        let pf = table_get_mut(&mut config.fabs, key);
        pf.dirty = false;
        proof {
            let j = choose|j: int|
                0 <= j < before.len() && before[j].0 == key && config.fabs@ == before.update(
                    j,
                    (key, *pf),
                );
            assert(before[j].0 == before[i as int].0);
        }
    }
    respawns
}

/// Once a prefab has been brought in sync, the prefabs after it are left alone.
proof fn lemma_fresh_done_stays(
    fabs: Seq<(PrefabKey, PrefabConfig)>,
    m1: nat,
    m2: nat,
    tags: Seq<Tag>,
    living: Set<EntityId>,
    dead: Set<EntityId>,
)
    requires
        m1 <= m2 <= fabs.len(),
        fresh_prefix(fabs, m1, tags, living, dead).done is Some,
    ensures
        fresh_prefix(fabs, m2, tags, living, dead) == fresh_prefix(fabs, m1, tags, living, dead),
    decreases m2 - m1,
{
    if m2 > m1 {
        lemma_fresh_done_stays(fabs, m1, (m2 - 1) as nat, tags, living, dead);
    }
}

/// Once the instances of a prefab are cleared, none of its instances is
/// tracked any more, and the instances of other prefabs are kept in order.
pub proof fn lemma_cleared_prefab_has_no_instances(tags: Seq<Tag>, key: PrefabKey, other: PrefabKey)
    requires
        other != key,
    ensures
        tags_of(tags_not_of(tags, key), key) == Seq::<Tag>::empty(),
        tags_of(tags_not_of(tags, key), other) == tags_of(tags, other),
    decreases tags.len(),
{
    if tags.len() > 0 {
        let init = tags.drop_last();
        let t = tags.last();
        lemma_cleared_prefab_has_no_instances(init, key, other);
        let x = tags_not_of(init, key);
        if t.prefab_key != key {
            assert(tags_not_of(tags, key) == x + seq![t]);
            assert((x + seq![t]).drop_last() =~= x);
            assert((x + seq![t]).last() == t);
        }
    } else {
        assert(tags_not_of(tags, key) =~= Seq::<Tag>::empty());
        assert(tags_of(tags, other) =~= Seq::<Tag>::empty());
    }
}

/// A refresh of a prefab that nothing held up leaves none of the refreshed
/// tags out of sync with the prefab.
proof fn lemma_refresh_complete(
    tags: Seq<Tag>,
    n: nat,
    pf_key: PrefabKey,
    generation: usize,
    living: Set<EntityId>,
    dead: Set<EntityId>,
    respawns: Seq<Respawn>,
)
    requires
        n <= tags.len(),
        !refresh_prefix(tags, n, pf_key, generation, living, dead, respawns).halted,
    ensures
        forall|j: int|
            0 <= j < n ==> !needs_refresh(
                #[trigger] refresh_prefix(
                    tags,
                    n,
                    pf_key,
                    generation,
                    living,
                    dead,
                    respawns,
                ).tags[j],
                pf_key,
                generation,
            ),
    decreases n,
{
    if n > 0 {
        lemma_refresh_complete(tags, (n - 1) as nat, pf_key, generation, living, dead, respawns);
        lemma_refresh_keeps_length(tags, (n - 1) as nat, pf_key, generation, living, dead, respawns);
    }
}

/// When keeping instances fresh finishes a prefab (and so marks it clean),
/// every tracked instance of that prefab that can be respawned from the
/// Config is at the prefab's generation.
pub proof fn lemma_clean_prefab_is_in_sync(
    fabs: Seq<(PrefabKey, PrefabConfig)>,
    tags: Seq<Tag>,
    living: Set<EntityId>,
    dead: Set<EntityId>,
    i: int,
)
    requires
        fresh_prefix(fabs, fabs.len(), tags, living, dead).done == Some(i),
    ensures
        0 <= i < fabs.len(),
        fabs[i].1.dirty,
        forall|j: int|
            0 <= j < tags.len() ==> !needs_refresh(
                #[trigger] fresh_prefix(fabs, fabs.len(), tags, living, dead).tags[j],
                fabs[i].0,
                fabs[i].1.generation,
            ),
{
    lemma_fresh_done_at(fabs, fabs.len(), tags, living, dead, i);
    lemma_fresh_done_stays(fabs, (i + 1) as nat, fabs.len(), tags, living, dead);
}

/// Where keeping instances fresh is done, the prefab it finished was dirty
/// and its refresh was held up by nothing.
proof fn lemma_fresh_done_at(
    fabs: Seq<(PrefabKey, PrefabConfig)>,
    m: nat,
    tags: Seq<Tag>,
    living: Set<EntityId>,
    dead: Set<EntityId>,
    i: int,
)
    requires
        m <= fabs.len(),
        fresh_prefix(fabs, m, tags, living, dead).done == Some(i),
    ensures
        0 <= i < m,
        fabs[i].1.dirty,
        fresh_prefix(fabs, (i + 1) as nat, tags, living, dead).done == Some(i),
        forall|j: int|
            0 <= j < tags.len() ==> !needs_refresh(
                #[trigger] fresh_prefix(fabs, (i + 1) as nat, tags, living, dead).tags[j],
                fabs[i].0,
                fabs[i].1.generation,
            ),
    decreases m,
{
    let s = fresh_prefix(fabs, (m - 1) as nat, tags, living, dead);
    if s.done is Some {
        lemma_fresh_done_at(fabs, (m - 1) as nat, tags, living, dead, i);
    } else {
        lemma_fresh_keeps_length(fabs, (m - 1) as nat, tags, living, dead);
        lemma_refresh_complete(
            s.tags,
            s.tags.len(),
            fabs[m - 1].0,
            fabs[m - 1].1.generation,
            living,
            s.dead,
            s.respawns,
        );
    }
}

} // verus!

use crate::entity::EntityId;
use crate::world::prefab::instances::tracker::selector::first_tag_from;
use crate::world::prefab::instances::Tracker;
use crate::world::prefab::{first_with_key, Config, PrefabConfig};
use crate::world::Dead;
use std::collections::HashMap;
use vstd::prelude::*;

verus! {

broadcast use vstd::std_specs::hash::group_hash_axioms;

/// A script symbol, by its number in the script engine's symbol table.
pub type Sym = u32;

/// The entities tagged with one tag, each with the tag's value for it, in
/// the order they were tagged.
pub type TagEnts = Vec<(EntityId, Option<Sym>)>;

/// The tags of one entity, each with its value, in the order they were given.
pub type EntTags = Vec<(Sym, Option<Sym>)>;

/// The sequences that a map of vectors holds.
pub open spec fn seqs_of<K, A>(m: Map<K, Vec<A>>) -> Map<K, Seq<A>> {
    m.map_values(|v: Vec<A>| v@)
}

/// Both indexes of the tags agree: an entity is listed under a tag with a
/// value exactly when the tag is listed for the entity with that value.
pub open spec fn consistent(
    tagged: Map<Sym, Seq<(EntityId, Option<Sym>)>>,
    ent_tags: Map<EntityId, Seq<(Sym, Option<Sym>)>>,
) -> bool {
    forall|t: Sym, e: EntityId, v: Option<Sym>|
        #![trigger tagged[t].contains((e, v))]
        #![trigger ent_tags[e].contains((t, v))]
        (tagged.contains_key(t) && tagged[t].contains((e, v))) <==> (ent_tags.contains_key(e)
            && ent_tags[e].contains((t, v)))
}

/// What a map holds for `k`, or nothing.
pub open spec fn or_empty<K, A>(m: Map<K, Seq<A>>, k: K) -> Seq<A> {
    if m.contains_key(k) {
        m[k]
    } else {
        Seq::empty()
    }
}

/// The entries for the tag `t` among `tags` given to the entity `e`, in order.
pub open spec fn picks(tags: Seq<(Sym, Option<Sym>)>, e: EntityId, t: Sym) -> Seq<(EntityId, Option<Sym>)> {
    tags.filter_map(|p: (Sym, Option<Sym>)| if p.0 == t { Some((e, p.1)) } else { None })
}

/// The tag index once the entity `e` has been given `tags`: each tag lists
/// `e`, with the value given, after the entities it listed before.
pub open spec fn deposited(
    tagged: Map<Sym, Seq<(EntityId, Option<Sym>)>>,
    e: EntityId,
    tags: Seq<(Sym, Option<Sym>)>,
) -> Map<Sym, Seq<(EntityId, Option<Sym>)>> {
    Map::new(
        |t: Sym| tagged.contains_key(t) || exists|j: int| 0 <= j < tags.len() && tags[j].0 == t,
        |t: Sym| or_empty(tagged, t) + picks(tags, e, t),
    )
}

/// The entries of `s` whose entity is not in `gone`, in order.
pub open spec fn strip(s: Seq<(EntityId, Option<Sym>)>, gone: Set<EntityId>) -> Seq<(EntityId, Option<Sym>)> {
    s.filter_map(|p: (EntityId, Option<Sym>)| if gone.contains(p.0) { None } else { Some(p) })
}

/// Scripts use Tags to find specific entities.
pub struct TagBank {
    tags: HashMap<Sym, TagEnts>,
    ents: HashMap<EntityId, EntTags>,
}

/// Why a script's question about tags or prefabs has no answer.
#[derive(PartialEq, Eq, Structural, Clone, Copy, Debug)]
pub enum ScriptError {
    /// No entity was ever tagged with this tag.
    NoSuchTag(Sym),
    /// The entities tagged with this tag are all gone.
    NoEntsTagged(Sym),
    /// More than one entity is tagged with this tag.
    MoreThanOneTagged(Sym),
    /// The entity was never given any tag.
    NoTagsForEnt,
    /// The entity has no value for this tag.
    NotTagged(Sym),
    /// The entity is not a tracked instance of a prefab.
    NoPrefab,
}

impl TagBank {
    /// For each tag, the entities tagged with it and their values.
    pub closed spec fn tagged(self) -> Map<Sym, Seq<(EntityId, Option<Sym>)>> {
        seqs_of(self.tags@)
    }

    /// For each tagged entity, its tags and their values.
    pub closed spec fn ent_tags(self) -> Map<EntityId, Seq<(Sym, Option<Sym>)>> {
        seqs_of(self.ents@)
    }

    #[verifier::type_invariant]
    closed spec fn wf(self) -> bool {
        consistent(self.tagged(), self.ent_tags())
    }

    pub fn new() -> (b: Self)
        ensures
            b.tagged() == Map::<Sym, Seq<(EntityId, Option<Sym>)>>::empty(),
            b.ent_tags() == Map::<EntityId, Seq<(Sym, Option<Sym>)>>::empty(),
    {
        let tags: HashMap<Sym, TagEnts> = HashMap::with_capacity(1000);
        let ents: HashMap<EntityId, EntTags> = HashMap::with_capacity(1000);
        assert(seqs_of(tags@) =~= Map::<Sym, Seq<(EntityId, Option<Sym>)>>::empty());
        assert(seqs_of(ents@) =~= Map::<EntityId, Seq<(Sym, Option<Sym>)>>::empty());
        TagBank { tags, ents }
    }
}

/// Nothing is picked for a tag that none of the entries carries.
proof fn lemma_picks_none(tags: Seq<(Sym, Option<Sym>)>, e: EntityId, t: Sym)
    requires
        forall|j: int| 0 <= j < tags.len() ==> (#[trigger] tags[j]).0 != t,
    ensures
        picks(tags, e, t) == Seq::<(EntityId, Option<Sym>)>::empty(),
    decreases tags.len(),
{
    if tags.len() > 0 {
        let rest = tags.drop_last();
        assert forall|j: int| 0 <= j < rest.len() implies (#[trigger] rest[j]).0 != t by {
            assert(rest[j] == tags[j]);
        }
        lemma_picks_none(rest, e, t);
        assert(tags[tags.len() - 1] == tags.last());
    }
}

/// What is picked for a tag: the entity given, with each value the tag was
/// given with.
proof fn lemma_picks_contains(tags: Seq<(Sym, Option<Sym>)>, e: EntityId, t: Sym, x: EntityId, v: Option<Sym>)
    ensures
        picks(tags, e, t).contains((x, v)) <==> (x == e && tags.contains((t, v))),
    decreases tags.len(),
{
    if tags.len() > 0 {
        let rest = tags.drop_last();
        lemma_picks_contains(rest, e, t, x, v);
        let pr = picks(rest, e, t);
        if tags.last().0 == t {
            assert(picks(tags, e, t) == pr + seq![(e, tags.last().1)]);
        } else {
            assert(picks(tags, e, t) == pr);
        }
        if tags.contains((t, v)) {
            let j = choose|j: int| 0 <= j < tags.len() && tags[j] == (t, v);
            if j < rest.len() {
                assert(rest[j] == tags[j]);
            } else {
                assert(tags.last() == (t, v));
                assert((pr + seq![(e, v)])[pr.len() as int] == (e, v));
            }
        }
        if rest.contains((t, v)) {
            let j = choose|j: int| 0 <= j < rest.len() && rest[j] == (t, v);
            assert(tags[j] == rest[j]);
        }
        if picks(tags, e, t).contains((x, v)) {
            let p = picks(tags, e, t);
            let j = choose|j: int| 0 <= j < p.len() && p[j] == (x, v);
            if j < pr.len() {
                assert(p[j] == pr[j]);
            } else {
                assert(tags[tags.len() - 1] == tags.last());
            }
        }
        if pr.contains((x, v)) {
            let j = choose|j: int| 0 <= j < pr.len() && pr[j] == (x, v);
            assert(picks(tags, e, t)[j] == pr[j]);
        }
    }
}

/// Giving an entity tags keeps both indexes agreeing.
proof fn lemma_deposit_consistent(
    t0: Map<Sym, Seq<(EntityId, Option<Sym>)>>,
    e0: Map<EntityId, Seq<(Sym, Option<Sym>)>>,
    et: EntityId,
    tags: Seq<(Sym, Option<Sym>)>,
)
    requires
        consistent(t0, e0),
    ensures
        consistent(deposited(t0, et, tags), e0.insert(et, or_empty(e0, et) + tags)),
{
    let t1 = deposited(t0, et, tags);
    let e1 = e0.insert(et, or_empty(e0, et) + tags);
    assert forall|t: Sym, e: EntityId, v: Option<Sym>|
        #![trigger t1[t].contains((e, v))]
        #![trigger e1[e].contains((t, v))]
        (t1.contains_key(t) && t1[t].contains((e, v))) <==> (e1.contains_key(e) && e1[e].contains(
            (t, v),
        )) by {
        lemma_picks_contains(tags, et, t, e, v);
        let old_t = or_empty(t0, t);
        let pk = picks(tags, et, t);
        lemma_concat_contains(old_t, pk, (e, v));
        let old_e = or_empty(e0, e);
        lemma_concat_contains(old_e, tags, (t, v));
        // the two old indexes agree
        if t0.contains_key(t) {
            assert(t0[t].contains((e, v)) == old_t.contains((e, v)));
        }
        if e0.contains_key(e) {
            assert(e0[e].contains((t, v)) == old_e.contains((t, v)));
        }
        assert(old_t.contains((e, v)) == old_e.contains((t, v)));
        // tags carrying `t` put `t` in the new index
        if tags.contains((t, v)) {
            let j = choose|j: int| 0 <= j < tags.len() && tags[j] == (t, v);
            assert(tags[j].0 == t);
            assert(t1.contains_key(t));
        }
        if old_t.contains((e, v)) {
            assert(t0.contains_key(t));
        }
        if t1.contains_key(t) {
            assert(t1[t] == old_t + pk);
        }
        if e == et {
            assert(e1[e] == old_e + tags);
        } else {
            assert(e1.contains_key(e) == e0.contains_key(e));
            if e0.contains_key(e) {
                assert(e1[e] == old_e);
            }
        }
    }
}

/// What the concatenation of two sequences contains.
proof fn lemma_concat_contains<A>(a: Seq<A>, b: Seq<A>, x: A)
    ensures
        (a + b).contains(x) <==> (a.contains(x) || b.contains(x)),
{
    if (a + b).contains(x) {
        let j = choose|j: int| 0 <= j < (a + b).len() && (a + b)[j] == x;
        if j < a.len() {
            assert(a[j] == x);
        } else {
            assert(b[j - a.len()] == x);
        }
    }
    if a.contains(x) {
        let j = choose|j: int| 0 <= j < a.len() && a[j] == x;
        assert((a + b)[j] == x);
    }
    if b.contains(x) {
        let j = choose|j: int| 0 <= j < b.len() && b[j] == x;
        assert((a + b)[a.len() + j] == x);
    }
}

/// Giving one more tag: its tag lists the entity after what it listed.
proof fn lemma_deposited_step(
    t0: Map<Sym, Seq<(EntityId, Option<Sym>)>>,
    et: EntityId,
    prev: Seq<(Sym, Option<Sym>)>,
    t: Sym,
    v: Option<Sym>,
)
    ensures
        deposited(t0, et, prev.push((t, v))) == deposited(t0, et, prev).insert(
            t,
            or_empty(deposited(t0, et, prev), t).push((et, v)),
        ),
{
    let next = prev.push((t, v));
    let d0 = deposited(t0, et, prev);
    let d1 = deposited(t0, et, next);
    assert(next.drop_last() =~= prev);
    assert(next.last() == (t, v));
    assert(picks(next, et, t) =~= picks(prev, et, t).push((et, v)));
    assert forall|k: Sym| k != t implies picks(next, et, k) == picks(prev, et, k) by {}
    assert forall|k: Sym| d1.contains_key(k) == (d0.contains_key(k) || k == t) by {
        if d1.contains_key(k) && !t0.contains_key(k) && k != t {
            let j = choose|j: int| 0 <= j < next.len() && next[j].0 == k;
            assert(j < prev.len());
            assert(prev[j] == next[j]);
        }
        if d0.contains_key(k) && !t0.contains_key(k) {
            let j = choose|j: int| 0 <= j < prev.len() && prev[j].0 == k;
            assert(next[j] == prev[j]);
        }
        if k == t {
            assert(next[prev.len() as int].0 == t);
        }
    }
    if !d0.contains_key(t) {
        assert forall|j: int| 0 <= j < prev.len() implies (#[trigger] prev[j]).0 != t by {}
        lemma_picks_none(prev, et, t);
        assert(or_empty(t0, t) =~= Seq::<(EntityId, Option<Sym>)>::empty());
        assert(or_empty(t0, t) + picks(next, et, t) =~= Seq::<(EntityId, Option<Sym>)>::empty().push((et, v)));
    } else {
        assert(or_empty(t0, t) + picks(next, et, t) =~= (or_empty(t0, t) + picks(prev, et, t)).push((et, v)));
    }
    assert(d1 =~= d0.insert(t, or_empty(d0, t).push((et, v))));
}

impl TagBank {
    /// Gives the entity `et` the tags `tags`, each with its value.
    pub fn deposit(&mut self, et: EntityId, tags: &Vec<(Sym, Option<Sym>)>)
        ensures
            final(self).tagged() == deposited(old(self).tagged(), et, tags@),
            final(self).ent_tags() == old(self).ent_tags().insert(
                et,
                or_empty(old(self).ent_tags(), et) + tags@,
            ),
    {
        proof {
            use_type_invariant(&*self);
        }
        let mut taken = TagBank::new();
        core::mem::swap(&mut taken, self);
        let TagBank { tags: mut by_tag, ents: mut by_ent } = taken;
        let ghost t0 = seqs_of(by_tag@);
        let ghost e0 = seqs_of(by_ent@);
        let mut mine: EntTags = match by_ent.remove(&et) {
            Some(v) => v,
            None => Vec::new(),
        };
        let ghost rest_ents = by_ent@;
        proof {
            assert(t0 =~= deposited(t0, et, tags@.take(0)));
        }
        let mut i: usize = 0;
        while i < tags.len()
            invariant
                i <= tags.len(),
                seqs_of(by_tag@) == deposited(t0, et, tags@.take(i as int)),
                mine@ == or_empty(e0, et) + tags@.take(i as int),
                by_ent@ == rest_ents,
            decreases tags.len() - i,
        {
            let (t, v) = tags[i];
            let ghost cur = seqs_of(by_tag@);
            let mut list: TagEnts = match by_tag.remove(&t) {
                Some(l) => l,
                None => Vec::new(),
            };
            proof {
                assert(list@ == or_empty(cur, t));
            }
            list.push((et, v));
            by_tag.insert(t, list);
            mine.push((t, v));
            proof {
                let prev = tags@.take(i as int);
                let next = tags@.take(i as int + 1);
                assert(next =~= prev.push((t, v)));
                lemma_deposited_step(t0, et, prev, t, v);
                assert(seqs_of(by_tag@) =~= cur.insert(t, or_empty(cur, t).push((et, v))));
                assert(mine@ =~= or_empty(e0, et) + next);
            }
            i += 1;
        }
        proof {
            assert(tags@.take(tags.len() as int) == tags@);
        }
        by_ent.insert(et, mine);
        proof {
            assert(seqs_of(by_ent@) =~= e0.insert(et, or_empty(e0, et) + tags@));
            lemma_deposit_consistent(t0, e0, et, tags@);
        }
        *self = TagBank { tags: by_tag, ents: by_ent };
    }
}

/// Which entries stripping keeps.
proof fn lemma_strip_contains(s: Seq<(EntityId, Option<Sym>)>, gone: Set<EntityId>, p: (EntityId, Option<Sym>))
    ensures
        strip(s, gone).contains(p) <==> (s.contains(p) && !gone.contains(p.0)),
    decreases s.len(),
{
    if s.len() > 0 {
        let rest = s.drop_last();
        lemma_strip_contains(rest, gone, p);
        let sr = strip(rest, gone);
        if !gone.contains(s.last().0) {
            assert(strip(s, gone) == sr + seq![s.last()]);
            lemma_concat_contains(sr, seq![s.last()], p);
            assert(seq![s.last()].contains(p) <==> p == s.last()) by {
                if p == s.last() {
                    assert(seq![s.last()][0] == p);
                }
            }
        } else {
            assert(strip(s, gone) == sr);
        }
        lemma_concat_contains(rest, seq![s.last()], p);
        assert(s == rest + seq![s.last()]);
        assert(seq![s.last()].contains(p) <==> p == s.last()) by {
            if p == s.last() {
                assert(seq![s.last()][0] == p);
            }
        }
    }
}

/// Stripping in two goes is stripping once of both.
proof fn lemma_strip_twice(s: Seq<(EntityId, Option<Sym>)>, gone: Set<EntityId>, e: EntityId)
    ensures
        strip(strip(s, gone), Set::empty().insert(e)) == strip(s, gone.insert(e)),
    decreases s.len(),
{
    if s.len() > 0 {
        let rest = s.drop_last();
        lemma_strip_twice(rest, gone, e);
        let x = s.last();
        if !gone.contains(x.0) {
            let sr = strip(rest, gone);
            assert(strip(s, gone) == sr + seq![x]);
            assert((sr + seq![x]).drop_last() =~= sr);
            assert((sr + seq![x]).last() == x);
        }
    }
}

/// Stripping an entity that no entry has changes nothing.
proof fn lemma_strip_absent(s: Seq<(EntityId, Option<Sym>)>, gone: Set<EntityId>, e: EntityId)
    requires
        forall|j: int| 0 <= j < s.len() ==> (#[trigger] s[j]).0 != e,
    ensures
        strip(s, gone.insert(e)) == strip(s, gone),
    decreases s.len(),
{
    if s.len() > 0 {
        let rest = s.drop_last();
        assert forall|j: int| 0 <= j < rest.len() implies (#[trigger] rest[j]).0 != e by {
            assert(rest[j] == s[j]);
        }
        lemma_strip_absent(rest, gone, e);
        assert(s[s.len() - 1] == s.last());
    }
}

/// The entries of `list` whose entity is not `e`, in order.
fn without_entity(list: &Vec<(EntityId, Option<Sym>)>, e: EntityId) -> (kept: Vec<(EntityId, Option<Sym>)>)
    ensures
        kept@ == strip(list@, Set::empty().insert(e)),
{
    let mut kept: Vec<(EntityId, Option<Sym>)> = Vec::new();
    let mut i: usize = 0;
    while i < list.len()
        invariant
            i <= list.len(),
            kept@ == strip(list@.take(i as int), Set::empty().insert(e)),
        decreases list.len() - i,
    {
        assert(list@.take(i as int + 1).drop_last() == list@.take(i as int));
        let p = list[i];
        if p.0 != e {
            kept.push(p);
        }
        i += 1;
    }
    assert(list@.take(list.len() as int) == list@);
    kept
}

/// Whether the tag `t` is among the tags of `tags`.
pub open spec fn has_tag_in(tags: Seq<(Sym, Option<Sym>)>, t: Sym) -> bool {
    exists|j: int| 0 <= j < tags.len() && tags[j].0 == t
}

/// In agreeing indexes, a tag lists an entity only if the entity lists the
/// tag.
proof fn lemma_listed_only_if_tagged(
    t0: Map<Sym, Seq<(EntityId, Option<Sym>)>>,
    e0: Map<EntityId, Seq<(Sym, Option<Sym>)>>,
    t: Sym,
    e: EntityId,
)
    requires
        consistent(t0, e0),
        t0.contains_key(t),
        !(e0.contains_key(e) && has_tag_in(e0[e], t)),
    ensures
        forall|j: int| 0 <= j < t0[t].len() ==> (#[trigger] t0[t][j]).0 != e,
{
    assert forall|j: int| 0 <= j < t0[t].len() implies (#[trigger] t0[t][j]).0 != e by {
        let (x, v) = t0[t][j];
        if x == e {
            assert(t0[t].contains((x, v)));
            assert(e0[e].contains((t, v)));
            let k = choose|k: int| 0 <= k < e0[e].len() && e0[e][k] == (t, v);
            assert(e0[e][k].0 == t);
        }
    }
}

/// Once the entries of dead entities are taken out, both indexes still agree.
proof fn lemma_cleanup_consistent(
    t0: Map<Sym, Seq<(EntityId, Option<Sym>)>>,
    e0: Map<EntityId, Seq<(Sym, Option<Sym>)>>,
    gone: Set<EntityId>,
)
    requires
        consistent(t0, e0),
    ensures
        consistent(
            t0.map_values(|s: Seq<(EntityId, Option<Sym>)>| strip(s, gone)),
            e0.remove_keys(gone),
        ),
{
    let t1 = t0.map_values(|s: Seq<(EntityId, Option<Sym>)>| strip(s, gone));
    let e1 = e0.remove_keys(gone);
    assert forall|t: Sym, e: EntityId, v: Option<Sym>|
        #![trigger t1[t].contains((e, v))]
        #![trigger e1[e].contains((t, v))]
        (t1.contains_key(t) && t1[t].contains((e, v))) <==> (e1.contains_key(e) && e1[e].contains(
            (t, v),
        )) by {
        if t0.contains_key(t) {
            lemma_strip_contains(t0[t], gone, (e, v));
            assert(t0[t].contains((e, v)) == (e0.contains_key(e) && e0[e].contains((t, v))));
        } else {
            assert(e0.contains_key(e) ==> !e0[e].contains((t, v)));
        }
        if e1.contains_key(e) {
            assert(e1[e] == e0[e]);
        }
    }
}

impl TagBank {
    /// Forgets the tags of the entities marked dead: they leave every tag's
    /// list, and their own lists go.
    pub fn cleanup_tags(&mut self, dead: &Dead)
        ensures
            final(self).tagged() == old(self).tagged().map_values(
                |s: Seq<(EntityId, Option<Sym>)>| strip(s, dead@),
            ),
            final(self).ent_tags() == old(self).ent_tags().remove_keys(dead@),
    {
        proof {
            use_type_invariant(&*self);
        }
        let mut taken = TagBank::new();
        core::mem::swap(&mut taken, self);
        let TagBank { tags: mut by_tag, ents: mut by_ent } = taken;
        let ghost t0 = seqs_of(by_tag@);
        let ghost e0 = seqs_of(by_ent@);
        let marks = dead.marks();
        proof {
            assert(marks@.take(0).to_set() =~= Set::<EntityId>::empty());
            assert(seqs_of(by_tag@) =~= t0.map_values(
                |s: Seq<(EntityId, Option<Sym>)>| strip(s, Set::<EntityId>::empty()),
            )) by {
                assert forall|t: Sym| t0.contains_key(t) implies strip(t0[t], Set::<EntityId>::empty())
                    == t0[t] by {
                    lemma_strip_nothing(t0[t]);
                }
            }
            assert(seqs_of(by_ent@) =~= e0.remove_keys(Set::<EntityId>::empty()));
        }
        let mut i: usize = 0;
        while i < marks.len()
            invariant
                i <= marks.len(),
                marks@.no_duplicates(),
                consistent(t0, e0),
                seqs_of(by_tag@) == t0.map_values(
                    |s: Seq<(EntityId, Option<Sym>)>| strip(s, marks@.take(i as int).to_set()),
                ),
                seqs_of(by_ent@) == e0.remove_keys(marks@.take(i as int).to_set()),
            decreases marks.len() - i,
        {
            let e = marks[i];
            let ghost done = marks@.take(i as int).to_set();
            proof {
                assert(!done.contains(e)) by {
                    if done.contains(e) {
                        let k = choose|k: int| 0 <= k < i && marks@.take(i as int)[k] == e;
                        assert(marks@[k] == marks@[i as int]);
                    }
                }
                assert(marks@.take(i as int + 1) == marks@.take(i as int).push(e));
                marks@.take(i as int).lemma_push_to_set_commute(e);
            }
            let ghost before = by_ent@;
            let removed = by_ent.remove(&e);
            proof {
                assert(by_ent@ == before.remove(e));
                assert(seqs_of(before) == e0.remove_keys(done));
                assert forall|k: EntityId| #[trigger] seqs_of(by_ent@).contains_key(k) implies seqs_of(
                    by_ent@,
                )[k] == e0[k] by {
                    assert(before.contains_key(k));
                    assert(seqs_of(before).contains_key(k));
                    assert(seqs_of(before)[k] == before[k]@);
                }
                assert forall|k: EntityId| #[trigger] seqs_of(by_ent@).contains_key(k) == e0.remove_keys(
                    done.insert(e),
                ).contains_key(k) by {
                    assert(seqs_of(before).contains_key(k) == before.contains_key(k));
                    assert(seqs_of(before).contains_key(k) == e0.remove_keys(done).contains_key(k));
                }
                assert(seqs_of(by_ent@) =~= e0.remove_keys(done.insert(e)));
            }
            let ghost after_ents = seqs_of(by_ent@);
            match removed {
                Some(e_tags) => {
                    proof {
                        assert(before.contains_key(e) && before[e] == e_tags);
                        assert(seqs_of(before).contains_key(e));
                        assert(seqs_of(before)[e] == e_tags@);
                        assert(e0.remove_keys(done).contains_key(e));
                        assert(e0.contains_key(e));
                        assert(e_tags@ == e0[e]);
                    }
                    let mut j: usize = 0;
                    while j < e_tags.len()
                        invariant
                            j <= e_tags.len(),
                            e0.contains_key(e),
                            e_tags@ == e0[e],
                            consistent(t0, e0),
                            !done.contains(e),
                            seqs_of(by_tag@).dom() == t0.dom(),
                            forall|t: Sym|
                                #[trigger] t0.contains_key(t) ==> seqs_of(by_tag@)[t] == if has_tag_in(
                                    e_tags@.take(j as int),
                                    t,
                                ) {
                                    strip(t0[t], done.insert(e))
                                } else {
                                    strip(t0[t], done)
                                },
                        decreases e_tags.len() - j,
                    {
                        let t = e_tags[j].0;
                        let ghost cur = seqs_of(by_tag@);
                        let listed = by_tag.remove(&t);
                        match listed {
                            Some(list) => {
                                let kept = without_entity(&list, e);
                                by_tag.insert(t, kept);
                                proof {
                                    assert(t0.contains_key(t));
                                    if has_tag_in(e_tags@.take(j as int), t) {
                                        assert(done.insert(e).insert(e) == done.insert(e));
                                    }
                                    lemma_strip_twice(
                                        strip(t0[t], done),
                                        Set::empty(),
                                        e,
                                    );
                                    lemma_strip_twice(t0[t], done, e);
                                    lemma_strip_twice(t0[t], done.insert(e), e);
                                    assert(done.insert(e).insert(e) =~= done.insert(e));
                                }
                            },
                            None => {},
                        }
                        proof {
                            let prev = e_tags@.take(j as int);
                            let next = e_tags@.take(j as int + 1);
                            assert forall|k: Sym| has_tag_in(next, k) == (has_tag_in(prev, k) || k == t) by {
                                if has_tag_in(next, k) {
                                    let jj = choose|jj: int| 0 <= jj < next.len() && next[jj].0 == k;
                                    if jj < prev.len() {
                                        assert(prev[jj] == next[jj]);
                                    }
                                }
                                if has_tag_in(prev, k) {
                                    let jj = choose|jj: int| 0 <= jj < prev.len() && prev[jj].0 == k;
                                    assert(next[jj] == prev[jj]);
                                }
                                if k == t {
                                    assert(next[j as int].0 == t);
                                }
                            }
                            if listed is None {
                                assert(!cur.contains_key(t));
                                let v = e0[e][j as int].1;
                                assert(e0[e].contains((t, v))) by {
                                    assert(e0[e][j as int] == (t, v));
                                }
                                assert(t0.contains_key(t));
                                assert(false);
                            }
                            assert(seqs_of(by_tag@).dom() =~= t0.dom());
                        }
                        j += 1;
                    }
                    proof {
                        assert(e_tags@.take(e_tags.len() as int) == e_tags@);
                        assert forall|t: Sym| t0.contains_key(t) && !has_tag_in(e_tags@, t) implies strip(
                            t0[t],
                            done.insert(e),
                        ) == strip(t0[t], done) by {
                            lemma_listed_only_if_tagged(t0, e0, t, e);
                            lemma_strip_absent(t0[t], done, e);
                        }
                    }
                },
                None => {
                    proof {
                        assert(!before.contains_key(e));
                        assert(!seqs_of(before).contains_key(e));
                        assert(!e0.contains_key(e));
                        assert forall|t: Sym| t0.contains_key(t) implies strip(t0[t], done.insert(e))
                            == strip(t0[t], done) by {
                            lemma_listed_only_if_tagged(t0, e0, t, e);
                            lemma_strip_absent(t0[t], done, e);
                        }
                    }
                },
            }
            proof {
                let next = marks@.take(i as int + 1).to_set();
                assert(next == done.insert(e));
                assert(seqs_of(by_tag@) =~= t0.map_values(
                    |s: Seq<(EntityId, Option<Sym>)>| strip(s, next),
                ));
                assert(seqs_of(by_ent@) == after_ents);
                assert(seqs_of(by_ent@) =~= e0.remove_keys(next));
            }
            i += 1;
        }
        proof {
            assert(marks@.take(marks.len() as int) == marks@);
            lemma_cleanup_consistent(t0, e0, dead@);
        }
        *self = TagBank { tags: by_tag, ents: by_ent };
    }
}

/// Stripping nothing keeps everything.
proof fn lemma_strip_nothing(s: Seq<(EntityId, Option<Sym>)>)
    ensures
        strip(s, Set::empty()) == s,
    decreases s.len(),
{
    if s.len() > 0 {
        lemma_strip_nothing(s.drop_last());
        assert(s.drop_last() + seq![s.last()] =~= s);
    }
}

/// The value the first entry for the tag `t` carries, if some entry is for
/// it: `None` when no entry is, or when the first one carries no value.
pub open spec fn first_value(tags: Seq<(Sym, Option<Sym>)>, t: Sym) -> Option<Sym>
    decreases tags.len(),
{
    if tags.len() == 0 {
        None
    } else if tags[0].0 == t {
        tags[0].1
    } else {
        first_value(tags.drop_first(), t)
    }
}

/// The entities of `vault` tagged with the value `val`, in order.
pub open spec fn with_value(vault: Seq<(EntityId, Option<Sym>)>, val: Sym) -> Seq<EntityId> {
    vault.filter_map(|p: (EntityId, Option<Sym>)| if p.1 == Some(val) { Some(p.0) } else { None })
}

impl TagBank {
    /// Every entity tagged with `tag`, with its value, in the order they were
    /// tagged; none for a tag never used.
    pub fn all_tagged(&self, tag: Sym) -> (r: Vec<(EntityId, Option<Sym>)>)
        ensures
            r@ == or_empty(self.tagged(), tag),
    {
        match self.tags.get(&tag) {
            None => Vec::new(),
            Some(vault) => {
                let mut r: Vec<(EntityId, Option<Sym>)> = Vec::new();
                let mut i: usize = 0;
                while i < vault.len()
                    invariant
                        i <= vault.len(),
                        r@ == vault@.take(i as int),
                    decreases vault.len() - i,
                {
                    r.push(vault[i]);
                    i += 1;
                }
                assert(vault@.take(vault.len() as int) == vault@);
                r
            },
        }
    }

    /// The entities tagged with `tag` whose value is `val`, in order.
    pub fn all_tagged_with_val(&self, tag: Sym, val: Sym) -> (r: Vec<EntityId>)
        ensures
            r@ == with_value(or_empty(self.tagged(), tag), val),
    {
        match self.tags.get(&tag) {
            None => Vec::new(),
            Some(vault) => {
                let mut r: Vec<EntityId> = Vec::new();
                let mut i: usize = 0;
                while i < vault.len()
                    invariant
                        i <= vault.len(),
                        r@ == with_value(vault@.take(i as int), val),
                    decreases vault.len() - i,
                {
                    assert(vault@.take(i as int + 1).drop_last() == vault@.take(i as int));
                    let (e, v) = vault[i];
                    if v == Some(val) {
                        r.push(e);
                    }
                    i += 1;
                }
                assert(vault@.take(vault.len() as int) == vault@);
                r
            },
        }
    }

    /// The one entity tagged with `tag`, with its value.
    pub fn ent_tagged(&self, tag: Sym) -> (r: Result<(EntityId, Option<Sym>), ScriptError>)
        ensures
            !self.tagged().contains_key(tag) ==> r == Err::<(EntityId, Option<Sym>), ScriptError>(
                ScriptError::NoSuchTag(tag),
            ),
            self.tagged().contains_key(tag) ==> r == if self.tagged()[tag].len() == 0 {
                Err(ScriptError::NoEntsTagged(tag))
            } else if self.tagged()[tag].len() == 1 {
                Ok(self.tagged()[tag][0])
            } else {
                Err(ScriptError::MoreThanOneTagged(tag))
            },
    {
        match self.tags.get(&tag) {
            None => Err(ScriptError::NoSuchTag(tag)),
            Some(vault) => {
                if vault.len() == 0 {
                    Err(ScriptError::NoEntsTagged(tag))
                } else if vault.len() == 1 {
                    Ok(vault[0])
                } else {
                    Err(ScriptError::MoreThanOneTagged(tag))
                }
            },
        }
    }

    /// The value of the entity's tag `tag`: `None` if the entity lacks that
    /// tag or it carries no value. An entity never given tags is an error.
    pub fn tag(&self, e: EntityId, tag: Sym) -> (r: Result<Option<Sym>, ScriptError>)
        ensures
            r == if self.ent_tags().contains_key(e) {
                Ok(first_value(self.ent_tags()[e], tag))
            } else {
                Err(ScriptError::NoTagsForEnt)
            },
    {
        match self.ents.get(&e) {
            None => Err(ScriptError::NoTagsForEnt),
            Some(tags) => {
                assert(self.ent_tags().contains_key(e) && self.ent_tags()[e] == tags@);
                assert(tags@.skip(0) == tags@);
                let mut i: usize = 0;
                while i < tags.len()
                    invariant
                        i <= tags.len(),
                        self.ent_tags().contains_key(e),
                        self.ent_tags()[e] == tags@,
                        first_value(tags@, tag) == first_value(tags@.skip(i as int), tag),
                    decreases tags.len() - i,
                {
                    let (t, v) = tags[i];
                    assert(tags@.skip(i as int)[0] == tags@[i as int]);
                    assert(tags@.skip(i as int).len() > 0);
                    if t == tag {
                        return Ok(v);
                    }
                    assert(tags@.skip(i as int).drop_first() == tags@.skip(i as int + 1));
                    i += 1;
                }
                assert(tags@.skip(i as int).len() == 0);
                Ok(None)
            },
        }
    }

    /// The value of the entity's tag `tag`, which must have one.
    pub fn tagval(&self, e: EntityId, tag: Sym) -> (r: Result<Sym, ScriptError>)
        ensures
            r == if self.ent_tags().contains_key(e) {
                match first_value(self.ent_tags()[e], tag) {
                    Some(v) => Ok(v),
                    None => Err(ScriptError::NotTagged(tag)),
                }
            } else {
                Err(ScriptError::NoTagsForEnt)
            },
    {
        match self.tag(e, tag) {
            Ok(Some(v)) => Ok(v),
            Ok(None) => Err(ScriptError::NotTagged(tag)),
            Err(err) => Err(err),
        }
    }

    /// Whether the entity's tag `tag` carries a value.
    pub fn has_tag(&self, e: EntityId, tag: Sym) -> (r: Result<bool, ScriptError>)
        ensures
            r == if self.ent_tags().contains_key(e) {
                Ok(first_value(self.ent_tags()[e], tag) is Some)
            } else {
                Err(ScriptError::NoTagsForEnt)
            },
    {
        match self.tag(e, tag) {
            Ok(v) => Ok(v.is_some()),
            Err(err) => Err(err),
        }
    }
}

/// The tag and value a map's configuration gives, read from their text: no
/// tag when its name is empty, and no value when the value's text is.
pub fn tag_of_text(tag: &String, val: &String) -> (r: Option<(String, Option<String>)>)
    ensures
        tag@.len() == 0 ==> r is None,
        tag@.len() > 0 ==> (r matches Some((t, v)) && t@ == tag@ && (if val@.len() == 0 {
            v is None
        } else {
            (v matches Some(s) && s@ == val@)
        })),
{
    if tag.as_str().is_empty() {
        None
    } else if val.as_str().is_empty() {
        Some((tag.clone(), None))
    } else {
        Some((tag.clone(), Some(val.clone())))
    }
}

/// After cleaning up, no tag lists an entity marked dead.
pub proof fn lemma_cleanup_forgets_dead(
    tagged: Map<Sym, Seq<(EntityId, Option<Sym>)>>,
    dead: Set<EntityId>,
    t: Sym,
    e: EntityId,
    v: Option<Sym>,
)
    requires
        tagged.contains_key(t),
        dead.contains(e),
    ensures
        !tagged.map_values(|s: Seq<(EntityId, Option<Sym>)>| strip(s, dead))[t].contains((e, v)),
{
    lemma_strip_contains(tagged[t], dead, (e, v));
}

/// Which entities `with_value` finds.
proof fn lemma_with_value_contains(vault: Seq<(EntityId, Option<Sym>)>, val: Sym, e: EntityId)
    ensures
        with_value(vault, val).contains(e) <==> vault.contains((e, Some(val))),
    decreases vault.len(),
{
    if vault.len() > 0 {
        let rest = vault.drop_last();
        lemma_with_value_contains(rest, val, e);
        let wr = with_value(rest, val);
        lemma_concat_contains(rest, seq![vault.last()], (e, Some(val)));
        assert(vault == rest + seq![vault.last()]);
        assert(seq![vault.last()].contains((e, Some(val))) <==> vault.last() == (e, Some(val))) by {
            if vault.last() == (e, Some(val)) {
                assert(seq![vault.last()][0] == (e, Some(val)));
            }
        }
        if vault.last().1 == Some(val) {
            assert(with_value(vault, val) == wr + seq![vault.last().0]);
            lemma_concat_contains(wr, seq![vault.last().0], e);
            assert(seq![vault.last().0].contains(e) <==> vault.last().0 == e) by {
                if vault.last().0 == e {
                    assert(seq![vault.last().0][0] == e);
                }
            }
        } else {
            assert(with_value(vault, val) == wr);
        }
    }
}

/// Scripts find what was deposited: an entity given a tag with a value is
/// among the entities tagged with that value.
pub proof fn lemma_deposit_then_find(
    tagged: Map<Sym, Seq<(EntityId, Option<Sym>)>>,
    e: EntityId,
    tags: Seq<(Sym, Option<Sym>)>,
    t: Sym,
    val: Sym,
)
    requires
        tags.contains((t, Some(val))),
    ensures
        deposited(tagged, e, tags).contains_key(t),
        with_value(or_empty(deposited(tagged, e, tags), t), val).contains(e),
{
    let j = choose|j: int| 0 <= j < tags.len() && tags[j] == (t, Some(val));
    assert(tags[j].0 == t);
    lemma_picks_contains(tags, e, t, e, Some(val));
    lemma_concat_contains(or_empty(tagged, t), picks(tags, e, t), (e, Some(val)));
    lemma_with_value_contains(or_empty(deposited(tagged, e, tags), t), val, e);
}

/// The prefab an entity is an instance of, as the table holds it.
///
/// A tracked entity whose prefab has left the table is refused by `requires`.
pub fn ent_prefab<'a>(config: &'a Config, tracker: &Tracker, e: EntityId) -> (r: Result<&'a PrefabConfig, ScriptError>)
    requires
        first_tag_from(tracker.spawned@, e, 0) matches Some(i) ==> exists|j: int|
            0 <= j < config.fabs@.len() && (#[trigger] config.fabs@[j]).0
                == tracker.spawned@[i].prefab_key,
    ensures
        match first_tag_from(tracker.spawned@, e, 0) {
            Some(i) => r matches Ok(pf) && exists|j: int|
                first_with_key(config.fabs@, tracker.spawned@[i].prefab_key, j) && *pf
                    == config.fabs@[j].1,
            None => r == Err::<&PrefabConfig, ScriptError>(ScriptError::NoPrefab),
        },
{
    match tracker.prefab_key_of(e) {
        Some(key) => Ok(config.get(key)),
        None => Err(ScriptError::NoPrefab),
    }
}

} // verus!

use crate::entity::EntityId;
use crate::world::Dead;
use vstd::prelude::*;

verus! {

broadcast use vstd::std_specs::hash::group_hash_axioms;

/// Refers to one of the pieces of art in the draw configuration, by position.
#[derive(PartialEq, Eq, Structural, Clone, Copy, Debug)]
pub struct ArtHandle(pub usize);

impl ArtHandle {
    pub fn new_unchecked(u: usize) -> (h: Self)
        ensures
            h == ArtHandle(u),
    {
        ArtHandle(u)
    }
}

/// The art configured, by file name, in order; a handle is a position here.
pub struct ArtFiles {
    pub files: Vec<String>,
}

impl ArtFiles {
    /// The handle of the first piece of art drawn from `file`.
    ///
    /// Asking for art that is not configured is refused by `requires`.
    pub fn art(&self, file: &str) -> (h: ArtHandle)
        requires
            exists|i: int| 0 <= i < self.files@.len() && (#[trigger] self.files@[i])@ == file@,
        ensures
            h.0 < self.files@.len(),
            self.files@[h.0 as int]@ == file@,
            forall|j: int| 0 <= j < h.0 ==> (#[trigger] self.files@[j])@ != file@,
    {
        let name = file.to_owned();
        let mut i: usize = 0;
        while i < self.files.len()
            invariant
                i <= self.files.len(),
                name@ == file@,
                exists|i: int| 0 <= i < self.files@.len() && (#[trigger] self.files@[i])@ == file@,
                forall|j: int| 0 <= j < i ==> (#[trigger] self.files@[j])@ != file@,
            decreases self.files.len() - i,
        {
            if self.files[i] == name {
                return ArtHandle(i);
            }
            i += 1;
        }
        ArtHandle(0)
    }
}

/// How a piece of art is laid out on a sprite sheet and animated.
///
/// The rows, columns, total frames and frame rate are never zero.
#[derive(PartialEq, Eq, Structural, Clone, Copy, Debug)]
pub struct Spritesheet {
    pub rows: usize,
    pub columns: usize,
    pub total: usize,
    pub frame_rate: usize,
    pub hold_at: usize,
}

impl Spritesheet {
    /// Every count of the sheet is at least one.
    pub open spec fn wf(self) -> bool {
        &&& self.rows > 0
        &&& self.columns > 0
        &&& self.total > 0
        &&& self.frame_rate > 0
    }
}

impl Default for Spritesheet {
    fn default() -> (s: Self)
        ensures
            s == (Spritesheet { rows: 1, columns: 1, total: 1, frame_rate: 1, hold_at: 0 }),
    {
        Spritesheet { rows: 1, columns: 1, total: 1, frame_rate: 1, hold_at: 0 }
    }
}

/// How many game frames an animated entity has been shown for.
#[derive(PartialEq, Eq, Structural, Clone, Copy, Debug)]
pub struct AnimationFrame(pub usize);

/// The frame of a sheet shown after `af` game frames: each sheet frame lasts
/// `frame_rate` game frames, and the sheet loops.
pub open spec fn frame_shown(af: usize, ss: Spritesheet) -> int {
    (af as int / ss.frame_rate as int) % (ss.total as int)
}

impl AnimationFrame {
    pub fn current_frame(self, ss: Spritesheet) -> (f: usize)
        requires
            ss.wf(),
        ensures
            f == frame_shown(self.0, ss),
            f < ss.total,
    {
        self.0 / ss.frame_rate % ss.total
    }

    pub fn at_holding_frame(self, ss: Spritesheet) -> (b: bool)
        requires
            ss.wf(),
        ensures
            b == (frame_shown(self.0, ss) == ss.hold_at),
    {
        self.current_frame(ss) == ss.hold_at
    }
}

/// Moves every animation on by one game frame.
pub fn animate(frames: &mut Vec<AnimationFrame>)
    requires
        forall|i: int| 0 <= i < old(frames)@.len() ==> (#[trigger] old(frames)@[i]).0 < usize::MAX,
    ensures
        final(frames)@.len() == old(frames)@.len(),
        forall|i: int|
            0 <= i < old(frames)@.len() ==> #[trigger] final(frames)@[i] == AnimationFrame(
                (old(frames)@[i].0 + 1) as usize,
            ),
{
    let mut i: usize = 0;
    while i < frames.len()
        invariant
            i <= frames.len(),
            frames@.len() == old(frames)@.len(),
            forall|j: int| i <= j < frames@.len() ==> #[trigger] frames@[j] == old(frames)@[j],
            forall|j: int|
                0 <= j < i ==> #[trigger] frames@[j] == AnimationFrame(
                    (old(frames)@[j].0 + 1) as usize,
                ),
            forall|j: int| 0 <= j < old(frames)@.len() ==> (#[trigger] old(frames)@[j]).0 < usize::MAX,
        decreases frames.len() - i,
    {
        let AnimationFrame(af) = frames[i];
        frames.set(i, AnimationFrame(af + 1));
        i += 1;
    }
}

/// Where art is drawn relative to its hitbox.
#[derive(PartialEq, Eq, Structural, Clone, Copy, Debug)]
pub enum Align {
    Center,
    Bottom,
}

impl Default for Align {
    fn default() -> (a: Self)
        ensures
            a == Align::Bottom,
    {
        Align::Bottom
    }
}

impl Align {
    pub fn is_bottom(&self) -> (b: bool)
        ensures
            b == (*self == Align::Bottom),
    {
        match self {
            Align::Bottom => true,
            Align::Center => false,
        }
    }
}

/// A Component that animates an entity's death, should it die.
#[derive(PartialEq, Eq, Structural, Clone, Copy, Debug)]
pub struct DeathAnimation {
    pub art: ArtHandle,
}

impl DeathAnimation {
    pub fn new(art: ArtHandle) -> (d: Self)
        ensures
            d == (DeathAnimation { art }),
    {
        Self { art }
    }
}

/// The death animations, in the order of `marks`, of those entities that
/// have one.
pub open spec fn deaths_of(marks: Seq<EntityId>, anims: Map<EntityId, DeathAnimation>) -> Seq<(EntityId, DeathAnimation)> {
    marks.filter_map(
        |e: EntityId|
            if anims.contains_key(e) {
                Some((e, anims[e]))
            } else {
                None
            },
    )
}

/// Ghost entities are spawned to play death animations: one for each entity
/// marked dead that has a death animation (`anims` tells which entities
/// have one). Returns those entities with their animations, for the ghosts
/// to be spawned where they stood.
pub fn insert_ghosts(dead: &Dead, anims: &std::collections::HashMap<EntityId, DeathAnimation>) -> (ghosts: Vec<(EntityId, DeathAnimation)>)
    ensures
        exists|marks: Seq<EntityId>|
            {
                &&& marks.to_set() == dead@
                &&& marks.no_duplicates()
                &&& ghosts@ == deaths_of(marks, anims@)
            },
{
    let marks = dead.marks();
    let mut ghosts: Vec<(EntityId, DeathAnimation)> = Vec::new();
    let mut i: usize = 0;
    while i < marks.len()
        invariant
            i <= marks.len(),
            ghosts@ == deaths_of(marks@.take(i as int), anims@),
        decreases marks.len() - i,
    {
        assert(marks@.take(i as int + 1).drop_last() == marks@.take(i as int));
        let e = marks[i];
        if let Some(a) = anims.get(&e) {
            ghosts.push((e, *a));
        }
        i += 1;
    }
    assert(marks@.take(marks.len() as int) == marks@);
    ghosts
}

/// A Component that is active on GhostState entities as they animate a death.
/// The bool should start out as false and be set to true if the animation has begun playing.
#[derive(PartialEq, Eq, Structural, Clone, Copy, Debug)]
pub struct AnimatingDeath(pub bool);

/// A ghost playing a death animation: its entity, whether the animation has
/// begun, how long it has been shown, and the sheet of its art.
#[derive(PartialEq, Eq, Structural, Clone, Copy, Debug)]
pub struct GhostState {
    pub entity: EntityId,
    pub animating: AnimatingDeath,
    pub frame: AnimationFrame,
    pub sheet: Spritesheet,
}

/// What one frame does to a ghost: showing the second frame of the sheet
/// means the animation has begun; showing the first frame again once it has
/// begun means it is over.
pub open spec fn ghost_after(g: GhostState) -> (GhostState, bool) {
    let cf = frame_shown(g.frame.0, g.sheet);
    if cf == 1 {
        (GhostState { animating: AnimatingDeath(true), ..g }, false)
    } else if cf == 0 && g.animating.0 {
        (g, true)
    } else {
        (g, false)
    }
}

/// A ghost is marked dead exactly when its sheet shows the first frame again
/// after its death animation has begun; on every other frame it is kept. Its
/// animation counts as begun from the frame the sheet shows its second frame,
/// and nothing else about the ghost changes.
pub proof fn lemma_ghost_dies_when_its_sheet_loops(g: GhostState)
    ensures
        ghost_after(g).1 <==> (frame_shown(g.frame.0, g.sheet) == 0 && g.animating.0),
        ghost_after(g).0.animating.0 == (g.animating.0 || frame_shown(g.frame.0, g.sheet) == 1),
        ghost_after(g).0.entity == g.entity,
        ghost_after(g).0.frame == g.frame,
        ghost_after(g).0.sheet == g.sheet,
{
}

/// Once ghosts play their death animations, they have no reason to exist:
/// they are marked dead.
pub fn clear_ghosts(ghosts: &mut Vec<GhostState>, dead: &mut Dead)
    requires
        forall|i: int| 0 <= i < old(ghosts)@.len() ==> (#[trigger] old(ghosts)@[i]).sheet.wf(),
    ensures
        final(ghosts)@.len() == old(ghosts)@.len(),
        forall|i: int|
            0 <= i < old(ghosts)@.len() ==> #[trigger] final(ghosts)@[i] == ghost_after(
                old(ghosts)@[i],
            ).0,
        forall|e: EntityId|
            #[trigger] final(dead)@.contains(e) <==> old(dead)@.contains(e) || exists|i: int|
                0 <= i < old(ghosts)@.len() && ghost_after(#[trigger] old(ghosts)@[i]).1
                    && old(ghosts)@[i].entity == e,
        forall|e: EntityId|
            #[trigger] final(dead)@.contains(e) <==> old(dead)@.contains(e) || exists|i: int|
                0 <= i < old(ghosts)@.len() && frame_shown(
                    (#[trigger] old(ghosts)@[i]).frame.0,
                    old(ghosts)@[i].sheet,
                ) == 0 && old(ghosts)@[i].animating.0 && old(ghosts)@[i].entity == e,
        forall|i: int|
            0 <= i < old(ghosts)@.len() ==> {
                let g = #[trigger] old(ghosts)@[i];
                final(ghosts)@[i] == (GhostState {
                    animating: AnimatingDeath(g.animating.0 || frame_shown(g.frame.0, g.sheet) == 1),
                    ..g
                })
            },
{
    proof {
        assert forall|j: int| 0 <= j < old(ghosts)@.len() implies ghost_after(#[trigger] old(ghosts)@[j]).1 == (
        frame_shown(old(ghosts)@[j].frame.0, old(ghosts)@[j].sheet) == 0 && old(ghosts)@[j].animating.0) by {
            lemma_ghost_dies_when_its_sheet_loops(old(ghosts)@[j]);
        }
    }
    let mut i: usize = 0;
    while i < ghosts.len()
        invariant
            i <= ghosts.len(),
            ghosts@.len() == old(ghosts)@.len(),
            forall|j: int| i <= j < ghosts@.len() ==> #[trigger] ghosts@[j] == old(ghosts)@[j],
            forall|j: int|
                0 <= j < i ==> #[trigger] ghosts@[j] == ghost_after(old(ghosts)@[j]).0,
            forall|j: int| 0 <= j < old(ghosts)@.len() ==> (#[trigger] old(ghosts)@[j]).sheet.wf(),
            forall|e: EntityId|
                #[trigger] dead@.contains(e) <==> old(dead)@.contains(e) || exists|j: int|
                    0 <= j < i && ghost_after(#[trigger] old(ghosts)@[j]).1 && old(ghosts)@[j].entity
                        == e,
        decreases ghosts.len() - i,
    {
        let g = ghosts[i];
        let cf = g.frame.current_frame(g.sheet);
        if cf == 1 {
            ghosts.set(i, GhostState { animating: AnimatingDeath(true), ..g });
        } else if cf == 0 && g.animating.0 {
            dead.mark(g.entity);
        }
        proof {
            assert forall|e: EntityId| #[trigger] dead@.contains(e) <==> old(dead)@.contains(e)
                || exists|j: int|
                0 <= j < i + 1 && ghost_after(#[trigger] old(ghosts)@[j]).1 && old(ghosts)@[j].entity
                    == e by {
                if ghost_after(old(ghosts)@[i as int]).1 && g.entity == e {
                    assert(0 <= i < i + 1);
                }
            }
        }
        i += 1;
    }
}

} // verus!

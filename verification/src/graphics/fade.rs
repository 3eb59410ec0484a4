use crate::entity::EntityId;
use vstd::prelude::*;

verus! {

/// Removes something after a given amount of frames.
/// Optionally also begins fading the transparency to 0 after a certain amount of time.
#[derive(PartialEq, Eq, Structural, Clone, Copy, Debug)]
pub struct Fade {
    pub duration: usize,
    pub fade_start: usize,
}

impl Fade {
    pub fn no_visual(duration: usize) -> (f: Self)
        ensures
            f == (Fade { duration, fade_start: duration }),
    {
        Fade { duration, fade_start: duration }
    }
}

/// A transparency, as the fraction `left / over`.
#[derive(PartialEq, Eq, Structural, Clone, Copy, Debug)]
pub struct Transparency {
    pub left: usize,
    pub over: usize,
}

/// What one frame of fading does to an entity.
#[derive(PartialEq, Eq, Structural, Clone, Copy, Debug)]
pub struct FadeStep {
    pub entity: EntityId,
    /// Once fading has begun, the transparency to draw the entity with, as the
    /// frames left over the frames of fading.
    pub transparency: Option<Transparency>,
    /// Whether the entity's time is up and it is to be despawned.
    pub despawn: bool,
}

/// The fade after one more frame.
pub open spec fn faded(f: Fade) -> Fade {
    Fade { duration: (f.duration - 1) as usize, ..f }
}

/// What one frame does to the entity `e` fading as `f`.
pub open spec fn fade_step(e: EntityId, f: Fade) -> FadeStep {
    let next = faded(f);
    FadeStep {
        entity: e,
        transparency: if next.fade_start > next.duration {
            Some(Transparency { left: next.duration, over: next.fade_start })
        } else {
            None
        },
        despawn: next.duration == 0,
    }
}

/// Counts down one frame of every fading entity: each fade loses a frame,
/// starts fading the entity's transparency once fewer frames are left than
/// its fade start, and despawns the entity when no frame is left.
///
/// An entity whose fade has no frame left has been despawned already, so
/// each fade given has at least one frame left.
pub fn fade(fading: &mut Vec<(EntityId, Fade)>) -> (steps: Vec<FadeStep>)
    requires
        forall|i: int| 0 <= i < old(fading)@.len() ==> (#[trigger] old(fading)@[i]).1.duration > 0,
    ensures
        final(fading)@.len() == old(fading)@.len(),
        steps@.len() == old(fading)@.len(),
        forall|i: int|
            0 <= i < old(fading)@.len() ==> {
                let (e, f) = #[trigger] old(fading)@[i];
                &&& final(fading)@[i] == (e, faded(f))
                &&& steps@[i] == fade_step(e, f)
            },
{
    let mut steps: Vec<FadeStep> = Vec::new();
    let mut i: usize = 0;
    while i < fading.len()
        invariant
            i <= fading.len(),
            fading@.len() == old(fading)@.len(),
            steps@.len() == i,
            forall|j: int| i <= j < fading@.len() ==> #[trigger] fading@[j] == old(fading)@[j],
            forall|j: int|
                0 <= j < i ==> {
                    let (e, f) = #[trigger] old(fading)@[j];
                    &&& fading@[j] == (e, faded(f))
                    &&& steps@[j] == fade_step(e, f)
                },
            forall|j: int| 0 <= j < old(fading)@.len() ==> (#[trigger] old(fading)@[j]).1.duration > 0,
        decreases fading.len() - i,
    {
        let (entity, f) = fading[i];
        let duration = f.duration - 1;
        let next = Fade { duration, fade_start: f.fade_start };
        fading.set(i, (entity, next));
        let transparency = if next.fade_start > next.duration {
            Some(Transparency { left: next.duration, over: next.fade_start })
        } else {
            None
        };
        steps.push(FadeStep { entity, transparency, despawn: duration == 0 });
        i += 1;
    }
    steps
}

/// A fade despawns its entity exactly when its last frame runs out: after as
/// many frames as it had, and not before.
pub proof fn lemma_fade_despawns_when_time_is_up(e: EntityId, f: Fade)
    requires
        f.duration > 0,
    ensures
        fade_step(e, f).despawn == (f.duration == 1),
        faded(f).duration == f.duration - 1,
{
}

/// The fade after `frames` more frames.
pub open spec fn faded_for(f: Fade, frames: nat) -> Fade
    decreases frames,
{
    if frames == 0 {
        f
    } else {
        faded(faded_for(f, (frames - 1) as nat))
    }
}

/// Counting frame by frame, a fade despawns its entity on its last frame and
/// on no frame before: on frame `k` (from zero) exactly when `k` is one less
/// than its duration.
pub proof fn lemma_fade_lasts_its_duration(e: EntityId, f: Fade, k: nat)
    requires
        k < f.duration,
    ensures
        faded_for(f, k).duration == f.duration - k,
        fade_step(e, faded_for(f, k)).despawn == (k == f.duration - 1),
    decreases k,
{
    if k > 0 {
        lemma_fade_lasts_its_duration(e, f, (k - 1) as nat);
    }
}

} // verus!

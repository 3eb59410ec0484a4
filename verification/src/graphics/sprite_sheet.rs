use vstd::prelude::*;

verus! {

/// Keeps track of when to change an image's sprite sheet index.
///
/// Times are counted in nanoseconds.
pub struct Animation {
    timer: Option<u128>,
    frame: usize,
}

/// What an animation's timer, frame, and the sprite sheet index to show
/// become once `elapsed` more time has passed, given the durations of the
/// sheet's frames: a timer that runs out moves on to the next frame (back to
/// the first after the last) and starts that frame's duration.
pub open spec fn advanced(
    timer: Option<u128>,
    frame: usize,
    frame_durations: Seq<u128>,
    elapsed: u128,
) -> (Option<u128>, usize, Option<usize>) {
    let left = match timer {
        Some(t) => if t >= elapsed {
            Some((t - elapsed) as u128)
        } else {
            None
        },
        None => None,
    };
    if left is None {
        let next = if frame + 1 >= frame_durations.len() {
            0
        } else {
            frame + 1
        };
        (Some(frame_durations[next]), next as usize, Some(next as usize))
    } else {
        (left, frame, None)
    }
}

/// A frame change always lands on a frame of the sheet, and moving on from
/// the last frame starts the sheet over.
pub proof fn lemma_advance_stays_on_sheet(
    timer: Option<u128>,
    frame: usize,
    frame_durations: Seq<u128>,
    elapsed: u128,
)
    requires
        frame_durations.len() > 0,
        frame < usize::MAX,
    ensures
        advanced(timer, frame, frame_durations, elapsed).2 matches Some(i) ==> i
            < frame_durations.len() && advanced(timer, frame, frame_durations, elapsed).1 == i,
        timer is None && frame + 1 >= frame_durations.len() ==> advanced(
            timer,
            frame,
            frame_durations,
            elapsed,
        ).2 == Some(0usize),
{
}

impl Animation {
    #[verifier::type_invariant]
    closed spec fn wf(self) -> bool {
        self.frame < usize::MAX
    }

    /// The time left on the current frame, if it has started.
    pub closed spec fn timer(self) -> Option<u128> {
        self.timer
    }

    /// The frame of the sprite sheet being shown.
    pub closed spec fn frame(self) -> usize {
        self.frame
    }

    /// Whether moving on from this animation's current frame is safe: either
    /// its timer does not run out, or the sheet has frames to move on to.
    pub open spec fn can_advance(self, frame_durations: Seq<u128>, elapsed: u128) -> bool {
        frame_durations.len() > 0 || (self.timer() matches Some(t) && t >= elapsed)
    }

    pub fn new() -> (a: Self)
        ensures
            a.timer() is None,
            a.frame() == 0,
    {
        Animation { timer: None, frame: 0 }
    }

    /// Lets `elapsed` time pass; returns the sprite sheet index to show when
    /// the frame changes.
    pub fn advance(&mut self, frame_durations: &Vec<u128>, elapsed: u128) -> (index: Option<usize>)
        requires
            old(self).can_advance(frame_durations@, elapsed),
        ensures
            (final(self).timer(), final(self).frame(), index) == advanced(
                old(self).timer(),
                old(self).frame(),
                frame_durations@,
                elapsed,
            ),
    {
        proof {
            use_type_invariant(&*self);
        }
        let left = match self.timer {
            Some(t) => t.checked_sub(elapsed),
            None => None,
        };
        if left.is_none() {
            let next = if self.frame + 1 >= frame_durations.len() {
                0
            } else {
                self.frame + 1
            };
            *self = Animation { timer: Some(frame_durations[next]), frame: next };
            Some(next)
        } else {
            *self = Animation { timer: left, frame: self.frame };
            None
        }
    }
}

impl Default for Animation {
    fn default() -> (a: Self)
        ensures
            a.timer() is None,
            a.frame() == 0,
    {
        Animation::new()
    }
}

/// A sprite sheet animation could not be run for an entity with this appearance.
#[derive(PartialEq, Eq, Debug)]
pub enum Error {
    /// No sprite sheet configuration entry was found for the appearance.
    NoEntry(String),
    /// The sprite sheet entry for the appearance has no frame durations.
    NoFrameMillisField(String),
}

/// An animated entity: the name of its appearance, what the sprite sheet
/// configuration holds for that appearance (no entry, an entry without frame
/// durations, or the durations of its frames), its animation, and the sprite
/// sheet index it shows.
pub struct Animated {
    pub appearance_name: String,
    pub sheet: Option<Option<Vec<u128>>>,
    pub animation: Animation,
    pub index: usize,
}

/// Whether the sprite sheet configuration has frame durations for an entity.
pub open spec fn has_frames(a: &Animated) -> bool {
    a.sheet matches Some(Some(_))
}

/// Whether animating an entity is safe: without frame durations it is an
/// error; with them, the animation must be able to move on.
pub open spec fn can_animate(a: &Animated, elapsed: u128) -> bool {
    a.sheet matches Some(Some(v)) ==> a.animation.can_advance(v@, elapsed)
}

/// The animation and index an entity with frame durations ends up with.
pub open spec fn animated_to(a: &Animated, b: &Animated, elapsed: u128) -> bool {
    let v = a.sheet->0->0;
    let (timer, frame, index) = advanced(a.animation.timer(), a.animation.frame(), v@, elapsed);
    &&& b.appearance_name == a.appearance_name
    &&& b.sheet == a.sheet
    &&& b.animation.timer() == timer
    &&& b.animation.frame() == frame
    &&& b.index == match index {
        Some(i) => i,
        None => a.index,
    }
}

/// Animates every entity in turn, stopping at the first whose appearance has
/// no frame durations configured, and reporting it.
pub fn animate(animated: &mut Vec<Animated>, elapsed: u128) -> (r: Result<(), Error>)
    requires
        forall|i: int|
            0 <= i < old(animated)@.len() && (forall|j: int|
                0 <= j < i ==> has_frames(#[trigger] &old(animated)@[j])) ==> can_animate(
                &old(animated)@[i],
                elapsed,
            ),
    ensures
        final(animated)@.len() == old(animated)@.len(),
        match r {
            Ok(()) => forall|i: int|
                0 <= i < old(animated)@.len() ==> {
                    &&& has_frames(#[trigger] &old(animated)@[i])
                    &&& animated_to(&old(animated)@[i], &final(animated)@[i], elapsed)
                },
            Err(e) => exists|k: int|
                {
                    &&& 0 <= k < old(animated)@.len()
                    &&& !has_frames(#[trigger] &old(animated)@[k])
                    &&& e == match old(animated)@[k].sheet {
                        None => Error::NoEntry(old(animated)@[k].appearance_name),
                        Some(_) => Error::NoFrameMillisField(old(animated)@[k].appearance_name),
                    }
                    &&& forall|i: int|
                        0 <= i < k ==> {
                            &&& has_frames(#[trigger] &old(animated)@[i])
                            &&& animated_to(&old(animated)@[i], &final(animated)@[i], elapsed)
                        }
                    &&& forall|i: int| k <= i < old(animated)@.len() ==> #[trigger] final(animated)@[i]
                        == old(animated)@[i]
                },
        },
{
    let mut i: usize = 0;
    while i < animated.len()
        invariant
            i <= animated.len(),
            animated@.len() == old(animated)@.len(),
            forall|j: int| i <= j < animated@.len() ==> #[trigger] animated@[j] == old(animated)@[j],
            forall|j: int|
                0 <= j < i ==> {
                    &&& has_frames(#[trigger] &old(animated)@[j])
                    &&& animated_to(&old(animated)@[j], &animated@[j], elapsed)
                },
            forall|i: int|
                0 <= i < old(animated)@.len() && (forall|j: int|
                    0 <= j < i ==> has_frames(#[trigger] &old(animated)@[j])) ==> can_animate(
                    &old(animated)@[i],
                    elapsed,
                ),
        decreases animated.len() - i,
    {
        let missing: Option<Error> = match &animated[i].sheet {
            None => Some(Error::NoEntry(animated[i].appearance_name.clone())),
            Some(None) => Some(Error::NoFrameMillisField(animated[i].appearance_name.clone())),
            Some(Some(_)) => None,
        };
        if let Some(e) = missing {
            return Err(e);
        }
        assert(can_animate(&old(animated)@[i as int], elapsed));
        let entity = &mut animated[i];
        match &entity.sheet {
            Some(Some(frame_durations)) => {
                if let Some(index) = entity.animation.advance(frame_durations, elapsed) {
                    entity.index = index;
                }
            },
            _ => {},
        }
        i += 1;
    }
    Ok(())
}

} // verus!

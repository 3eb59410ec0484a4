use crate::draw::Spritesheet;
use crate::world::player::PlayerState;
use vstd::prelude::*;

verus! {

/// Where in the cycle of reloading, readying and throwing the player is.
#[derive(PartialEq, Eq, Structural, Clone, Copy, Debug)]
pub enum WielderState {
    /// Sit and think about how you just wasted that last weapon.
    Reloading { timer: u16 },
    /// Start holding down the mouse button to begin readying
    Loaded,
    /// If you keep holding down the mouse button you'll be able to shoot,
    /// if you let go you'll go back to Loaded.
    Readying { timer: u16 },
    /// Let go to fire!
    Readied,
    /// Lasts exactly one frame.
    /// During this frame, the projectile is launched.
    Shooting,
}

/// No timer is at the largest `u16`, so each can count one more frame.
pub open spec fn timers_in_range(state: WielderState) -> bool {
    match state {
        WielderState::Reloading { timer } => timer < u16::MAX,
        WielderState::Readying { timer } => timer < u16::MAX,
        _ => true,
    }
}

/// The state that follows `state` after one frame, given whether the mouse
/// button is held, the weapon's reload time and the length of the readying
/// animation.
pub open spec fn next_state(
    state: WielderState,
    mouse_down: bool,
    reload_time: u16,
    readying_animation_length: u16,
) -> WielderState {
    match state {
        WielderState::Reloading { timer } => {
            if timer + 1 >= reload_time {
                WielderState::Loaded
            } else {
                WielderState::Reloading { timer: (timer + 1) as u16 }
            }
        },
        WielderState::Loaded => {
            if mouse_down {
                WielderState::Readying { timer: 0 }
            } else {
                WielderState::Loaded
            }
        },
        WielderState::Readying { timer } => {
            if !mouse_down {
                WielderState::Loaded
            } else if timer + 1 >= readying_animation_length {
                WielderState::Readied
            } else {
                WielderState::Readying { timer: (timer + 1) as u16 }
            }
        },
        WielderState::Readied => {
            if !mouse_down {
                WielderState::Shooting
            } else {
                WielderState::Readied
            }
        },
        WielderState::Shooting => WielderState::Reloading { timer: 0 },
    }
}

/// The frame of the throwing animation that a state shows, if it is one of
/// the states in which the throw controls the player's looks.
pub open spec fn throwing_frame_of(state: WielderState, readying_animation_length: u16) -> Option<u16> {
    match state {
        WielderState::Readying { timer } => Some(timer),
        WielderState::Readied => Some(readying_animation_length),
        _ => None,
    }
}

/// The player's hold on their weapon.
pub struct Wielder {
    state: WielderState,
}

impl Wielder {
    #[verifier::type_invariant]
    closed spec fn wf(self) -> bool {
        timers_in_range(self.state)
    }

    /// The state this wielder is in.
    pub closed spec fn current(self) -> WielderState {
        self.state
    }

    pub fn new() -> (w: Self)
        ensures
            w.current() == WielderState::Loaded,
    {
        Self { state: WielderState::Loaded }
    }

    /// The state this wielder is in.
    pub fn state(&self) -> (s: WielderState)
        ensures
            s == self.current(),
            timers_in_range(s),
    {
        proof {
            use_type_invariant(self);
        }
        self.state
    }

    /// Moves timers forward, changes state when necessary
    pub fn advance_state(&mut self, mouse_down: bool, reload_time: u16, readying_animation_length: u16)
        ensures
            final(self).current() == next_state(
                old(self).current(),
                mouse_down,
                reload_time,
                readying_animation_length,
            ),
            old(self).current() matches WielderState::Reloading { timer } ==> if timer + 1
                < reload_time {
                final(self).current() == (WielderState::Reloading { timer: (timer + 1) as u16 })
            } else {
                final(self).current() == WielderState::Loaded
            },
    {
        proof {
            use_type_invariant(&*self);
        }
        self.state = match self.state {
            WielderState::Reloading { timer } => {
                let timer = timer + 1;
                if timer >= reload_time {
                    WielderState::Loaded
                } else {
                    WielderState::Reloading { timer }
                }
            },
            WielderState::Loaded => {
                if mouse_down {
                    WielderState::Readying { timer: 0 }
                } else {
                    WielderState::Loaded
                }
            },
            WielderState::Readying { timer } => {
                let timer = timer + 1;
                if !mouse_down {
                    WielderState::Loaded
                } else if timer >= readying_animation_length {
                    WielderState::Readied
                } else {
                    WielderState::Readying { timer }
                }
            },
            WielderState::Readied => {
                if !mouse_down {
                    WielderState::Shooting
                } else {
                    WielderState::Readied
                }
            },
            WielderState::Shooting => WielderState::Reloading { timer: 0 },
        };
    }

    pub fn shooting(&self) -> (b: bool)
        ensures
            b == (self.current() == WielderState::Shooting),
    {
        match self.state {
            WielderState::Shooting => true,
            _ => false,
        }
    }

    /// While readying or readied, the throw controls how the player looks:
    /// this is the frame of the throwing animation to show, or `None` when
    /// walking is in control.
    pub fn throwing_frame(&self, readying_animation_length: u16) -> (f: Option<u16>)
        ensures
            f == throwing_frame_of(self.current(), readying_animation_length),
    {
        match self.state {
            WielderState::Readying { timer } => Some(timer),
            WielderState::Readied => Some(readying_animation_length),
            _ => None,
        }
    }
}

/// Every state the player's wielder can reach keeps its timers in range.
pub proof fn lemma_next_state_keeps_timers_in_range(
    state: WielderState,
    mouse_down: bool,
    reload_time: u16,
    readying_animation_length: u16,
)
    requires
        timers_in_range(state),
    ensures
        timers_in_range(next_state(state, mouse_down, reload_time, readying_animation_length)),
{
}

/// Shooting lasts exactly one frame and is followed by reloading from the start.
pub proof fn lemma_shooting_lasts_one_frame(
    mouse_down: bool,
    reload_time: u16,
    readying_animation_length: u16,
)
    ensures
        next_state(WielderState::Shooting, mouse_down, reload_time, readying_animation_length)
            == (WielderState::Reloading { timer: 0 }),
{
}

/// Reloading counts one frame at a time whatever the mouse does, and ends in
/// Loaded on the frame its count reaches the reload time.
pub proof fn lemma_reloading_ignores_the_mouse(timer: u16, reload_time: u16, readying_animation_length: u16)
    ensures
        next_state(WielderState::Reloading { timer }, true, reload_time, readying_animation_length)
            == next_state(WielderState::Reloading { timer }, false, reload_time, readying_animation_length),
        timer + 1 < reload_time ==> next_state(
            WielderState::Reloading { timer },
            true,
            reload_time,
            readying_animation_length,
        ) == (WielderState::Reloading { timer: (timer + 1) as u16 }),
        timer + 1 >= reload_time ==> next_state(
            WielderState::Reloading { timer },
            true,
            reload_time,
            readying_animation_length,
        ) == WielderState::Loaded,
{
}

/// After a throw, the player cannot throw again before the reload time has
/// passed: for each of the `reload_time` frames after Shooting, holding the
/// mouse or not, the player is still reloading, and then is loaded.
pub proof fn lemma_reload_lasts_reload_time(
    timer: u16,
    mouse: Seq<bool>,
    reload_time: u16,
    readying_animation_length: u16,
)
    requires
        timer < reload_time,
        mouse.len() == reload_time - timer,
    ensures
        forall|k: int|
            0 <= k < mouse.len() - 1 ==> (#[trigger] play(
                WielderState::Reloading { timer },
                mouse.take(k + 1),
                reload_time,
                readying_animation_length,
            )) == (WielderState::Reloading { timer: (timer + k + 1) as u16 }),
        play(WielderState::Reloading { timer }, mouse, reload_time, readying_animation_length)
            == WielderState::Loaded,
    decreases mouse.len(),
{
    let first = next_state(WielderState::Reloading { timer }, mouse[0], reload_time, readying_animation_length);
    if timer + 1 < reload_time {
        let rest = mouse.drop_first();
        lemma_reload_lasts_reload_time((timer + 1) as u16, rest, reload_time, readying_animation_length);
        assert forall|k: int| 0 <= k < mouse.len() - 1 implies (#[trigger] play(
            WielderState::Reloading { timer },
            mouse.take(k + 1),
            reload_time,
            readying_animation_length,
        )) == (WielderState::Reloading { timer: (timer + k + 1) as u16 }) by {
            assert(mouse.take(k + 1).drop_first() =~= rest.take(k));
            if k > 0 {
                assert(play(first, rest.take(k), reload_time, readying_animation_length) == play(
                    WielderState::Reloading { timer: (timer + 1) as u16 },
                    rest.take((k - 1) + 1),
                    reload_time,
                    readying_animation_length,
                ));
            } else {
                assert(play(first, rest.take(0), reload_time, readying_animation_length) == first);
            }
        }
        assert(mouse.drop_first() == rest);
    } else {
        assert(mouse.drop_first().len() == 0);
        assert(play(first, mouse.drop_first(), reload_time, readying_animation_length) == first);
    }
}

/// The state reached from `state` after one frame per entry of `mouse`, each
/// saying whether the mouse button is held that frame.
pub open spec fn play(
    state: WielderState,
    mouse: Seq<bool>,
    reload_time: u16,
    readying_animation_length: u16,
) -> WielderState
    decreases mouse.len(),
{
    if mouse.len() == 0 {
        state
    } else {
        play(
            next_state(state, mouse[0], reload_time, readying_animation_length),
            mouse.drop_first(),
            reload_time,
            readying_animation_length,
        )
    }
}

/// Once readied, the weapon stays readied while the mouse is held, and letting
/// go fires it on that very frame.
pub proof fn lemma_readied_fires_on_release(reload_time: u16, readying_animation_length: u16)
    ensures
        next_state(WielderState::Readied, true, reload_time, readying_animation_length) == WielderState::Readied,
        next_state(WielderState::Readied, false, reload_time, readying_animation_length) == WielderState::Shooting,
{
}

/// A throw only happens by letting go of the mouse button while readied.
pub proof fn lemma_shooting_needs_release_when_readied(
    state: WielderState,
    mouse_down: bool,
    reload_time: u16,
    readying_animation_length: u16,
)
    requires
        next_state(state, mouse_down, reload_time, readying_animation_length)
            == WielderState::Shooting,
    ensures
        state == WielderState::Readied,
        !mouse_down,
{
}

/// The throwing animation never shows a frame past its end while readying:
/// a readying state reached from another state shows a frame below the
/// animation's length.
pub proof fn lemma_readying_frame_below_length(
    state: WielderState,
    mouse_down: bool,
    reload_time: u16,
    readying_animation_length: u16,
    timer: u16,
)
    requires
        next_state(state, mouse_down, reload_time, readying_animation_length)
            == (WielderState::Readying { timer }),
        readying_animation_length > 0,
    ensures
        timer < readying_animation_length,
{
}

/// How many frames readying a throw lasts: two less than the frames the
/// throwing art's sprite sheet plays (counted in a `u16`), or ten when the
/// art has no sprite sheet.
pub open spec fn readying_length_of(sheet: Option<Spritesheet>) -> u16 {
    match sheet {
        Some(ss) => (((ss.total * ss.frame_rate) as u16) - 2) as u16,
        None => 10,
    }
}

/// The length of the readying animation, from the sprite sheet of the
/// throwing art.
///
/// A sheet whose frames do not fit in a `usize`, or that counts fewer than two
/// frames in a `u16`, is refused by `requires`.
pub fn readying_animation_length(sheet: Option<Spritesheet>) -> (n: u16)
    requires
        sheet matches Some(ss) ==> ss.total * ss.frame_rate <= usize::MAX && (ss.total
            * ss.frame_rate) as u16 >= 2,
    ensures
        n == readying_length_of(sheet),
{
    match sheet {
        Some(ss) => {
            let frames = ss.total * ss.frame_rate;
            (frames as u16) - 2
        },
        None => 10,
    }
}

/// How a throw controls the player's looks for a frame.
#[derive(PartialEq, Eq, Structural, Clone, Copy, Debug)]
pub struct ThrowLooks {
    /// The frame of the throwing animation to show.
    pub frame: u16,
    /// Who controls the looks afterwards.
    pub state: PlayerState,
    /// Whether the walk animation is to face sideways again.
    pub face_side: bool,
}

impl Wielder {
    /// While readying or readied, the throw controls the player's looks;
    /// letting go of the mouse gives control back to walking, facing sideways.
    pub fn throw_looks(&self, readying_animation_length: u16, mouse_down: bool) -> (l: Option<ThrowLooks>)
        ensures
            l == match throwing_frame_of(self.current(), readying_animation_length) {
                Some(f) => Some(
                    ThrowLooks {
                        frame: f,
                        state: if mouse_down {
                            PlayerState::Throwing
                        } else {
                            PlayerState::Walking
                        },
                        face_side: !mouse_down,
                    },
                ),
                None => None,
            },
    {
        match self.throwing_frame(readying_animation_length) {
            Some(frame) => Some(
                ThrowLooks {
                    frame,
                    state: if mouse_down {
                        PlayerState::Throwing
                    } else {
                        PlayerState::Walking
                    },
                    face_side: !mouse_down,
                },
            ),
            None => None,
        }
    }

    /// Whether the player still holds the weapon after this frame: a thrown
    /// weapon leaves the hand unless it comes back like a boomerang.
    pub fn keeps_weapon(&self, boomerang: bool) -> (b: bool)
        ensures
            b == (self.current() != WielderState::Shooting || boomerang),
    {
        !self.shooting() || boomerang
    }
}

} // verus!

use vstd::prelude::*;

verus! {

/// The length of the Summoning State,
/// i.e. how long it takes for another weapon
/// to pop out of thin air and into the player's hand
pub const SUMMONING_TIME: u16 = 25;

/// Where in the cycle of summoning, reloading, readying and shooting
/// a weapon's wielder is.
#[derive(PartialEq, Eq, Structural, Clone, Copy, Debug)]
pub enum WielderState {
    /// That awkward phase between Shooting and
    /// the beginning of Reloading, when a new
    /// weapon is being whipped out of thin air.
    Summoning { timer: u16 },
    /// Watch an animation and think about how you just
    /// wasted that last spear.
    Reloading { timer: u16 },
    /// Start holding down the mouse button to begin readying
    Loaded,
    /// If you keep holding down the mouse button you'll be able to shoot,
    /// if you let go you'll go back to Loaded.
    Readying { timer: u16 },
    /// Let go to fire!
    Readied,
    /// Lasts exactly one frame.
    /// During this frame, the projectile is launched.
    Shooting,
}

/// The timings of a weapon that drive its wielder's state.
#[derive(PartialEq, Eq, Structural, Clone, Copy, Debug)]
pub struct WeaponTiming {
    /// How many frames reloading takes.
    pub equip_time: u16,
    /// How many frames the mouse must be held before the weapon is readied.
    pub readying_time: u16,
}

/// The timers that a state can hold: a summoning timer is below the summoning
/// time, and no timer is at the largest `u16`, so each can count one more frame.
pub open spec fn timers_in_range(state: WielderState) -> bool {
    match state {
        WielderState::Summoning { timer } => timer < SUMMONING_TIME,
        WielderState::Reloading { timer } => timer < u16::MAX,
        WielderState::Readying { timer } => timer < u16::MAX,
        _ => true,
    }
}

/// The state that follows `state` after one frame, given whether the mouse
/// button is held down and the timings of the wielded weapon.
pub open spec fn next_state(state: WielderState, mouse_down: bool, weapon: WeaponTiming) -> WielderState {
    match state {
        WielderState::Summoning { timer } => {
            if timer + 1 >= SUMMONING_TIME {
                WielderState::Reloading { timer: 0 }
            } else {
                WielderState::Summoning { timer: (timer + 1) as u16 }
            }
        },
        WielderState::Reloading { timer } => {
            if timer + 1 >= weapon.equip_time {
                WielderState::Loaded
            } else {
                WielderState::Reloading { timer: (timer + 1) as u16 }
            }
        },
        WielderState::Loaded => {
            if mouse_down {
                WielderState::Readying { timer: 0 }
            } else {
                WielderState::Loaded
            }
        },
        WielderState::Readying { timer } => {
            if !mouse_down {
                WielderState::Loaded
            } else if timer + 1 >= weapon.readying_time {
                WielderState::Readied
            } else {
                WielderState::Readying { timer: (timer + 1) as u16 }
            }
        },
        WielderState::Readied => {
            if !mouse_down {
                WielderState::Shooting
            } else {
                WielderState::Readied
            }
        },
        WielderState::Shooting => WielderState::Summoning { timer: 0 },
    }
}

/// Someone holding a weapon, moving through the cycle of firing it.
pub struct Wielder {
    state: WielderState,
}

impl Wielder {
    #[verifier::type_invariant]
    closed spec fn wf(self) -> bool {
        timers_in_range(self.state)
    }

    /// The state this wielder is in.
    pub closed spec fn current(self) -> WielderState {
        self.state
    }

    pub fn new() -> (w: Self)
        ensures
            w.current() == WielderState::Loaded,
    {
        Self { state: WielderState::Loaded }
    }

    /// The state this wielder is in.
    pub fn state(&self) -> (s: WielderState)
        ensures
            s == self.current(),
            timers_in_range(s),
    {
        proof {
            use_type_invariant(self);
        }
        self.state
    }

    /// Moves timers forward
    pub fn advance_state(&mut self, mouse_down: bool, weapon: &WeaponTiming)
        ensures
            final(self).current() == next_state(old(self).current(), mouse_down, *weapon),
            old(self).current() matches WielderState::Reloading { timer } ==> if timer + 1
                < weapon.equip_time {
                final(self).current() == (WielderState::Reloading { timer: (timer + 1) as u16 })
            } else {
                final(self).current() == WielderState::Loaded
            },
    {
        proof {
            use_type_invariant(&*self);
        }
        self.state = match self.state {
            WielderState::Summoning { timer } => {
                let timer = timer + 1;
                if timer >= SUMMONING_TIME {
                    WielderState::Reloading { timer: 0 }
                } else {
                    WielderState::Summoning { timer }
                }
            },
            WielderState::Reloading { timer } => {
                let timer = timer + 1;
                if timer >= weapon.equip_time {
                    WielderState::Loaded
                } else {
                    WielderState::Reloading { timer }
                }
            },
            WielderState::Loaded => {
                if mouse_down {
                    WielderState::Readying { timer: 0 }
                } else {
                    WielderState::Loaded
                }
            },
            WielderState::Readying { timer } => {
                let timer = timer + 1;
                if !mouse_down {
                    WielderState::Loaded
                } else if timer >= weapon.readying_time {
                    WielderState::Readied
                } else {
                    WielderState::Readying { timer }
                }
            },
            WielderState::Readied => {
                if !mouse_down {
                    WielderState::Shooting
                } else {
                    WielderState::Readied
                }
            },
            WielderState::Shooting => WielderState::Summoning { timer: 0 },
        };
    }

    pub fn shooting(&self) -> (b: bool)
        ensures
            b == (self.current() == WielderState::Shooting),
    {
        match self.state {
            WielderState::Shooting => true,
            _ => false,
        }
    }
}

/// Every state a wielder can reach keeps its timers in range, so a timer can
/// always count one more frame.
pub proof fn lemma_next_state_keeps_timers_in_range(
    state: WielderState,
    mouse_down: bool,
    weapon: WeaponTiming,
)
    requires
        timers_in_range(state),
    ensures
        timers_in_range(next_state(state, mouse_down, weapon)),
{
}

/// Shooting lasts exactly one frame, whatever the mouse does: the next frame
/// starts summoning a new weapon.
pub proof fn lemma_shooting_lasts_one_frame(mouse_down: bool, weapon: WeaponTiming)
    ensures
        next_state(WielderState::Shooting, mouse_down, weapon) == (WielderState::Summoning {
            timer: 0,
        }),
{
}

/// Once readied, the weapon stays readied while the mouse is held, and letting
/// go fires it on that very frame.
pub proof fn lemma_readied_fires_on_release(weapon: WeaponTiming)
    ensures
        next_state(WielderState::Readied, true, weapon) == WielderState::Readied,
        next_state(WielderState::Readied, false, weapon) == WielderState::Shooting,
{
}

/// A shot is only fired by letting go of the mouse button while readied.
pub proof fn lemma_shooting_needs_release_when_readied(
    state: WielderState,
    mouse_down: bool,
    weapon: WeaponTiming,
)
    requires
        next_state(state, mouse_down, weapon) == WielderState::Shooting,
    ensures
        state == WielderState::Readied,
        !mouse_down,
{
}

/// Letting go of the mouse button while readying goes back to Loaded, and
/// holding it down while Loaded begins readying.
pub proof fn lemma_readying_follows_the_mouse(timer: u16, weapon: WeaponTiming)
    ensures
        next_state(WielderState::Readying { timer }, false, weapon) == WielderState::Loaded,
        next_state(WielderState::Loaded, true, weapon) == (WielderState::Readying { timer: 0 }),
        next_state(WielderState::Loaded, false, weapon) == WielderState::Loaded,
{
}

/// The state reached from `state` after `frames` frames in which the mouse
/// button stays as `mouse_down` says.
pub open spec fn run(state: WielderState, mouse_down: bool, weapon: WeaponTiming, frames: nat) -> WielderState
    decreases frames,
{
    if frames == 0 {
        state
    } else {
        run(next_state(state, mouse_down, weapon), mouse_down, weapon, (frames - 1) as nat)
    }
}

/// After shooting, a new weapon is in hand after exactly `SUMMONING_TIME`
/// summoning frames, whatever the mouse does.
pub proof fn lemma_summoning_duration(timer: u16, mouse_down: bool, weapon: WeaponTiming)
    requires
        timer < SUMMONING_TIME,
    ensures
        run(WielderState::Summoning { timer }, mouse_down, weapon, (SUMMONING_TIME - timer) as nat)
            == (WielderState::Reloading { timer: 0 }),
        forall|k: nat|
            k < SUMMONING_TIME - timer ==> (#[trigger] run(
                WielderState::Summoning { timer },
                mouse_down,
                weapon,
                k,
            )) is Summoning,
    decreases SUMMONING_TIME - timer,
{
    if timer + 1 < SUMMONING_TIME {
        lemma_summoning_duration((timer + 1) as u16, mouse_down, weapon);
        assert forall|k: nat| k < SUMMONING_TIME - timer implies (#[trigger] run(
            WielderState::Summoning { timer },
            mouse_down,
            weapon,
            k,
        )) is Summoning by {
            if k > 0 {
                assert(run(WielderState::Summoning { timer }, mouse_down, weapon, k) == run(
                    WielderState::Summoning { timer: (timer + 1) as u16 },
                    mouse_down,
                    weapon,
                    (k - 1) as nat,
                ));
            }
        }
    } else {
        assert(run(WielderState::Reloading { timer: 0 }, mouse_down, weapon, 0) == (
        WielderState::Reloading { timer: 0 }));
    }
}

/// Reloading counts one frame at a time whatever the mouse does, and ends in
/// Loaded on the frame its count reaches the weapon's equip time.
pub proof fn lemma_reloading_ignores_the_mouse(timer: u16, weapon: WeaponTiming)
    ensures
        next_state(WielderState::Reloading { timer }, true, weapon) == next_state(
            WielderState::Reloading { timer },
            false,
            weapon,
        ),
        timer + 1 < weapon.equip_time ==> next_state(WielderState::Reloading { timer }, true, weapon)
            == (WielderState::Reloading { timer: (timer + 1) as u16 }),
        timer + 1 >= weapon.equip_time ==> next_state(WielderState::Reloading { timer }, true, weapon)
            == WielderState::Loaded,
{
}

/// A reload begun at zero lasts exactly the weapon's equip time: for every
/// earlier frame the wielder is still reloading, whatever the mouse does, and
/// then the weapon is loaded.
pub proof fn lemma_reloading_duration(timer: u16, mouse_down: bool, weapon: WeaponTiming)
    requires
        timer < weapon.equip_time,
    ensures
        run(WielderState::Reloading { timer }, mouse_down, weapon, (weapon.equip_time - timer) as nat)
            == WielderState::Loaded,
        forall|k: nat|
            k < weapon.equip_time - timer ==> (#[trigger] run(
                WielderState::Reloading { timer },
                mouse_down,
                weapon,
                k,
            )) == (WielderState::Reloading { timer: (timer + k) as u16 }),
    decreases weapon.equip_time - timer,
{
    if timer + 1 < weapon.equip_time {
        lemma_reloading_duration((timer + 1) as u16, mouse_down, weapon);
        assert forall|k: nat| k < weapon.equip_time - timer implies (#[trigger] run(
            WielderState::Reloading { timer },
            mouse_down,
            weapon,
            k,
        )) == (WielderState::Reloading { timer: (timer + k) as u16 }) by {
            if k > 0 {
                assert(run(WielderState::Reloading { timer }, mouse_down, weapon, k) == run(
                    WielderState::Reloading { timer: (timer + 1) as u16 },
                    mouse_down,
                    weapon,
                    (k - 1) as nat,
                ));
            }
        }
    } else {
        assert(run(WielderState::Loaded, mouse_down, weapon, 0) == WielderState::Loaded);
        assert forall|k: nat| k < weapon.equip_time - timer implies (#[trigger] run(
            WielderState::Reloading { timer },
            mouse_down,
            weapon,
            k,
        )) == (WielderState::Reloading { timer: (timer + k) as u16 }) by {
            assert(k == 0);
        }
    }
}

/// Holding the mouse button down while readying readies the weapon once the
/// weapon's readying time has passed.
pub proof fn lemma_holding_readies(timer: u16, weapon: WeaponTiming)
    requires
        timer < weapon.readying_time,
    ensures
        run(WielderState::Readying { timer }, true, weapon, (weapon.readying_time - timer) as nat)
            == WielderState::Readied,
    decreases weapon.readying_time - timer,
{
    if timer + 1 < weapon.readying_time {
        lemma_holding_readies((timer + 1) as u16, weapon);
    } else {
        assert(run(WielderState::Readied, true, weapon, 0) == WielderState::Readied);
    }
}

impl Wielder {
    /// Whether the weapon is to be made harmless again for carrying: on the
    /// first frame of reloading.
    pub fn rearms(&self) -> (b: bool)
        ensures
            b == (self.current() == WielderState::Reloading { timer: 0 }),
    {
        match self.state {
            WielderState::Reloading { timer } => timer == 0,
            _ => false,
        }
    }

    /// Whether the wielder still holds the weapon after this frame: a thrown
    /// weapon leaves the hand unless it comes back like a boomerang.
    pub fn keeps_weapon(&self, boomerang: bool) -> (b: bool)
        ensures
            b == (self.current() != WielderState::Shooting || boomerang),
    {
        !self.shooting() || boomerang
    }
}

} // verus!

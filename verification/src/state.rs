use vstd::prelude::*;

verus! {

/// The two modes the game alternates between.
#[allow(non_camel_case_types)]
#[derive(PartialEq, Eq, Structural, Clone, Copy, Debug)]
pub enum GameState {
    FARMING,
    COMBAT,
}

/// Which mode the game is in, and whether that mode still has to be set up
/// (its `enter` step run) before its next update.
#[derive(PartialEq, Eq, Structural, Clone, Copy, Debug)]
pub struct StateFlow {
    pub state: GameState,
    pub entered: bool,
}

/// The mode to set up at the start of an update of `f`, if any.
pub open spec fn entering(f: StateFlow) -> Option<GameState> {
    if f.entered {
        Some(f.state)
    } else {
        None
    }
}

/// `f` once the start of an update has set up whatever needed it.
pub open spec fn after_entering(f: StateFlow) -> StateFlow {
    StateFlow { state: f.state, entered: false }
}

/// The mode to tear down at the end of an update of `f` that asked to move to
/// `next`, if any.
pub open spec fn leaving(f: StateFlow, next: Option<GameState>) -> Option<GameState> {
    match next {
        Some(_) => Some(f.state),
        None => None,
    }
}

/// `f` once the end of an update has moved to `next`, if it asked to.
pub open spec fn after_transition(f: StateFlow, next: Option<GameState>) -> StateFlow {
    match next {
        Some(s) => StateFlow { state: s, entered: true },
        None => f,
    }
}

impl StateFlow {
    /// The game starts out farming, with the farm not set up yet.
    pub fn new() -> (f: Self)
        ensures
            f.state == GameState::FARMING,
            f.entered,
    {
        StateFlow { state: GameState::FARMING, entered: true }
    }

    /// The first step of a frame's update: the mode to set up now, if it was
    /// just entered. Setting it up clears the flag.
    pub fn take_entered(&mut self) -> (enter: Option<GameState>)
        ensures
            enter == entering(*old(self)),
            *final(self) == after_entering(*old(self)),
    {
        if self.entered {
            self.entered = false;
            Some(self.state)
        } else {
            None
        }
    }

    /// The last step of a frame's update, given the mode the current one asked
    /// to move to, if any: returns the mode to tear down (its `exit` step),
    /// and moves to the new one, which is set up on the next update.
    pub fn transition(&mut self, next: Option<GameState>) -> (exit: Option<GameState>)
        ensures
            exit == leaving(*old(self), next),
            *final(self) == after_transition(*old(self), next),
    {
        match next {
            Some(state) => {
                let leaving = self.state;
                self.state = state;
                self.entered = true;
                Some(leaving)
            },
            None => None,
        }
    }
}

/// The mode the farm asks to move to after an update: combat, while the
/// key for it is held down.
pub fn farming_transition(combat_key_down: bool) -> (next: Option<GameState>)
    ensures
        next == if combat_key_down {
            Some(GameState::COMBAT)
        } else {
            None::<GameState>
        },
{
    if combat_key_down {
        Some(GameState::COMBAT)
    } else {
        None
    }
}

/// A mode is set up at most once per visit: right after its set-up step,
/// another one sets up nothing.
pub proof fn lemma_enter_once(f: StateFlow)
    ensures
        entering(after_entering(f)) is None,
        after_entering(after_entering(f)) == after_entering(f),
{
}

/// The mode moved to is the one set up on the next update.
pub proof fn lemma_transition_enters_next(f: StateFlow, next: GameState)
    ensures
        entering(after_transition(f, Some(next))) == Some(next),
{
}

/// An update that asks for no move changes nothing at its end, and tears
/// nothing down.
pub proof fn lemma_staying_is_quiet(f: StateFlow)
    ensures
        after_transition(f, None) == f,
        leaving(f, None) is None,
{
}

/// What is torn down is the mode the update ran in, the one last set up.
pub proof fn lemma_exit_matches_enter(f: StateFlow, next: GameState)
    requires
        f.entered,
    ensures
        leaving(after_entering(f), Some(next)) == entering(f),
{
}

} // verus!

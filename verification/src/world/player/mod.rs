pub mod aiming;

use crate::draw::ArtHandle;
use vstd::prelude::*;

verus! {

/// Which way the player is facing, for picking the art to draw them with.
#[derive(PartialEq, Eq, Structural, Clone, Copy, Debug)]
pub enum Direction {
    Side,
    Up,
    Down,
}

/// The direction a player walking this way faces: any sideways movement
/// shows the side art; otherwise moving up shows the back, and anything else
/// the front.
pub open spec fn facing(moving_sideways: bool, moving_up: bool) -> Direction {
    if moving_sideways {
        Direction::Side
    } else if moving_up {
        Direction::Up
    } else {
        Direction::Down
    }
}

impl Direction {
    /// The direction a player moving this way faces.
    pub fn of_movement(moving_sideways: bool, moving_up: bool) -> (d: Direction)
        ensures
            d == facing(moving_sideways, moving_up),
    {
        match (moving_sideways, moving_up) {
            (true, _) => Direction::Side,
            (_, true) => Direction::Up,
            _ => Direction::Down,
        }
    }
}

/// Which of walking or throwing controls how the player looks.
#[derive(PartialEq, Eq, Structural, Clone, Copy, Debug)]
pub enum PlayerState {
    Walking,
    Throwing,
}

/// One of something for each way the player can face.
pub struct EachDirection<T> {
    pub up: T,
    pub side: T,
    pub down: T,
}

impl<T> EachDirection<T> {
    /// The one kept for direction `d`.
    pub open spec fn pick(&self, d: Direction) -> T {
        match d {
            Direction::Side => self.side,
            Direction::Down => self.down,
            Direction::Up => self.up,
        }
    }

    pub fn get(&self, d: Direction) -> (r: &T)
        ensures
            *r == self.pick(d),
    {
        match d {
            Direction::Side => &self.side,
            Direction::Down => &self.down,
            Direction::Up => &self.up,
        }
    }
}

/// How the player looks while facing one way.
#[derive(Clone, Copy, Debug)]
pub struct DirectionConfig {
    pub art: ArtHandle,
    pub weapon_in_front: bool,
}

/// Remembers which way the player's walk animation faces.
#[derive(Clone, Copy, Debug)]
pub struct WalkAnimator {
    pub direction: Direction,
}

impl WalkAnimator {
    /// A player starts out facing down, toward the camera.
    pub fn new() -> (w: Self)
        ensures
            w.direction == Direction::Down,
    {
        WalkAnimator { direction: Direction::Down }
    }

    /// Turns the animation to face the way the player moves this frame;
    /// returns whether it turned, in which case the walk starts over.
    pub fn turn(&mut self, moving_sideways: bool, moving_up: bool) -> (turned: bool)
        ensures
            final(self).direction == facing(moving_sideways, moving_up),
            turned == (facing(moving_sideways, moving_up) != old(self).direction),
    {
        let new_direction = Direction::of_movement(moving_sideways, moving_up);
        if new_direction != self.direction {
            self.direction = new_direction;
            true
        } else {
            false
        }
    }
}

} // verus!

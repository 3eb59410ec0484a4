//! The physics era's weapon wielding runs on the same state machine as combat's.
pub use crate::combat::aiming::{WeaponTiming, Wielder, WielderState, SUMMONING_TIME};

use vstd::prelude::*;

verus! {

/// An entity of the game world, by the bits of its identifier.
pub type EntityId = u64;

} // verus!

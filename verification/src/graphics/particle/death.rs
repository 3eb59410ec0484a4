use vstd::prelude::*;

verus! {

/// Marks an entity whose death particles are to be emitted before it is despawned.
#[derive(PartialEq, Eq, Structural, Clone, Copy, Debug)]
pub struct Dead;

} // verus!

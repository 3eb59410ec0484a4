use vstd::prelude::*;

verus! {

/// Entities with this component turn to face the mouse cursor.
#[derive(PartialEq, Eq, Structural, Clone, Copy, Debug)]
pub struct FacesCursor;

} // verus!

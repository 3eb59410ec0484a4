use vstd::prelude::*;

verus! {

/// Marks the props, such as fences, placed in a map.
#[derive(PartialEq, Eq, Structural, Clone, Copy, Debug)]
pub struct Prop;

} // verus!

use crate::draw::ArtHandle;
use vstd::prelude::*;

verus! {

/// The art of walking sideways and walking down.
#[derive(PartialEq, Eq, Structural, Clone, Copy, Debug)]
pub struct WalkDirectionArtConfig {
    pub side: ArtHandle,
    pub down: ArtHandle,
}

impl WalkDirectionArtConfig {
    /// The art to walk with: walking with any sideways speed shows the side
    /// art, walking straight up or down shows the down art.
    pub fn art_for(&self, moving_sideways: bool) -> (a: ArtHandle)
        ensures
            a == if moving_sideways {
                self.side
            } else {
                self.down
            },
    {
        if moving_sideways {
            self.side
        } else {
            self.down
        }
    }
}

} // verus!

//! The score as the host sees it.

use vstd::prelude::*;
use crate::world::{World, WorldView};

verus! {

impl WorldView {
    /// Whether the score differs from what the host was last shown, or the
    /// host was shown none yet.
    pub open spec fn score_changed(self) -> bool {
        self.reported != Some(self.score)
    }

    /// The state after the host has been shown the score.
    pub open spec fn score_reported(self) -> WorldView {
        WorldView { reported: Some(self.score), ..self }
    }
}

/// Hands the host the score if it has changed since the host was last
/// shown it, and at the first call; the score counts as shown from then on.
pub fn update_score(world: &mut World) -> (shown: Option<u32>)
    ensures
        final(world)@ == old(world)@.score_reported(),
        old(world)@.wf() ==> final(world)@.wf(),
        shown == (if old(world)@.score_changed() {
            Some(old(world)@.score)
        } else {
            None
        }),
{
    let value = world.score.value;
    let changed = match world.reported {
        Some(seen) => seen != value,
        None => true,
    };
    world.reported = Some(value);
    if changed {
        Some(value)
    } else {
        None
    }
}

} // verus!

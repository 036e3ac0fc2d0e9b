//! Start-up: the screen stays black while the shaders compile and the decor
//! and the resolution are settled, then the aquarium fades in.
use vstd::prelude::*;

verus! {

/// Frames in a row that everything must be ready before the curtain lifts
/// (new pipelines can be queued as things appear).
pub const STABLE_FRAMES: u32 = 20;

/// The black curtain's count of ready frames.
pub struct Curtain {
    pub ready_frames: u32,
}

impl Curtain {
    pub fn new() -> (c: Self)
        ensures
            c.ready_frames == 0,
    {
        Curtain { ready_frames: 0 }
    }

    /// Counts a frame: ready frames in a row, back to zero when something is
    /// not ready.
    pub fn count(&mut self, ready: bool)
        requires
            old(self).ready_frames < u32::MAX,
        ensures
            final(self).ready_frames == if ready {
                old(self).ready_frames + 1
            } else {
                0
            },
    {
        self.ready_frames = if ready {
            self.ready_frames + 1
        } else {
            0
        };
    }

    /// Whether the curtain fades (or keeps fading): stable for long enough,
    /// or waited too long on screen, or already fading.
    pub fn lifting(&self, waited_too_long: bool, fading: bool) -> (r: bool)
        ensures
            r == (self.ready_frames > STABLE_FRAMES || waited_too_long || fading),
    {
        self.ready_frames > STABLE_FRAMES || waited_too_long || fading
    }
}

} // verus!

//! The renderer front: a placeholder that will own render passes and
//! pipelines; drawing is driven by the ECS systems for now.
use vstd::prelude::*;

verus! {

/// Holds no state yet.
#[derive(Clone, Copy, Debug, PartialEq, Eq)]
pub struct KaiRenderer {}

impl KaiRenderer {
    /// A renderer with no state.
    pub fn new() -> (r: KaiRenderer)
        ensures
            r == (KaiRenderer {}),
    {
        KaiRenderer {}
    }

    /// Renders a frame; there is nothing to draw from the renderer itself
    /// yet, so its state does not change.
    pub fn render(&mut self)
        ensures
            *final(self) == *old(self),
    {
    }
}

} // verus!

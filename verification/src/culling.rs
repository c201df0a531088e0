//! Per-entity visibility state for frustum culling.

use vstd::prelude::*;

verus! {

/// Visibility of an entity in this frame and the previous one.
#[derive(Clone, Copy)]
pub struct Visibility {
    pub is_visible: bool,
    pub was_visible_last_frame: bool,
}

impl Visibility {
    /// Visible now and before.
    pub fn new() -> (v: Visibility)
        ensures
            v.is_visible,
            v.was_visible_last_frame,
    {
        Visibility { is_visible: true, was_visible_last_frame: true }
    }

    /// Moves to a new frame: the current state becomes the previous one.
    pub fn update(&mut self, visible: bool)
        ensures
            final(self).was_visible_last_frame == old(self).is_visible,
            final(self).is_visible == visible,
    {
        self.was_visible_last_frame = self.is_visible;
        self.is_visible = visible;
    }
}

impl Default for Visibility {
    fn default() -> (v: Visibility)
        ensures
            v.is_visible,
            v.was_visible_last_frame,
    {
        Visibility::new()
    }
}

/// Law: two updates leave the first update's value as the previous state.
pub proof fn lemma_visibility_history(v0: Visibility, v1: Visibility, v2: Visibility, a: bool, b: bool)
    requires
        v1.was_visible_last_frame == v0.is_visible,
        v1.is_visible == a,
        v2.was_visible_last_frame == v1.is_visible,
        v2.is_visible == b,
    ensures
        v2.was_visible_last_frame == a,
        v2.is_visible == b,
{
}

} // verus!

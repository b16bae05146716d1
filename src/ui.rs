use vstd::prelude::*;

verus! {

/// One frame's worth of discrete input events, already merged from the
/// keyboard and the on-screen buttons.
#[derive(Default)]
pub struct UiContext {
    pub up_pressed: bool,
    pub down_pressed: bool,
    pub right_pressed: bool,
    pub left_pressed: bool,
    pub enter_pressed: bool,
    pub back_pressed: bool,
}

impl UiContext {
    /// Spec-level: no event is pending.
    pub open spec fn is_clear(&self) -> bool {
        &&& !self.up_pressed
        &&& !self.down_pressed
        &&& !self.right_pressed
        &&& !self.left_pressed
        &&& !self.enter_pressed
        &&& !self.back_pressed
    }

    /// Clears every event, ready for the next frame.
    pub fn reset(&mut self)
        ensures
            final(self).is_clear(),
    {
        self.up_pressed = false;
        self.down_pressed = false;
        self.left_pressed = false;
        self.right_pressed = false;
        self.enter_pressed = false;
        self.back_pressed = false;
    }
}

} // verus!

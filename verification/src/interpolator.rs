//! What a client shows of a ball between two server states.

use vstd::prelude::*;

verus! {

/// Chooses between showing each ball's newest state as it is and blending
/// it with the state before.
pub struct BallsInterpolatorComponent {
    do_interpolation: bool,
}

impl BallsInterpolatorComponent {
    /// Whether states are blended.
    pub closed spec fn spec_interpolates(&self) -> bool {
        self.do_interpolation
    }

    /// An interpolator that blends states where `do_interpolation` is set.
    pub fn new(do_interpolation: bool) -> (component: Self)
        ensures
            component.spec_interpolates() == do_interpolation,
    {
        Self { do_interpolation }
    }

    /// Whether states are blended.
    pub fn interpolates(&self) -> (blends: bool)
        ensures
            blends == self.spec_interpolates(),
    {
        self.do_interpolation
    }

    /// Whether the ball is shown as dead, given whether it was dead in the
    /// state before and is dead in the newest. Without blending only the
    /// newest state counts; with it, a ball that is dead in either state is
    /// shown dead, so that a respawn is not drawn as a slide across the
    /// screen.
    pub fn shown_dead(&self, old_dead: bool, new_dead: bool) -> (dead: bool)
        ensures
            dead == if self.spec_interpolates() {
                old_dead || new_dead
            } else {
                new_dead
            },
    {
        if self.do_interpolation {
            old_dead || new_dead
        } else {
            new_dead
        }
    }
}

} // verus!

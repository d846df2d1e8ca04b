//! Colours of balls and food: cosmetic, with no part in the physics.

use vstd::prelude::*;

verus! {

/// A colour of three 8-bit channels.
#[derive(Clone, Copy, Debug, PartialEq, Eq, Structural)]
pub struct Rgb {
    pub r: u8,
    pub g: u8,
    pub b: u8,
}

impl Rgb {
    /// The three channels in the order red, green, blue.
    pub fn channels(&self) -> (channels: [u8; 3])
        ensures
            channels@ == seq![self.r, self.g, self.b],
    {
        let channels: [u8; 3] = [self.r, self.g, self.b];
        assert(channels@ =~= seq![self.r, self.g, self.b]);
        channels
    }
}

} // verus!

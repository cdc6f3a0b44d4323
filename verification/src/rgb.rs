//! Linear RGB colours and the display gamut.

use crate::binary32::{in_unit_interval, within_unit};
use vstd::prelude::*;

verus! {

/// A colour in linear RGB. Each component is the bit pattern of a binary32 number.
#[derive(Clone, Copy, Debug, PartialEq, Eq, Structural)]
pub struct LinearRgb {
    pub red: u32,
    pub green: u32,
    pub blue: u32,
}

impl LinearRgb {
    /// Whether a display can show the colour: every component is a number of the closed unit
    /// interval. A component that is infinite or not a number puts the colour outside.
    pub open spec fn displayable(self) -> bool {
        within_unit(self.red) && within_unit(self.green) && within_unit(self.blue)
    }

    /// The colour with the given component bit patterns.
    pub fn new(red: u32, green: u32, blue: u32) -> (rgb: LinearRgb)
        ensures
            rgb == (LinearRgb { red, green, blue }),
    {
        LinearRgb { red, green, blue }
    }

    /// Tests the colour for membership in the display gamut.
    pub fn in_gamut(&self) -> (inside: bool)
        ensures
            inside == self.displayable(),
    {
        in_unit_interval(self.red) && in_unit_interval(self.green) && in_unit_interval(self.blue)
    }
}

} // verus!

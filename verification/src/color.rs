//! A three-channel 8-bit color value.

use vstd::prelude::*;

verus! {

/// One pixel: red, green and blue channels, each a full 8-bit value.
///
/// The view of a `Color` is the plain triple `(red, green, blue)`.
#[derive(Debug, Clone, Copy, PartialEq, Eq, Structural)]
pub struct Color {
    pub red: u8,
    pub green: u8,
    pub blue: u8,
}

impl View for Color {
    type V = (u8, u8, u8);

    open spec fn view(&self) -> (u8, u8, u8) {
        (self.red, self.green, self.blue)
    }
}

impl Color {
    pub fn new(red: u8, green: u8, blue: u8) -> (c: Color)
        ensures
            c@ == (red, green, blue),
    {
        Color { red, green, blue }
    }

    pub fn red(&self) -> (r: u8)
        ensures
            r == self@.0,
    {
        self.red
    }

    pub fn green(&self) -> (r: u8)
        ensures
            r == self@.1,
    {
        self.green
    }

    pub fn blue(&self) -> (r: u8)
        ensures
            r == self@.2,
    {
        self.blue
    }
}

impl From<(u8, u8, u8)> for Color {
    fn from(t: (u8, u8, u8)) -> (c: Color) {
        Color { red: t.0, green: t.1, blue: t.2 }
    }
}

impl vstd::std_specs::convert::FromSpecImpl<(u8, u8, u8)> for Color {
    open spec fn obeys_from_spec() -> bool {
        true
    }

    open spec fn from_spec(t: (u8, u8, u8)) -> Color {
        Color { red: t.0, green: t.1, blue: t.2 }
    }
}

impl From<Color> for (u8, u8, u8) {
    fn from(c: Color) -> (t: (u8, u8, u8)) {
        (c.red, c.green, c.blue)
    }
}

impl vstd::std_specs::convert::FromSpecImpl<Color> for (u8, u8, u8) {
    open spec fn obeys_from_spec() -> bool {
        true
    }

    open spec fn from_spec(c: Color) -> (u8, u8, u8) {
        c@
    }
}

} // verus!

use vstd::prelude::*;

verus! {

/// A colour with red, green, blue and alpha channels of 8 bits each.
#[derive(Clone, Copy, PartialEq, Eq, Structural, Debug, Hash)]
pub struct Color {
    pub r: u8,
    pub g: u8,
    pub b: u8,
    pub a: u8,
}

impl Color {
    /// A colour from its four channels.
    pub fn rgba(r: u8, g: u8, b: u8, a: u8) -> (c: Color)
        ensures
            c == (Color { r, g, b, a }),
    {
        Color { r, g, b, a }
    }

    /// An opaque colour from its three colour channels.
    pub fn rgb(r: u8, g: u8, b: u8) -> (c: Color)
        ensures
            c == (Color { r, g, b, a: 255 }),
    {
        Color { r, g, b, a: 255 }
    }

    /// The fully transparent black that erasing leaves behind.
    pub open spec fn spec_transparent() -> Color {
        Color { r: 0, g: 0, b: 0, a: 0 }
    }

    /// The fully transparent black that erasing leaves behind.
    pub fn transparent() -> (c: Color)
        ensures
            c == Color::spec_transparent(),
    {
        Color { r: 0, g: 0, b: 0, a: 0 }
    }

    /// Channel `k` in memory order: red, green, blue, then alpha.
    pub open spec fn channel(self, k: int) -> u8 {
        if k == 0 {
            self.r
        } else if k == 1 {
            self.g
        } else if k == 2 {
            self.b
        } else {
            self.a
        }
    }
}

} // verus!

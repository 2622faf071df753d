//! RGBA color values carried with every pixel write.

use vstd::prelude::*;

verus! {

/// A color with red, green, blue and alpha channels, one byte each.
/// Shapes copy a color value into every pixel write they perform.
#[derive(Clone, Copy, PartialEq, Eq, Structural, Debug)]
pub struct Color {
    pub r: u8,
    pub g: u8,
    pub b: u8,
    pub a: u8,
}

impl Color {
    /// Fully opaque white, the default color of every shape.
    pub open spec fn white_spec() -> Color {
        Color { r: 255, g: 255, b: 255, a: 255 }
    }

    /// A fully opaque color built from the three channel values.
    pub open spec fn rgb_spec(r: u8, g: u8, b: u8) -> Color {
        Color { r: r, g: g, b: b, a: 255 }
    }

    pub fn white() -> (c: Color)
        ensures
            c == Color::white_spec(),
    {
        Color { r: 255, g: 255, b: 255, a: 255 }
    }

    pub fn rgb(r: u8, g: u8, b: u8) -> (c: Color)
        ensures
            c == Color::rgb_spec(r, g, b),
    {
        Color { r: r, g: g, b: b, a: 255 }
    }
}

} // verus!

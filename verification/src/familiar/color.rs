//! Colours.

use vstd::prelude::*;

verus! {

/// Red, green, blue and opacity, not multiplied with one another.
#[derive(Clone, Copy, Debug, PartialEq, Eq, Structural)]
pub struct Color {
    pub r: u8,
    pub g: u8,
    pub b: u8,
    pub a: u8,
}

impl Color {
    /// A colour from its parts.
    pub fn rgba(r: u8, g: u8, b: u8, a: u8) -> (c: Self)
        ensures
            c == (Color { r, g, b, a }),
    {
        Color { r, g, b, a }
    }

    /// Nothing to be seen.
    pub fn transparent() -> (c: Self)
        ensures
            c == (Color { r: 0, g: 0, b: 0, a: 0 }),
    {
        Self::rgba(0, 0, 0, 0)
    }

    pub fn white() -> (c: Self)
        ensures
            c == (Color { r: 255, g: 255, b: 255, a: 255 }),
    {
        Self::rgba(255, 255, 255, 255)
    }

    pub fn black() -> (c: Self)
        ensures
            c == (Color { r: 0, g: 0, b: 0, a: 255 }),
    {
        Self::rgba(0, 0, 0, 255)
    }

    pub fn coral() -> (c: Self)
        ensures
            c == (Color { r: 0xFF, g: 0x6F, b: 0x61, a: 0xFF }),
    {
        Self::rgba(0xFF, 0x6F, 0x61, 0xFF)
    }

    pub fn sky() -> (c: Self)
        ensures
            c == (Color { r: 0x4F, g: 0x8E, b: 0xF1, a: 0xFF }),
    {
        Self::rgba(0x4F, 0x8E, 0xF1, 0xFF)
    }
}

} // verus!

//! The pet's settings.

use vstd::prelude::*;

use crate::familiar::color::Color;

verus! {

/// The pet's settings.
#[derive(Clone, Copy, Debug)]
pub struct Config {
    /// Width and height in pixels.
    pub canvas_size: (u32, u32),
    pub bg: Color,
    pub pet_color: Color,
    pub auto_move: bool,
}

impl Default for Config {
    fn default() -> (r: Self)
        ensures
            r.canvas_size == (320u32, 240u32),
            r.bg == (Color { r: 0, g: 0, b: 0, a: 0 }),
            r.pet_color == (Color { r: 0xFF, g: 0x6F, b: 0x61, a: 0xFF }),
            r.auto_move,
    {
        Config {
            canvas_size: (320, 240),
            bg: Color::transparent(),
            pet_color: Color::coral(),
            auto_move: true,
        }
    }
}

} // verus!

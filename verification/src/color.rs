use vstd::prelude::*;

use crate::random::random_byte;

verus! {

/// A colour, one byte per channel.
#[derive(Clone, Copy, PartialEq, Eq, Structural, Debug)]
pub struct Color {
    pub r: u8,
    pub g: u8,
    pub b: u8,
}

impl Color {
    /// A colour drawn at random, each channel on its own.
    pub fn random() -> (c: Color) {
        let r = random_byte();
        let g = random_byte();
        let b = random_byte();
        Color { r, g, b }
    }
}

} // verus!

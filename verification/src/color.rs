use vstd::prelude::*;

use crate::entropy::random_in_range;

verus! {

/// A flat RGB color: three 8-bit channels, no alpha.
/// Equality is component-wise.
#[derive(Clone, Copy, Debug, PartialEq, Eq, Structural)]
pub struct Color {
    pub r: u8,
    pub g: u8,
    pub b: u8,
}

impl Color {
    /// Builds a color from its three channel values.
    pub fn rgb(r: u8, g: u8, b: u8) -> (c: Color)
        ensures
            c == (Color { r, g, b }),
    {
        Color { r, g, b }
    }
}

/// Draws three independent uniform 8-bit channel values.
pub(crate) fn random_color() -> Color {
    let r = random_in_range(0, 256);
    let g = random_in_range(0, 256);
    let b = random_in_range(0, 256);
    Color { r: r as u8, g: g as u8, b: b as u8 }
}

} // verus!


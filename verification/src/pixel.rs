//! Colours as they are stored in the framebuffer and in textures.

use crate::fixed::Fixed;
use vstd::prelude::*;

verus! {

/// A colour in linear light with opacity; every channel is nominally between
/// zero and one, and the colour channels are not multiplied by the opacity.
#[derive(Clone, Copy, Debug, PartialEq, Eq, Structural)]
pub struct LinearRgba {
    pub r: Fixed,
    pub g: Fixed,
    pub b: Fixed,
    pub a: Fixed,
}

impl LinearRgba {
    /// Black with no opacity: the colour of a cell nothing was drawn on.
    pub open spec fn transparent() -> LinearRgba {
        LinearRgba {
            r: Fixed::from_int(0),
            g: Fixed::from_int(0),
            b: Fixed::from_int(0),
            a: Fixed::from_int(0),
        }
    }

    /// The colour with the given channels.
    pub fn new(r: Fixed, g: Fixed, b: Fixed, a: Fixed) -> (p: LinearRgba)
        ensures
            p == (LinearRgba { r, g, b, a }),
    {
        LinearRgba { r, g, b, a }
    }

    /// Black with no opacity.
    pub fn clear() -> (p: LinearRgba)
        ensures
            p == LinearRgba::transparent(),
    {
        LinearRgba { r: Fixed::zero(), g: Fixed::zero(), b: Fixed::zero(), a: Fixed::zero() }
    }
}

} // verus!

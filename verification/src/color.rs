//! Colour attributes as a scene supplies them.

use crate::fixed::Fixed;
use vstd::prelude::*;

verus! {

/// A vertex colour. Where a scene gives three channels only, the colour is
/// opaque.
#[derive(Clone, Copy, Debug, PartialEq, Eq, Structural)]
pub struct Color {
    pub r: Fixed,
    pub g: Fixed,
    pub b: Fixed,
    pub a: Fixed,
}

impl Color {
    /// The colour that `color` lists: red, green, blue and, where there is
    /// a fourth value, opacity.
    pub open spec fn from_seq(color: Seq<Fixed>) -> Color {
        Color {
            r: color[0],
            g: color[1],
            b: color[2],
            a: if color.len() > 3 {
                color[3]
            } else {
                Fixed::from_int(1)
            },
        }
    }

    /// The colour of a vertex for which a scene gives none: black, with no
    /// opacity.
    pub open spec fn absent() -> Color {
        Color {
            r: Fixed::from_int(0),
            g: Fixed::from_int(0),
            b: Fixed::from_int(0),
            a: Fixed::from_int(0),
        }
    }

    /// Reads a colour from three or four channel values.
    pub fn new(color: Vec<Fixed>) -> (c: Self)
        requires
            color.len() >= 3,
        ensures
            c == Color::from_seq(color@),
    {
        let a = if color.len() > 3 {
            color[3]
        } else {
            Fixed::one()
        };
        Self { r: color[0], g: color[1], b: color[2], a }
    }

    /// The colour of a vertex for which a scene gives none.
    pub fn none() -> (c: Self)
        ensures
            c == Color::absent(),
    {
        Self { r: Fixed::zero(), g: Fixed::zero(), b: Fixed::zero(), a: Fixed::zero() }
    }
}

} // verus!

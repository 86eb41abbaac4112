//! Position attributes as a scene supplies them.

use crate::fixed::Fixed;
use vstd::prelude::*;

verus! {

/// A vertex position in homogeneous coordinates.
#[derive(Clone, Copy, Debug, PartialEq, Eq, Structural)]
pub struct Position {
    pub x: Fixed,
    pub y: Fixed,
    pub z: Fixed,
    pub w: Fixed,
}

impl Position {
    /// The position that `position` lists. A missing `y` or `z` is zero and
    /// a missing `w` is one, so a shorter list is a point of a lower
    /// dimension.
    pub open spec fn from_seq(position: Seq<Fixed>) -> Position {
        Position {
            x: position[0],
            y: if position.len() > 1 {
                position[1]
            } else {
                Fixed::from_int(0)
            },
            z: if position.len() > 2 {
                position[2]
            } else {
                Fixed::from_int(0)
            },
            w: if position.len() > 3 {
                position[3]
            } else {
                Fixed::from_int(1)
            },
        }
    }

    /// Reads a position from one to four coordinates.
    pub fn new(position: Vec<Fixed>) -> (p: Self)
        requires
            position.len() >= 1,
        ensures
            p == Position::from_seq(position@),
    {
        let x = position[0];
        let y = if position.len() > 1 {
            position[1]
        } else {
            Fixed::zero()
        };
        let z = if position.len() > 2 {
            position[2]
        } else {
            Fixed::zero()
        };
        let w = if position.len() > 3 {
            position[3]
        } else {
            Fixed::one()
        };
        Self { x, y, z, w }
    }
}

} // verus!

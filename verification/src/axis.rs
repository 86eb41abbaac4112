//! Positions of the named fields inside a vertex vector.

use vstd::prelude::*;

verus! {

/// Horizontal position.
pub const X: usize = 0;

/// Vertical position.
pub const Y: usize = 1;

/// Depth.
pub const Z: usize = 2;

/// Homogeneous coordinate; its reciprocal after perspective division.
pub const W: usize = 3;

/// Red.
pub const R: usize = 4;

/// Green.
pub const G: usize = 5;

/// Blue.
pub const B: usize = 6;

/// Opacity.
pub const A: usize = 7;

/// Horizontal texture coordinate.
pub const S: usize = 8;

/// Vertical texture coordinate.
pub const T: usize = 9;

/// Side length of a point sprite.
pub const P: usize = 10;

} // verus!

//! The uniform transform applied to every vertex position.

use crate::fixed::Fixed;
use vstd::prelude::*;

verus! {

/// A 4x4 matrix, stored row by row.
#[derive(Clone, Copy, Debug)]
pub struct Matrix {
    pub rows: [[Fixed; 4]; 4],
}

impl Matrix {
    /// The entry in row `i`, column `j`.
    pub open spec fn at(self, i: int, j: int) -> Fixed {
        self.rows@[i]@[j]
    }

    /// The matrix with the given rows.
    pub fn new(rows: [[Fixed; 4]; 4]) -> (m: Matrix)
        ensures
            m.rows == rows,
    {
        Matrix { rows }
    }

    /// The matrix that leaves every position unchanged.
    pub fn identity() -> (m: Matrix)
        ensures
            forall|i: int, j: int|
                0 <= i < 4 && 0 <= j < 4 ==> #[trigger] m.at(i, j) == Fixed::from_int(
                    if i == j {
                        1int
                    } else {
                        0int
                    },
                ),
    {
        let o = Fixed::one();
        let z = Fixed::zero();
        Matrix { rows: [[o, z, z, z], [z, o, z, z], [z, z, o, z], [z, z, z, o]] }
    }

    /// The entry in row `i`, column `j`.
    pub fn get(&self, i: usize, j: usize) -> (r: Fixed)
        requires
            i < 4,
            j < 4,
        ensures
            r == self.at(i as int, j as int),
    {
        self.rows[i][j]
    }

    /// Overwrites the entry in row `i`, column `j`.
    pub fn set(&mut self, i: usize, j: usize, value: Fixed)
        requires
            i < 4,
            j < 4,
        ensures
            final(self).at(i as int, j as int) == value,
            forall|k: int, l: int|
                0 <= k < 4 && 0 <= l < 4 && !(k == i && l == j) ==> #[trigger] final(self).at(k, l)
                    == old(self).at(k, l),
    {
        let mut row = self.rows[i];
        row[j] = value;
        self.rows[i] = row;
    }
}

} // verus!

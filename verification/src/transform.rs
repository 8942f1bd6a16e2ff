//! Crystallographic data built from one or several records: the unit cell,
//! the symmetry descriptor, and the 3×4 transform matrices assembled one row
//! per file line.
//!
//! A matrix is valid only once all three of its rows have been explicitly
//! supplied; the per-row `Option` tracks that partial-construction state.

use vstd::prelude::*;

use crate::num::Decimal;

verus! {

/// One row of a 3×4 transform: three matrix entries and a translation.
#[derive(Clone, Copy, PartialEq, Eq, Structural, Debug)]
pub struct Row4 {
    pub a: Decimal,
    pub b: Decimal,
    pub c: Decimal,
    pub d: Decimal,
}

/// A 3×4 transform assembled row by row; a row is `None` until its record
/// has been seen.
#[derive(Clone, Copy, PartialEq, Eq, Debug)]
pub struct RowMatrix {
    pub row0: Option<Row4>,
    pub row1: Option<Row4>,
    pub row2: Option<Row4>,
}

/// The matrix with row `n` replaced; any index above two means the last
/// row.
pub open spec fn matrix_with_row(m: RowMatrix, n: int, row: Row4) -> RowMatrix {
    if n == 0 {
        RowMatrix { row0: Some(row), ..m }
    } else if n == 1 {
        RowMatrix { row1: Some(row), ..m }
    } else {
        RowMatrix { row2: Some(row), ..m }
    }
}

/// A matrix is valid once every row has been supplied.
pub open spec fn matrix_valid(m: RowMatrix) -> bool {
    m.row0 is Some && m.row1 is Some && m.row2 is Some
}

impl RowMatrix {
    /// A fresh matrix with no row supplied yet.
    pub fn new() -> (r: RowMatrix)
        ensures
            r == (RowMatrix { row0: Option::<Row4>::None, row1: Option::<Row4>::None, row2: Option::<Row4>::None }),
    {
        RowMatrix { row0: None, row1: None, row2: None }
    }

    /// Sets one row of the matrix; any index above two means the last row.
    pub fn set_row(&mut self, n: usize, row: Row4)
        ensures
            *final(self) == matrix_with_row(*old(self), n as int, row),
    {
        if n == 0 {
            self.row0 = Some(row);
        } else if n == 1 {
            self.row1 = Some(row);
        } else {
            self.row2 = Some(row);
        }
    }

    /// Whether every row of this matrix has been supplied.
    pub fn valid(&self) -> (r: bool)
        ensures
            r == matrix_valid(*self),
    {
        self.row0.is_some() && self.row1.is_some() && self.row2.is_some()
    }
}

/// A non-crystallographic symmetry matrix, keyed by its serial number.
#[derive(Clone, Copy, PartialEq, Eq, Debug)]
pub struct MtriX {
    /// The serial number the records carry.
    pub serial_number: usize,
    /// Whether the coordinates of the operation are contained in the file,
    /// as the record's given-flag states it.
    pub contained: bool,
    /// The rows supplied so far.
    pub matrix: RowMatrix,
}

impl MtriX {
    /// A fresh matrix with serial number 0, not contained, no rows.
    pub fn new() -> (r: MtriX)
        ensures
            r.serial_number == 0,
            r.contained == false,
            r.matrix == (RowMatrix { row0: Option::<Row4>::None, row1: Option::<Row4>::None, row2: Option::<Row4>::None }),
    {
        MtriX { serial_number: 0, contained: false, matrix: RowMatrix::new() }
    }

    /// Sets one row of the matrix; any index above two means the last row.
    pub fn set_row(&mut self, n: usize, row: Row4)
        ensures
            *final(self) == (MtriX {
                matrix: matrix_with_row(old(self).matrix, n as int, row),
                ..*old(self)
            }),
    {
        self.matrix.set_row(n, row);
    }

    /// Whether every row of this matrix has been supplied.
    pub fn valid(&self) -> (r: bool)
        ensures
            r == matrix_valid(self.matrix),
    {
        self.matrix.valid()
    }
}

/// The unit cell: three lengths and three angles.
#[derive(Clone, Copy, PartialEq, Eq, Structural, Debug)]
pub struct UnitCell {
    pub a: Decimal,
    pub b: Decimal,
    pub c: Decimal,
    pub alpha: Decimal,
    pub beta: Decimal,
    pub gamma: Decimal,
}

impl UnitCell {
    pub fn new(a: Decimal, b: Decimal, c: Decimal, alpha: Decimal, beta: Decimal, gamma: Decimal)
        -> (r: UnitCell)
        ensures
            r == (UnitCell { a, b, c, alpha, beta, gamma }),
    {
        UnitCell { a, b, c, alpha, beta, gamma }
    }
}

} // verus!

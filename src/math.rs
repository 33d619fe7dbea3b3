use vstd::prelude::*;

verus! {

/// Where row (or column) `index` of a matrix lands once row (or column)
/// `deleted` is taken out: the same place before it, one place up after it,
/// nowhere for the deleted one itself.
pub fn submatrix_index(index: usize, deleted: usize) -> (r: Option<usize>)
    ensures
        r == (if index < deleted {
            Some(index)
        } else if index == deleted {
            None::<usize>
        } else {
            Some((index - 1) as usize)
        }),
{
    if index < deleted {
        Some(index)
    } else if index == deleted {
        None
    } else {
        Some(index - 1)
    }
}

/// The sign of the cofactor at `(row, col)`: positive where the two indices
/// have the same parity.
pub fn cofactor_sign(row: usize, col: usize) -> (r: i8)
    ensures
        r == (if row % 2 == col % 2 {
            1i8
        } else {
            -1i8
        }),
{
    let row_sign: i8 = if row % 2 == 0 {
        1
    } else {
        -1
    };
    let col_sign: i8 = if col % 2 == 0 {
        1
    } else {
        -1
    };
    row_sign * col_sign
}

} // verus!

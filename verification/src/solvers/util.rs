//! The neighbours of a box.

use vstd::prelude::*;
use crate::grid::square::Square;

verus! {

/// The two of `0`, `3`, `6` that are not `at`, in ascending order; nothing
/// where `at` is none of the three.
pub open spec fn other_two(at: int) -> Option<(int, int)> {
    if at == 0 {
        Some((3int, 6int))
    } else if at == 3 {
        Some((0int, 6int))
    } else if at == 6 {
        Some((0int, 3int))
    } else {
        None
    }
}

/// Returns the two other boxes of the band of rows that `square` lies in,
/// from left to right; nothing if `square` does not start at a column of
/// a box.
pub fn get_square_row_neighbors(square: &Square) -> (neighbors: Option<[Square; 2]>)
    ensures
        match other_two(square.col as int) {
            Some((a, b)) => neighbors.is_some() && neighbors.unwrap()@ == seq![
                Square { row: square.row, col: a as usize },
                Square { row: square.row, col: b as usize },
            ],
            None => neighbors.is_none(),
        },
{
    let row = square.row;
    let col: usize = square.col;
    match col {
        0 => Some([Square::new(row, 3), Square::new(row, 6)]),
        3 => Some([Square::new(row, 0), Square::new(row, 6)]),
        6 => Some([Square::new(row, 0), Square::new(row, 3)]),
        _ => None,
    }
}

/// Returns the two other boxes of the band of columns that `square` lies
/// in, from top to bottom; nothing if `square` does not start at a row of
/// a box.
pub fn get_square_col_neighbors(square: &Square) -> (neighbors: Option<[Square; 2]>)
    ensures
        match other_two(square.row as int) {
            Some((a, b)) => neighbors.is_some() && neighbors.unwrap()@ == seq![
                Square { row: a as usize, col: square.col },
                Square { row: b as usize, col: square.col },
            ],
            None => neighbors.is_none(),
        },
{
    let row: usize = square.row;
    let col = square.col;
    match row {
        0 => Some([Square::new(3, col), Square::new(6, col)]),
        3 => Some([Square::new(0, col), Square::new(6, col)]),
        6 => Some([Square::new(0, col), Square::new(3, col)]),
        _ => None,
    }
}

} // verus!

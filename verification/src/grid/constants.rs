//! The dimensions of the board.

use vstd::prelude::*;

verus! {

/// Number of rows.
pub const GRID_HEIGHT: usize = 9;

/// Number of columns.
pub const GRID_WIDTH: usize = 9;

/// Number of cells.
pub const GRID_SIZE: usize = 81;

} // verus!

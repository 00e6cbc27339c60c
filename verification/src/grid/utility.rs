//! Text forms of the grid.

pub mod utility;

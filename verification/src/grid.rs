//! The data model: digit tags, coordinates, cell words, areas and the grid.

pub mod cell;
pub mod cell_collection;
pub mod column;
pub mod constants;
pub mod coords;
pub mod format;
pub mod grid;
pub mod flags;
pub mod grid_mask;
pub mod mark;
pub mod possibility;
pub mod queries;
pub mod row;
pub mod slice;
pub mod square;
pub mod test_util;
pub mod text;
pub mod utility;

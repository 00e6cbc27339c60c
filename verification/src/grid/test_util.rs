//! Grids for trying things out.

pub mod test_util;

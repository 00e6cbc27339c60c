//! Making grids.

pub mod generators;

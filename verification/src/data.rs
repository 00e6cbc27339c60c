//! Plain records that carry grids and measurements across the edge of the
//! library.

pub mod datapoint;
pub mod grid;

//! A Sudoku engine: packed cell words, areas, constraint-propagation rules,
//! a fixed-point solver with one-ply speculation, and a seeded generator.

pub mod data;
pub mod generators;
pub mod grid;
pub mod solvers;
pub mod sudoku;
pub mod utils;

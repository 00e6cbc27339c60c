//! Small helpers.

pub mod env;

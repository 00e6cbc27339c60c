//! The deduction rules and the driver that runs them to a fixed point.

pub mod completeness;
pub mod determined_solver;
pub mod fast_solver;
pub mod is_solved;
pub mod laws;
pub mod mark_occupy;
pub mod mark_reset;
pub mod mark_shapes;
pub mod mark_simple;
pub mod mark_survivor;
pub mod mark_trail_and_error;
pub mod narrowing;
pub mod propagation;
pub mod solver;
pub mod solver_manager;
pub mod soundness;
pub mod util;
pub mod validator;

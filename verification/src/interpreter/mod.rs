//! The interpreter that reduces an agent against a store it holds itself.

pub mod bacht_simulator;

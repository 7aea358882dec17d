//! The interpreter that reduces an agent against a blackboard it can only ask.

pub mod local;
pub mod simulator;
pub mod soundness;

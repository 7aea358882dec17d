//! The textual syntax of agents.

pub mod bacht_parser;
pub mod grammar;
pub mod printer;

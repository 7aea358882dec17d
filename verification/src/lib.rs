//! A coordination runtime for a small process algebra in the Linda tradition.
//!
//! Agents are built from four primitives on tokens (`tell`, `ask`, `get` and
//! `nask`) with three operators: sequence (`;`), parallel composition (`||`)
//! and choice (`+`). A shared multiset of tokens, the store, is what they
//! coordinate on: a primitive acts on it or is stuck, and an agent is reduced
//! one step at a time until nothing is left of it or until it is stuck for
//! good.
//!
//! - [`model`] holds the values that go round: syntax trees, actions, events,
//!   tasks and errors.
//! - [`occurrences`], [`store`] and [`bacht_store`] are the store and its laws.
//! - [`bacht`] is the textual syntax: the grammar, the parser and the printer.
//! - [`semantics`] says what a step is, [`rules`] turns the rules of the
//!   operators into functions on trees, and [`interpreter`] runs agents against
//!   a store of its own.
//! - [`cli`] is the interpreter for a store that is asked from afar: one step
//!   as a machine that waits for coins and answers, with the proof that it
//!   takes the steps of the rules and no others.
//! - [`worked_agents`] works a few small agents out, for every way the coins
//!   can fall.
//! - [`task_queue`], [`event_handler`], [`worker`] and [`blackboard`] are the
//!   parts of the service that puts one worker between the store and its
//!   clients.

pub mod bacht;
pub mod bacht_store;
pub mod blackboard;
mod chance;
pub mod cli;
pub mod event_handler;
pub mod interpreter;
pub mod model;
pub mod occurrences;
pub mod rules;
pub mod semantics;
pub mod store;
pub mod task_queue;
pub mod text;
pub mod worked_agents;
pub mod worker;

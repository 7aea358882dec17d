//! The values that the components hand to each other.

pub mod action;
pub mod data;
pub mod error;
pub mod event;
pub mod task;

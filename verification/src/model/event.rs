//! A single request unit.

use crate::model::action::Action;
use vstd::prelude::*;

verus! {

/// An action that came in from an agent of the coordination infrastructure.
pub struct Event {
    pub action: Action,
}

impl Event {
    /// The event that asks for `action`.
    pub fn new(action: Action) -> (res: Self)
        ensures
            res.action == action,
    {
        Self { action }
    }
}

} // verus!

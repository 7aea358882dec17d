//! The requests that a client can make of the blackboard.

use crate::text::same_text;
use vstd::prelude::*;
use vstd::std_specs::cmp::PartialEqSpecImpl;

verus! {

/// One primitive with the token it is about.
#[derive(Debug)]
pub enum Action {
    Tell(String),
    Ask(String),
    Nask(String),
    Get(String),
}

impl Action {
    /// The token that the action carries, by its characters.
    pub open spec fn token(self) -> Seq<char> {
        match self {
            Action::Tell(token) => token@,
            Action::Ask(token) => token@,
            Action::Nask(token) => token@,
            Action::Get(token) => token@,
        }
    }

    /// Two actions are the same where they are the same primitive on the same
    /// token.
    pub open spec fn same_as(self, other: Action) -> bool {
        match (self, other) {
            (Action::Tell(a), Action::Tell(b)) => a@ == b@,
            (Action::Ask(a), Action::Ask(b)) => a@ == b@,
            (Action::Nask(a), Action::Nask(b)) => a@ == b@,
            (Action::Get(a), Action::Get(b)) => a@ == b@,
            _ => false,
        }
    }
}

impl PartialEq for Action {
    fn eq(&self, other: &Self) -> (res: bool) {
        match (self, other) {
            (Action::Tell(a), Action::Tell(b)) => same_text(a.as_str(), b.as_str()),
            (Action::Ask(a), Action::Ask(b)) => same_text(a.as_str(), b.as_str()),
            (Action::Nask(a), Action::Nask(b)) => same_text(a.as_str(), b.as_str()),
            (Action::Get(a), Action::Get(b)) => same_text(a.as_str(), b.as_str()),
            _ => false,
        }
    }
}

impl PartialEqSpecImpl for Action {
    open spec fn obeys_eq_spec() -> bool {
        true
    }

    open spec fn eq_spec(&self, other: &Self) -> bool {
        self.same_as(*other)
    }
}

} // verus!

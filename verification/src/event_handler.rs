//! The dispatcher from events to store operations.

use crate::model::action::Action;
use crate::model::event::Event;
use crate::occurrences::{after_get, after_tell, ask_answer, nask_answer};
use crate::store::StoreTrait;
use vstd::prelude::*;

verus! {

impl Action {
    /// The answer to the action in the store `m`.
    pub open spec fn answer_in(self, m: Map<Seq<char>, u32>) -> bool {
        match self {
            Action::Tell(_) => true,
            Action::Ask(token) => ask_answer(m, token@),
            Action::Nask(token) => nask_answer(m, token@),
            Action::Get(token) => ask_answer(m, token@),
        }
    }

    /// The store `m` after the action.
    pub open spec fn effect_on(self, m: Map<Seq<char>, u32>) -> Map<Seq<char>, u32> {
        match self {
            Action::Tell(token) => after_tell(m, token@),
            Action::Ask(_) => m,
            Action::Nask(_) => m,
            Action::Get(token) => after_get(m, token@),
        }
    }
}

/// Applies the action of `e` to the store and gives the store's answer.
pub fn handle_event<S: StoreTrait>(s: &mut S, e: Event) -> (res: bool)
    ensures
        res == e.action.answer_in(old(s).counts()),
        final(s).counts() == e.action.effect_on(old(s).counts()),
{
    match e.action {
        Action::Tell(token) => s.tell(token),
        Action::Ask(token) => s.ask(token.as_str()),
        Action::Nask(token) => s.nask(token.as_str()),
        Action::Get(token) => s.get(token),
    }
}

/// What the worker needs of an event handler.
pub trait EventHandlerTrait {
    /// Applies the action of `e` to `store` and gives the store's answer.
    fn handle_event<S: StoreTrait>(&self, store: &mut S, e: &Event) -> (res: bool)
        ensures
            res == e.action.answer_in(old(store).counts()),
            final(store).counts() == e.action.effect_on(old(store).counts()),
    ;
}

/// The handler that has no state of its own.
pub struct EventHandler;

impl EventHandler {
    /// A handler.
    pub fn new() -> (res: Self) {
        EventHandler
    }
}

impl EventHandlerTrait for EventHandler {
    fn handle_event<S: StoreTrait>(&self, store: &mut S, e: &Event) -> (res: bool) {
        match &e.action {
            Action::Tell(token) => store.tell(token.clone()),
            Action::Ask(token) => store.ask(token.as_str()),
            Action::Nask(token) => store.nask(token.as_str()),
            Action::Get(token) => store.get(token.clone()),
        }
    }
}

} // verus!

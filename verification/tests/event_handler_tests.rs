use bacht::event_handler::{handle_event, EventHandler, EventHandlerTrait};
use bacht::model::action::Action::{Ask, Get, Nask, Tell};
use bacht::model::event::Event;
use bacht::store::{Store, StoreTrait};

fn with_data(token: &str, count: u32) -> Store {
    Store::new_with_data(vec![(token.into(), count)])
}

#[test]
fn event_handler_should_handle_tell_event() {
    let mut store = Store::new();
    let event = Event::new(Tell("token".into()));
    assert!(handle_event(&mut store, event));
    assert_eq!(store.occurrences("token"), Some(1));
}

#[test]
fn event_handler_should_handle_get_event() {
    let mut store = with_data("token", 1);
    let event = Event::new(Get("token".into()));
    assert!(handle_event(&mut store, event));
    assert_eq!(store.occurrences("token"), Some(0));
}

#[test]
fn event_handler_should_handle_ask_event() {
    let mut store = with_data("token", 1);
    let event = Event::new(Ask("token".into()));
    assert!(handle_event(&mut store, event));
    assert_eq!(store.occurrences("token"), Some(1));
}

#[test]
fn event_handler_should_handle_nask_event() {
    let mut store = Store::new();
    let event = Event::new(Nask("token".into()));
    assert!(handle_event(&mut store, event));
    assert!(store.is_empty());
}

#[test]
fn handle_event_acts_on_a_real_store() {
    let mut store = Store::new();
    assert!(!handle_event(&mut store, Event::new(Ask("token".into()))));
    assert!(handle_event(&mut store, Event::new(Nask("token".into()))));
    assert!(!handle_event(&mut store, Event::new(Get("token".into()))));
    assert!(handle_event(&mut store, Event::new(Tell("token".into()))));
    assert_eq!(store.occurrences("token"), Some(1));
    assert!(handle_event(&mut store, Event::new(Ask("token".into()))));
    assert!(!handle_event(&mut store, Event::new(Nask("token".into()))));
    assert!(handle_event(&mut store, Event::new(Get("token".into()))));
    assert_eq!(store.occurrences("token"), Some(0));
    assert!(!handle_event(&mut store, Event::new(Get("token".into()))));
}

#[test]
fn the_handler_keeps_the_event_it_was_lent() {
    let handler = EventHandler::new();
    let mut store = Store::new();
    let told = Event::new(Tell("token".into()));
    assert!(handler.handle_event(&mut store, &told));
    assert!(handler.handle_event(&mut store, &told));
    assert_eq!(told.action, Tell("token".into()));
    assert_eq!(store.occurrences("token"), Some(2));
    let taken = Event::new(Get("token".into()));
    assert!(handler.handle_event(&mut store, &taken));
    assert!(handler.handle_event(&mut store, &taken));
    assert!(!handler.handle_event(&mut store, &taken));
    assert!(handler.handle_event(&mut store, &Event::new(Nask("token".into()))));
    assert!(!handler.handle_event(&mut store, &Event::new(Ask("token".into()))));
}

#[test]
fn actions_are_equal_by_primitive_and_token() {
    assert_eq!(Tell("token".into()), Tell("token".into()));
    assert_ne!(Tell("token".into()), Tell("other".into()));
    assert_ne!(Tell("token".into()), Ask("token".into()));
    assert_ne!(Get("token".into()), Nask("token".into()));
    assert_eq!(Nask("".into()), Nask("".into()));
    assert_ne!(Ask("token".into()), Ask("toke".into()));
    assert_ne!(Ask("tokeN".into()), Ask("token".into()));
}

// The handler as the worker holds it.

#[test]
fn event_handler_event_handler_should_handle_tell_event() {
    let mut store = Store::new();
    let event = Event::new(Tell("token".into()));
    assert!(EventHandler::new().handle_event(&mut store, &event));
    assert_eq!(store.occurrences("token"), Some(1));
}

#[test]
fn event_handler_event_handler_should_handle_get_event() {
    let mut store = with_data("token", 1);
    let event = Event::new(Get("token".into()));
    assert!(EventHandler::new().handle_event(&mut store, &event));
    assert_eq!(store.occurrences("token"), Some(0));
}

#[test]
fn event_handler_event_handler_should_handle_ask_event() {
    let mut store = with_data("token", 1);
    let event = Event::new(Ask("token".into()));
    assert!(EventHandler::new().handle_event(&mut store, &event));
    assert_eq!(store.occurrences("token"), Some(1));
}

#[test]
fn event_handler_event_handler_should_handle_nask_event() {
    let mut store = Store::new();
    let event = Event::new(Nask("token".into()));
    assert!(EventHandler::new().handle_event(&mut store, &event));
    assert!(store.is_empty());
}

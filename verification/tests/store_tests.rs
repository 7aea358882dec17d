use bacht::store::{Store, StoreTrait};

fn with_data(token: &str, count: u32) -> Store {
    Store::new_with_data(vec![(token.into(), count)])
}

// tell section

#[test]
fn store_the_store_should_be_able_to_tell_whatever_its_data_state() {
    let mut clear_store = Store::new(); // empty store
    let mut used_store = with_data("token", 1); // store with data

    let res_without_data = clear_store.tell("token".into());
    let res_with_data = used_store.tell("token".into());
    assert!(res_without_data);
    assert!(res_with_data);
}

#[test]
fn store_the_store_should_add_a_new_token_when_tell_if_doesnt_exists() {
    let mut store = Store::new();
    let res = store.tell("token".into());
    assert!(res);
    assert!(store.occurrences("token").is_some());
    assert_eq!(store.occurrences("token"), Some(1));
}

#[test]
fn store_the_store_should_increment_token_when_tell_if_it_exists() {
    let mut store = with_data("token", 1);
    let res = store.tell("token".into());
    assert!(res);
    assert!(store.occurrences("token").unwrap() == 2);
}

#[test]
fn store_the_store_should_not_allow_max_occurrence_overflow() {
    let mut store = with_data("token", u32::MAX);
    let res = store.tell("token".into());
    assert!(res);
    assert!(store.occurrences("token").unwrap() == u32::MAX);
}

// ask section

#[test]
fn store_the_store_should_be_able_to_ask_if_one_or_more_occurrence_of_token() {
    let mut store = with_data("token", 1);
    let res = store.ask("token");
    assert!(res);
    assert!(store.occurrences("token").unwrap() == 1);
}

#[test]
fn store_the_store_should_not_be_able_to_ask_if_zero_occurrence_of_token() {
    let mut store = with_data("token", 0);
    let res = store.ask("token");
    assert!(!res);
    assert!(store.occurrences("token").unwrap() == 0);
}

#[test]
fn store_the_store_should_not_be_able_to_ask_if_no_occurrence_of_token() {
    let mut store = Store::new();
    let res = store.ask("token");
    assert!(!res);
    assert!(store.occurrences("token").is_none());
}

// get section

#[test]
fn store_the_store_should_be_able_to_get_one_occurrence_of_token() {
    let mut store = with_data("token", 1);
    let res = store.get("token".into());
    assert!(res);
    assert!(store.occurrences("token").unwrap() == 0);
}

#[test]
fn store_the_store_should_not_be_able_to_get_if_zero_occurrence_of_token() {
    let mut store = with_data("token", 0);
    let res = store.get("token".into());
    assert!(!res);
    assert!(store.occurrences("token").unwrap() == 0);
}

#[test]
fn store_the_store_should_not_be_able_to_get_if_no_occurrence_of_token() {
    let mut store = Store::new();
    let res = store.get("token".into());
    assert!(!res);
}

// nask section

#[test]
fn store_the_store_should_be_able_to_nask_if_zero_occurrence_of_token() {
    let mut store = with_data("token", 0);
    let res = store.nask("token");
    assert!(res);
    assert!(store.occurrences("token").unwrap() == 0);
}

#[test]
fn store_the_store_should_be_able_to_nask_if_no_occurrence_of_token() {
    let mut store = Store::new();
    let res = store.nask("token");
    assert!(res);
    assert!(store.occurrences("token").is_none());
}

#[test]
fn store_the_store_should_not_be_able_to_nask_if_one_or_more_occurrence_of_token() {
    let mut store = with_data("token", 1);
    let res = store.nask("token");
    assert!(!res);
    assert!(store.occurrences("token").unwrap() == 1);
}

// clear_store section

#[test]
fn store_the_store_should_be_able_to_clear_its_data() {
    let mut store = with_data("token", 1);
    store.clear_store();
    assert!(store.is_empty());
}

// The laws of the store, on chosen values.

#[test]
fn store_tell_then_ask_answers_true() {
    for start in [0u32, 1, 7, u32::MAX - 1, u32::MAX] {
        let mut store = with_data("other", start);
        assert!(store.tell("token".into()));
        assert!(store.ask("token"));
        assert!(!store.nask("token"));
        let mut known = with_data("token", start);
        assert!(known.tell("token".into()));
        assert!(known.ask("token"));
    }
}

#[test]
fn store_get_on_an_empty_store_makes_no_key() {
    let mut store = Store::new();
    assert!(!store.get("token".into()));
    assert!(store.is_empty());
    assert_eq!(store.occurrences("token"), None);
}

#[test]
fn store_tells_then_gets_leave_the_difference() {
    let mut store = Store::new();
    for _ in 0..5 {
        assert!(store.tell("token".into()));
    }
    for _ in 0..3 {
        assert!(store.get("token".into()));
    }
    assert_eq!(store.occurrences("token"), Some(2));
    assert!(store.ask("token"));
    assert!(!store.nask("token"));
    for _ in 0..2 {
        assert!(store.get("token".into()));
    }
    assert_eq!(store.occurrences("token"), Some(0));
    assert!(!store.ask("token"));
    assert!(store.nask("token"));
    assert!(!store.get("token".into()));
    assert_eq!(store.occurrences("token"), Some(0));
}

#[test]
fn store_tell_saturates_at_the_ceiling() {
    let mut store = with_data("token", u32::MAX - 2);
    for expected in [u32::MAX - 1, u32::MAX, u32::MAX, u32::MAX] {
        assert!(store.tell("token".into()));
        assert_eq!(store.occurrences("token"), Some(expected));
    }
    assert!(store.get("token".into()));
    assert_eq!(store.occurrences("token"), Some(u32::MAX - 1));
}

#[test]
fn store_clear_leaves_no_token_to_ask() {
    let mut store = Store::new_with_data(vec![
        ("tameImpala".into(), 5),
        ("daftPunk".into(), u32::MAX),
        ("gorillaz".into(), 0),
    ]);
    store.clear_store();
    for token in ["tameImpala", "daftPunk", "gorillaz", "token"] {
        assert!(!store.ask(token));
        assert!(store.nask(token));
        assert_eq!(store.occurrences(token), None);
    }
}

#[test]
fn store_tell_on_a_key_with_count_zero_raises_it_to_one() {
    let mut store = with_data("token", 0);
    assert!(store.tell("token".into()));
    assert_eq!(store.occurrences("token"), Some(1));
}

#[test]
fn store_new_with_data_keeps_the_later_of_two_pairs() {
    let store = Store::new_with_data(vec![("token".into(), 1), ("other".into(), 4), ("token".into(), 9)]);
    assert_eq!(store.occurrences("token"), Some(9));
    assert_eq!(store.occurrences("other"), Some(4));
    assert!(!store.is_empty());
}

#[test]
fn store_safe_inc_stops_at_the_largest_count() {
    assert_eq!(Store::safe_inc(0), 1);
    assert_eq!(Store::safe_inc(41), 42);
    assert_eq!(Store::safe_inc(u32::MAX - 1), u32::MAX);
    assert_eq!(Store::safe_inc(u32::MAX), u32::MAX);
}

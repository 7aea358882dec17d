use bacht::model::action::Action::{Ask, Tell};
use bacht::model::error::TaskError::UnspecifiedError;
use bacht::model::event::Event;
use bacht::model::task::Task;
use bacht::task_queue::TaskQueue;

// Test add event

#[test]
fn queue_should_add_event_when_function_called() {
    let mut task_queue = TaskQueue::new();
    let event = Event::new(Tell("token".into()));

    let _rx = task_queue.add_event_to_queue(event);

    assert_eq!(task_queue.len(), 1);
    assert_eq!(task_queue.task_queue.len(), 1);
}

#[test]
fn queue_should_add_even_if_queue_is_filled() {
    let mut queue: Vec<Task> = Vec::new();
    // [0;100[
    for i in 0..100 {
        let event = Event::new(Tell(format!("token{:?}", i)));
        let (task, _) = Task::new(event);
        queue.push(task);
    }
    let mut task_queue = TaskQueue::new_with(queue);
    let event = Event::new(Tell("token".into()));
    let _rx = task_queue.add_event_to_queue(event);
    assert_eq!(task_queue.len(), 101);
    // The list is served from its tail: the task pushed last leaves first, and
    // the one that was put in by the queue itself leaves last.
    assert_eq!(task_queue.get_task().unwrap().event.action, Tell("token99".into()));
    for _ in 0..99 {
        assert!(task_queue.get_task().is_some());
    }
    assert_eq!(task_queue.get_task().unwrap().event.action, Tell("token".into()));
    assert!(task_queue.get_task().is_none());
}

// Test get task

#[test]
fn queue_should_allow_getting_task() {
    let (task, _) = Task::new(Event::new(Tell("token".into())));
    let mut task_queue = TaskQueue::new_with(vec![task]);

    let task_from_queue = task_queue.get_task();

    assert!(task_from_queue.is_some(), "Task should not be None");
    match task_from_queue.unwrap().event.action {
        Tell(t) => {
            assert_eq!(t, "token", "The token should be the same as the one added");
        }
        _ => {
            assert!(false, "Should be an Tell action");
        }
    }
}

#[test]
fn queue_should_return_none_if_no_task() {
    let mut task_queue = TaskQueue::new_with(Vec::new());

    let task_from_queue = task_queue.get_task();

    assert!(task_from_queue.is_none(), "Task should be None");
    assert_eq!(task_queue.len(), 0);
}

#[test]
fn queue_should_respect_fifo_policy() {
    let mut task_queue = TaskQueue::new();
    let event1 = Event::new(Tell("token1".into()));
    let event2 = Event::new(Tell("token2".into()));

    let _rx1 = task_queue.add_event_to_queue(event1);
    let _rx2 = task_queue.add_event_to_queue(event2);

    let task1 = task_queue.get_task();
    let task2 = task_queue.get_task();

    assert!(task1.is_some(), "Task 1 should not be None");
    assert!(task2.is_some(), "Task 2 should not be None");
    match task1.unwrap().event.action {
        Tell(t) => {
            assert_eq!(t, "token1", "Task 1 should be the first one added");
        }
        _ => {
            assert!(false, "Should be an Tell action");
        }
    }
    match task2.unwrap().event.action {
        Tell(t) => {
            assert_eq!(t, "token2", "Task 2 should be the second one added");
        }
        _ => {
            assert!(false, "Should be an Tell action");
        }
    }
}

#[test]
fn queue_gives_many_events_back_in_the_order_they_came() {
    let mut task_queue = TaskQueue::new();
    let mut receivers = Vec::new();
    for i in 0..50 {
        receivers.push(task_queue.add_event_to_queue(Event::new(Ask(format!("t{}", i)))));
        if i % 3 == 2 {
            let first = task_queue.get_task().unwrap();
            assert_eq!(first.event.action, Ask(format!("t{}", i / 3)));
        }
    }
    let mut next = 16;
    while let Some(task) = task_queue.get_task() {
        assert_eq!(task.event.action, Ask(format!("t{}", next)));
        next += 1;
    }
    assert_eq!(next, 50);
    assert_eq!(task_queue.len(), 0);
}

#[test]
fn queue_should_add_even_if_no_one_wait_notify() {
    let mut task_queue = TaskQueue::new();
    let event = Event::new(Tell("token".into()));

    let _rx = task_queue.add_event_to_queue(event);

    assert_eq!(task_queue.len(), 1);
}

// Test channel

#[test]
fn queue_should_allow_sending_result_back() {
    let mut task_queue = TaskQueue::new();
    let event = Event::new(Tell("token".into()));

    let rx = task_queue.add_event_to_queue(event);

    // The worker's part: take the task and send the result back.
    let task = task_queue.get_task().unwrap();
    assert!(task.res_chanel.send(Ok(true)).is_ok());

    let result = rx.blocking_recv();
    assert!(result.is_ok(), "Receiver should not be dropped");
    assert_eq!(result.unwrap(), Ok(true));
}

#[test]
fn queue_should_allow_sending_error() {
    let mut task_queue = TaskQueue::new();
    let event = Event::new(Tell("token".into()));

    let rx = task_queue.add_event_to_queue(event);

    let task = task_queue.get_task().unwrap();
    assert!(task.res_chanel.send(Err(UnspecifiedError)).is_ok());

    let result_chanel = rx.blocking_recv();
    let result = result_chanel.unwrap();
    assert!(result.is_err(), "Receiver should successfully receive an error");
    assert_eq!(result, Err(UnspecifiedError));
}

#[test]
fn queue_should_handle_channel_communication_failure() {
    let mut task_queue = TaskQueue::new();
    let event = Event::new(Tell("token".into()));

    let rx = task_queue.add_event_to_queue(event);

    let task = task_queue.get_task().unwrap();
    // Drop the sending end to simulate a communication failure
    drop(task.res_chanel);

    let result = rx.blocking_recv();
    assert!(result.is_err(), "Receiver should be dropped");
}

#[test]
fn each_task_answers_on_its_own_channel() {
    let mut task_queue = TaskQueue::new();
    let mut rx1 = task_queue.add_event_to_queue(Event::new(Tell("token1".into())));
    let mut rx2 = task_queue.add_event_to_queue(Event::new(Tell("token2".into())));
    let first = task_queue.get_task().unwrap();
    assert!(first.res_chanel.send(Ok(false)).is_ok());
    assert_eq!(rx1.try_recv(), Ok(Ok(false)));
    assert!(rx2.try_recv().is_err());
    let second = task_queue.get_task().unwrap();
    assert!(second.res_chanel.send(Ok(true)).is_ok());
    assert_eq!(rx2.try_recv(), Ok(Ok(true)));
}

#[test]
fn a_new_task_holds_its_event() {
    let (task, _rx) = Task::new(Event::new(Ask("token".into())));
    assert_eq!(task.event.action, Ask("token".into()));
    let event = Event::new(Tell("other".into()));
    assert_eq!(event.action, Tell("other".into()));
}

#[test]
fn task_queue_queue_should_add_event_when_function_called() {
    let mut task_queue = TaskQueue::new();
    assert_eq!(task_queue.len(), 0);
    let event = Event::new(Tell("token".into()));

    let _rx = task_queue.add_event_to_queue(event);

    assert_eq!(task_queue.len(), 1);
    assert_eq!(task_queue.task_queue[0].event.action, Tell("token".into()));
}

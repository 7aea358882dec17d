use bacht::blackboard::resolve_reply;
use bacht::event_handler::EventHandler;
use bacht::model::action::Action::{Ask, Get, Nask, Tell};
use bacht::model::error::{CLIError, TaskError};
use bacht::model::event::Event;
use bacht::store::{Store, StoreTrait};
use bacht::task_queue::TaskQueue;
use bacht::model::task::Task;
use bacht::worker::{job_step, serve_task, JobAction, JobSignal};

#[test]
fn worker_should_process_task_from_queue() {
    let mut task_queue = TaskQueue::new();
    let rx = task_queue.add_event_to_queue(Event::new(Tell("token".into())));
    let mut store = Store::new();
    let handler = EventHandler::new();

    let action = job_step(&mut store, &mut task_queue, &handler, JobSignal::Begin);
    assert_eq!(action, JobAction::ReadStopFlag { answer: true, delivered: true });
    assert_eq!(resolve_reply(rx.blocking_recv()), Ok(true));
    assert_eq!(store.occurrences("token"), Some(1));

    // The queue is empty now: the worker waits and has not finished.
    let action = job_step(&mut store, &mut task_queue, &handler, JobSignal::StopFlag(false));
    assert_eq!(action, JobAction::AwaitNotification);
}

#[test]
fn worker_should_process_tell_action() {
    let mut task_queue = TaskQueue::new();
    let rx = task_queue.add_event_to_queue(Event::new(Tell("token".into())));
    let mut store = Store::new();
    let handler = EventHandler::new();
    job_step(&mut store, &mut task_queue, &handler, JobSignal::Begin);
    match rx.blocking_recv() {
        Ok(result_worker) => match result_worker {
            Ok(result) => assert!(result, "Worker should successfully process the task"),
            Err(_) => panic!("Task should be processed successfully"),
        },
        Err(_) => panic!("Channel should not be dropped"),
    }
    assert!(store.ask("token"));
}

#[test]
fn worker_should_process_action_with_positive_result() {
    let mut task_queue = TaskQueue::new();
    let rx = task_queue.add_event_to_queue(Event::new(Get("token".into())));
    let mut store = Store::new_with_data(vec![("token".into(), 1)]);
    let handler = EventHandler::new();
    let action = job_step(&mut store, &mut task_queue, &handler, JobSignal::Woken(false));
    assert_eq!(action, JobAction::ReadStopFlag { answer: true, delivered: true });
    assert_eq!(rx.blocking_recv().unwrap(), Ok(true));
    assert_eq!(store.occurrences("token"), Some(0));
}

#[test]
fn worker_should_process_action_with_negative_result() {
    let mut task_queue = TaskQueue::new();
    let rx = task_queue.add_event_to_queue(Event::new(Ask("token".into())));
    let mut store = Store::new();
    let handler = EventHandler::new();
    let action = job_step(&mut store, &mut task_queue, &handler, JobSignal::Begin);
    assert_eq!(action, JobAction::ReadStopFlag { answer: false, delivered: true });
    assert_eq!(rx.blocking_recv().unwrap(), Ok(false));
    assert!(store.is_empty());
}

#[test]
fn worker_should_handle_empty_queue() {
    let mut task_queue = TaskQueue::new();
    let mut store = Store::new();
    let handler = EventHandler::new();
    for signal in [JobSignal::Begin, JobSignal::StopFlag(false), JobSignal::Woken(false)] {
        let action = job_step(&mut store, &mut task_queue, &handler, signal);
        assert_eq!(action, JobAction::AwaitNotification);
    }
    assert!(store.is_empty());
    assert_eq!(task_queue.len(), 0);
}

#[test]
fn worker_serves_the_tasks_in_the_order_they_came() {
    let mut task_queue = TaskQueue::new();
    let rx1 = task_queue.add_event_to_queue(Event::new(Get("token".into())));
    let rx2 = task_queue.add_event_to_queue(Event::new(Tell("token".into())));
    let rx3 = task_queue.add_event_to_queue(Event::new(Get("token".into())));
    let rx4 = task_queue.add_event_to_queue(Event::new(Nask("token".into())));
    let mut store = Store::new();
    let handler = EventHandler::new();
    let mut signal = JobSignal::Begin;
    let mut served = 0;
    loop {
        match job_step(&mut store, &mut task_queue, &handler, signal) {
            JobAction::ReadStopFlag { delivered, .. } => {
                assert!(delivered);
                served += 1;
                signal = JobSignal::StopFlag(false);
            }
            JobAction::AwaitNotification => break,
            other => panic!("the worker stopped without a stop flag: {:?}", other),
        }
    }
    assert_eq!(served, 4);
    assert_eq!(rx1.blocking_recv().unwrap(), Ok(false));
    assert_eq!(rx2.blocking_recv().unwrap(), Ok(true));
    assert_eq!(rx3.blocking_recv().unwrap(), Ok(true));
    assert_eq!(rx4.blocking_recv().unwrap(), Ok(true));
    assert_eq!(store.occurrences("token"), Some(0));
}

#[test]
fn a_set_stop_flag_ends_the_loop_and_leaves_the_waiting_tasks() {
    let mut task_queue = TaskQueue::new();
    let rx1 = task_queue.add_event_to_queue(Event::new(Tell("token".into())));
    let rx2 = task_queue.add_event_to_queue(Event::new(Tell("token".into())));
    let mut store = Store::new();
    let handler = EventHandler::new();

    // The task in flight is served to its end before the flag is looked at.
    let action = job_step(&mut store, &mut task_queue, &handler, JobSignal::Begin);
    assert_eq!(action, JobAction::ReadStopFlag { answer: true, delivered: true });
    assert_eq!(resolve_reply(rx1.blocking_recv()), Ok(true));

    let action = job_step(&mut store, &mut task_queue, &handler, JobSignal::StopFlag(true));
    assert_eq!(action, JobAction::Stop);
    assert_eq!(task_queue.len(), 1);
    assert_eq!(store.occurrences("token"), Some(1));

    // The task that was left is dropped with the queue, and its client learns
    // that from the channel.
    drop(task_queue);
    assert_eq!(resolve_reply(rx2.blocking_recv()), Err(TaskError::ChannelError));
}

#[test]
fn a_worker_that_wakes_up_to_a_set_stop_flag_passes_the_news_on() {
    let mut task_queue = TaskQueue::new();
    let _rx = task_queue.add_event_to_queue(Event::new(Tell("token".into())));
    let mut store = Store::new();
    let handler = EventHandler::new();
    let action = job_step(&mut store, &mut task_queue, &handler, JobSignal::Woken(true));
    assert_eq!(action, JobAction::CancelNotificationAndStop);
    assert_eq!(task_queue.len(), 1);
    assert!(store.is_empty());
}

#[test]
fn a_reply_that_nobody_waits_for_is_lost_and_the_store_keeps_the_change() {
    let mut task_queue = TaskQueue::new();
    let rx = task_queue.add_event_to_queue(Event::new(Tell("token".into())));
    drop(rx);
    let mut store = Store::new();
    let handler = EventHandler::new();
    let action = job_step(&mut store, &mut task_queue, &handler, JobSignal::Begin);
    assert_eq!(action, JobAction::ReadStopFlag { answer: true, delivered: false });
    assert_eq!(store.occurrences("token"), Some(1));
}

// What a client makes of the end of its request.

#[test]
fn blackboard_should_process_ok_event() {
    let (tx1, rx1) = tokio::sync::oneshot::channel::<Result<bool, TaskError>>();
    let (tx2, rx2) = tokio::sync::oneshot::channel::<Result<bool, TaskError>>();
    assert!(tx1.send(Ok(true)).is_ok());
    assert!(tx2.send(Ok(false)).is_ok());
    match resolve_reply(rx1.blocking_recv()) {
        Ok(res) => assert!(res),
        Err(_) => panic!("Error while sending event"),
    }
    match resolve_reply(rx2.blocking_recv()) {
        Ok(res) => assert!(!res),
        Err(_) => panic!("Error while sending event"),
    }
}

#[test]
fn blackboard_should_handle_err_event() {
    let (tx, rx) = tokio::sync::oneshot::channel::<Result<bool, TaskError>>();
    let send_result = tx.send(Err(TaskError::UnspecifiedError));
    assert!(send_result.is_ok());
    match resolve_reply(rx.blocking_recv()) {
        Ok(res) => panic!("Expected an error, but got: {}", res),
        Err(err) => {
            assert!(matches!(err, TaskError::UnspecifiedError), "Expected an unspecified error")
        }
    }
}

#[test]
fn blackboard_should_handle_err_channel() {
    let (tx, rx) = tokio::sync::oneshot::channel::<Result<bool, TaskError>>();
    drop(tx); // Simulate the channel being closed
    match resolve_reply(rx.blocking_recv()) {
        Ok(res) => panic!("Expected an error, but got: {}", res),
        Err(err) => assert!(matches!(err, TaskError::ChannelError), "Expected a channel error"),
    }
}

#[test]
fn a_request_without_an_answer_is_a_communication_error() {
    assert_eq!(TaskError::ChannelError.message(), "channel error");
    assert_eq!(TaskError::UnspecifiedError.message(), "unspecified error");
    match CLIError::from_task_error(TaskError::ChannelError) {
        CLIError::CommuncationError(words) => assert_eq!(words, "channel error"),
        other => panic!("expected a communication error, got {:?}", other),
    }
    match CLIError::from_task_error(TaskError::UnspecifiedError) {
        CLIError::CommuncationError(words) => assert_eq!(words, "unspecified error"),
        other => panic!("expected a communication error, got {:?}", other),
    }
}

#[test]
fn a_served_task_is_answered_on_its_own_channel() {
    let mut store = Store::new_with_data(vec![("token".into(), 1)]);
    let handler = EventHandler::new();
    let (first, mut rx1) = Task::new(Event::new(Get("token".into())));
    let (second, mut rx2) = Task::new(Event::new(Get("token".into())));

    let reply = serve_task(&mut store, &handler, first);
    assert_eq!(reply.answer, Ok(true));
    assert_eq!(store.occurrences("token"), Some(0));
    // Nothing has gone back yet: the reply is to be sent by whoever holds it.
    assert!(rx1.try_recv().is_err());
    assert!(reply.chanel.send(reply.answer).is_ok());
    assert_eq!(rx1.try_recv(), Ok(Ok(true)));
    assert!(rx2.try_recv().is_err());

    let reply = serve_task(&mut store, &handler, second);
    assert_eq!(reply.answer, Ok(false));
    assert!(reply.chanel.send(reply.answer).is_ok());
    assert_eq!(rx2.try_recv(), Ok(Ok(false)));
    assert_eq!(store.occurrences("token"), Some(0));
}

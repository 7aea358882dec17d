//! The decisions of the worker, the one consumer of the task queue.
//!
//! The worker's loop waits in two places: for the stop flag and for news of a
//! task. What it decides between two waits is one call of [`job_step`]; the
//! caller does the waiting and reports back with a [`JobSignal`].
//!
//! Serving a task is [`serve_task`]: it applies the event to the store and
//! says which answer goes back on which channel. The sending itself is a call
//! into the channel, of which nothing can be proved; `job_step` makes it with
//! exactly what `serve_task` gave.

use crate::event_handler::EventHandlerTrait;
use crate::model::error::TaskError;
use crate::model::task::{send_reply, Task};
use crate::store::StoreTrait;
use crate::task_queue::TaskQueue;
use tokio::sync::oneshot::Sender;
use vstd::prelude::*;

verus! {

/// What the caller of the worker's loop learned since the last step.
#[derive(Debug, PartialEq, Eq, Clone, Copy, Structural)]
pub enum JobSignal {
    /// The loop starts.
    Begin,
    /// The stop flag, read after a task was served.
    StopFlag(bool),
    /// News of a task came; the value is the stop flag, read after that.
    Woken(bool),
}

/// What the caller of the worker's loop has to do next.
#[derive(Debug, PartialEq, Eq, Clone, Copy, Structural)]
pub enum JobAction {
    /// A task was served with `answer`, and `delivered` says whether its
    /// receiving end was still there. Read the stop flag and report it as
    /// `StopFlag`.
    ReadStopFlag { answer: bool, delivered: bool },
    /// No task waits. Wait for news of one, read the stop flag and report it as
    /// `Woken`.
    AwaitNotification,
    /// The worker stops on waking up. Pass the news of a task on, for it was not
    /// used, and end the loop.
    CancelNotificationAndStop,
    /// The worker stops. End the loop.
    Stop,
}

impl JobSignal {
    /// After this signal the worker goes on to the next task: the loop starts,
    /// or the stop flag was not set.
    pub open spec fn goes_on(self) -> bool {
        match self {
            JobSignal::Begin => true,
            JobSignal::StopFlag(stop) => !stop,
            JobSignal::Woken(stop) => !stop,
        }
    }
}

/// The answer to a task, with the sending end of the channel on which it has
/// to go back.
pub struct Reply {
    pub chanel: Sender<Result<bool, TaskError>>,
    pub answer: Result<bool, TaskError>,
}

/// Serves `task`: applies its event to the store and gives the store's answer
/// as the reply, to be sent on the task's own channel.
pub fn serve_task<S: StoreTrait, E: EventHandlerTrait>(
    store: &mut S,
    event_handler: &E,
    task: Task,
) -> (reply: Reply)
    ensures
        reply.chanel == task.res_chanel,
        reply.answer == Ok::<bool, TaskError>(task.event.action.answer_in(old(store).counts())),
        final(store).counts() == task.event.action.effect_on(old(store).counts()),
{
    let answer = event_handler.handle_event(store, &task.event);
    Reply { chanel: task.res_chanel, answer: Ok(answer) }
}

/// One round of the worker's loop. Unless `signal` brings a set stop flag, the
/// oldest task is taken from the queue, its event is applied to the store and
/// the store's answer is sent on the task's channel. A set stop flag ends the
/// loop and leaves every waiting task where it is.
pub fn job_step<S: StoreTrait, E: EventHandlerTrait>(
    store: &mut S,
    task_queue: &mut TaskQueue,
    event_handler: &E,
    signal: JobSignal,
) -> (action: JobAction)
    ensures
        !signal.goes_on() ==> {
            &&& action == (if signal is Woken {
                JobAction::CancelNotificationAndStop
            } else {
                JobAction::Stop
            })
            &&& final(task_queue).pending() == old(task_queue).pending()
            &&& final(store).counts() == old(store).counts()
        },
        signal.goes_on() && old(task_queue).pending().len() == 0 ==> {
            &&& action == JobAction::AwaitNotification
            &&& final(task_queue).pending() == old(task_queue).pending()
            &&& final(store).counts() == old(store).counts()
        },
        signal.goes_on() && old(task_queue).pending().len() > 0 ==> {
            let served = old(task_queue).pending()[0].event.action;
            &&& action is ReadStopFlag
            &&& action->answer == served.answer_in(old(store).counts())
            &&& final(task_queue).pending() == old(task_queue).pending().skip(1)
            &&& final(store).counts() == served.effect_on(old(store).counts())
        },
{
    let stop = match signal {
        JobSignal::Begin => false,
        JobSignal::StopFlag(stop) => stop,
        JobSignal::Woken(stop) => stop,
    };
    if stop {
        return match signal {
            JobSignal::Woken(_) => JobAction::CancelNotificationAndStop,
            _ => JobAction::Stop,
        };
    }
    match task_queue.get_task() {
        Some(task) => {
            let reply = serve_task(store, event_handler, task);
            let answer = match reply.answer {
                Ok(answer) => answer,
                Err(_) => false,
            };
            let delivered = send_reply(reply.chanel, reply.answer);
            JobAction::ReadStopFlag { answer, delivered }
        },
        None => JobAction::AwaitNotification,
    }
}

} // verus!

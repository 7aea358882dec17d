//! A request on its way to the worker, with the channel for its answer.

use crate::model::error::TaskError;
use crate::model::event::Event;
use tokio::sync::oneshot::error::RecvError;
use tokio::sync::oneshot::{Receiver, Sender};
use vstd::prelude::*;

verus! {

/// `tokio::sync::oneshot::Sender`, the sending end of a channel for one value.
/// Its inside is hidden: a value of it is only handed on.
#[verifier::external_type_specification]
#[verifier::external_body]
#[verifier::reject_recursive_types(T)]
pub struct ExSender<T>(Sender<T>);

/// `tokio::sync::oneshot::Receiver`, the receiving end of a channel for one
/// value. Its inside is hidden: a value of it is only handed on.
#[verifier::external_type_specification]
#[verifier::external_body]
#[verifier::reject_recursive_types(T)]
pub struct ExReceiver<T>(Receiver<T>);

/// `tokio::sync::oneshot::error::RecvError`, which a receiving end gives where
/// its channel was closed without a value. Its inside is hidden.
#[verifier::external_type_specification]
#[verifier::external_body]
pub struct ExRecvError(RecvError);

/// Calls `tokio::sync::oneshot::channel`, which makes a new channel for one
/// answer and gives its two ends. Nothing is claimed of them.
#[verifier::external_body]
fn reply_channel() -> (ends: (Sender<Result<bool, TaskError>>, Receiver<Result<bool, TaskError>>)) {
    tokio::sync::oneshot::channel()
}

/// Calls `tokio::sync::oneshot::Sender::send`, which uses up the sending end.
/// The outcome says whether the value was handed over; where it was not, the
/// receiving end is gone and the value is dropped. Nothing is claimed of the
/// outcome.
#[verifier::external_body]
pub(crate) fn send_reply(chanel: Sender<Result<bool, TaskError>>, answer: Result<bool, TaskError>) -> (delivered: bool) {
    chanel.send(answer).is_ok()
}

/// A unit of work for the worker: the event to handle and the sending end of
/// the channel on which the answer goes back.
pub struct Task {
    pub event: Event,
    pub res_chanel: Sender<Result<bool, TaskError>>,
}

impl Task {
    /// A task for `event`, with the receiving end of its answer channel.
    pub fn new(event: Event) -> (res: (Self, Receiver<Result<bool, TaskError>>))
        ensures
            res.0.event == event,
    {
        let (tx, rx) = reply_channel();
        (Self { event, res_chanel: tx }, rx)
    }
}

} // verus!

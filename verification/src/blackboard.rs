//! What a client of the blackboard makes of the end of a request.

use crate::model::error::TaskError;
use tokio::sync::oneshot::error::RecvError;
use vstd::prelude::*;

verus! {

/// The result of a request, from what came out of its answer channel: the
/// worker's answer where one came, and `ChannelError` where the channel was
/// closed without one.
pub fn resolve_reply(received: Result<Result<bool, TaskError>, RecvError>) -> (res: Result<
    bool,
    TaskError,
>)
    ensures
        res == (match received {
            Ok(answer) => answer,
            Err(_) => Err(TaskError::ChannelError),
        }),
{
    match received {
        Ok(answer) => answer,
        Err(_) => Err(TaskError::ChannelError),
    }
}

} // verus!

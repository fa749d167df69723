use crate::store::{done_post, fail_post, reschedules, MemoryStore};
use crate::task::InflightTask;
use crate::types::{Event, InvokedTaskResponse};
use vstd::prelude::*;

verus! {

/// The reply of an invocation as a response: a transport error, an error
/// status or a reply that does not parse is a retriable failure whose reason
/// is the error's text.
pub fn response_or_failure(reply: Result<InvokedTaskResponse, String>) -> (r: InvokedTaskResponse)
    ensures
        match reply {
            Ok(resp) => r == resp,
            Err(e) => r == (InvokedTaskResponse::Failure { reason: e, retriable: true }),
        },
{
    match reply {
        Ok(resp) => resp,
        Err(e) => InvokedTaskResponse::Failure { reason: e, retriable: true },
    }
}

/// Finalizes a claimed task with the response of its invocation: a success
/// archives it, a failure runs the retry state machine. Returns the event to
/// publish.
pub fn settle(task: InflightTask, store: &mut MemoryStore, now: i64, response: InvokedTaskResponse) -> (e: Event)
    requires
        old(store).wf(),
        match response {
            InvokedTaskResponse::Failure { retriable, .. } => reschedules(old(store)@, task.id, retriable),
            InvokedTaskResponse::Success {} => false,
        } ==> now + old(store)@.retry_delay <= i64::MAX,
    ensures
        final(store).wf(),
        match response {
            InvokedTaskResponse::Success {} => {
                &&& e == Event::TaskFinished
                &&& done_post(old(store)@, task.id, now as int, final(store)@)
            },
            InvokedTaskResponse::Failure { reason, retriable } => {
                &&& e == Event::TaskFailed
                &&& fail_post(old(store)@, task.id, now as int, reason@, retriable, final(store)@)
            },
        },
{
    match response {
        InvokedTaskResponse::Success {} => {
            task.done(store, now);
            Event::TaskFinished
        },
        InvokedTaskResponse::Failure { reason, retriable } => {
            task.failed(store, now, reason.as_str(), retriable);
            Event::TaskFailed
        },
    }
}

} // verus!

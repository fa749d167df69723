use vstd::prelude::*;

verus! {

/// What happens to a claimed task after a failed invocation.
#[derive(Debug, Clone, Copy, PartialEq, Eq, Structural)]
pub enum RetryStatus {
    /// Put back into the claimable pool with a later `run_at`.
    Retry,
    /// Retriable, but the retry budget is spent: archive with the failure.
    GiveUp,
    /// The remote handler marked the failure as not retriable: archive now.
    Bailed,
}

/// The decision of the retry state machine.
pub open spec fn spec_retry_status(retriable: bool, max_retries: int, retry_count: int) -> RetryStatus {
    if retriable && retry_count < max_retries {
        RetryStatus::Retry
    } else if retriable {
        RetryStatus::GiveUp
    } else {
        RetryStatus::Bailed
    }
}

/// Decides what a failure does to a task that has already been attempted
/// `retry_count` times and may be retried up to `max_retries` times.
pub fn retry_status(retriable: bool, max_retries: i32, retry_count: i32) -> (r: RetryStatus)
    ensures
        r == spec_retry_status(retriable, max_retries as int, retry_count as int),
{
    if retriable && max_retries > retry_count {
        RetryStatus::Retry
    } else if retriable {
        RetryStatus::GiveUp
    } else {
        RetryStatus::Bailed
    }
}

impl RetryStatus {
    pub open spec fn spec_label(self) -> Seq<char> {
        match self {
            RetryStatus::Retry => "retry"@,
            RetryStatus::GiveUp => "giving up"@,
            RetryStatus::Bailed => "bailed (not retriable)"@,
        }
    }

    /// The human-readable name of the status, as used in log lines.
    pub fn label(&self) -> (r: String)
        ensures
            r@ == self.spec_label(),
    {
        match self {
            RetryStatus::Retry => String::from_str("retry"),
            RetryStatus::GiveUp => String::from_str("giving up"),
            RetryStatus::Bailed => String::from_str("bailed (not retriable)"),
        }
    }
}

} // verus!

use vstd::prelude::*;

verus! {

/// The default of the `retriable` flag of a failure reply.
pub fn bool_true() -> (r: bool)
    ensures
        r,
{
    true
}

/// What the remote job handler replied to an invocation.
#[derive(Debug)]
pub enum InvokedTaskResponse {
    /// The job succeeded.
    Success {},
    /// The job failed.
    Failure {
        /// Why it failed.
        reason: String,
        /// Whether the task may be tried again.
        retriable: bool,
    },
}

/// Coarse lifecycle events, published best-effort for dashboards.
#[derive(Debug, Clone, Copy, PartialEq, Eq, Structural)]
pub enum Event {
    TaskEnqueued,
    TaskInvoked,
    TaskFailed,
    TaskFinished,
}

/// How log lines are printed.
#[derive(Debug, Clone, Copy, PartialEq, Eq, Structural)]
pub enum TracingFormat {
    /// Human-readable output.
    Pretty,
    /// Machine-readable output.
    Json,
}

impl TracingFormat {
    /// The default format: pretty in a debug build, JSON otherwise.
    pub fn default_for_build(debug_build: bool) -> (r: TracingFormat)
        ensures
            r == (if debug_build { TracingFormat::Pretty } else { TracingFormat::Json }),
    {
        if debug_build {
            TracingFormat::Pretty
        } else {
            TracingFormat::Json
        }
    }
}

} // verus!

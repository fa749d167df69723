use vstd::prelude::*;

verus! {

// Timestamps are microseconds since the Unix epoch; durations are microseconds.

/// A row of the working table: one task that is waiting, claimed, or
/// rescheduled after a failure.
pub struct TaskRow {
    pub id: i64,
    pub job_name: String,
    pub name: String,
    pub endpoint: String,
    /// The user payload, as JSON text, passed through verbatim.
    pub data: String,
    pub created_at: i64,
    pub updated_at: i64,
    /// The earliest time at which the task may be claimed.
    pub run_at: i64,
    pub retry_count: i32,
    pub max_retries: i32,
    /// The backoff applied when the task is rescheduled.
    pub retry_delay: i64,
    /// The identity of the worker connection holding the claim, if any.
    pub worker_id: Option<String>,
    /// When the current claim was taken, if any.
    pub started_at: Option<i64>,
}

/// A task as the dashboard lists it.
pub struct EnqueuedTask {
    pub id: i64,
    pub job_name: String,
    pub name: String,
    pub endpoint: String,
    pub created_at: i64,
    pub data: String,
    pub run_at: i64,
    pub retry_count: i32,
    pub max_retries: i32,
    pub worker_id: Option<String>,
}

/// A task that is claimed by a worker that is still live.
pub struct OngoingTask {
    pub id: i64,
    pub created_at: i64,
    pub job_name: String,
    pub data: String,
    pub endpoint: String,
    pub name: String,
    pub started_at: i64,
    pub worker_id: String,
    pub max_retries: i32,
    pub retry_count: i32,
}

/// The immutable archive record of a task that succeeded or failed for good.
/// `id` is the id the task had in the working table; `created_at` is the time
/// the record was archived.
pub struct FinishedTask {
    pub id: i64,
    pub job_name: String,
    pub name: String,
    pub endpoint: String,
    /// `None` on success, the failure reason otherwise.
    pub error_message: Option<String>,
    /// When the record was archived.
    pub created_at: i64,
    /// When the task itself was created.
    pub task_created_at: i64,
    pub started_at: i64,
    pub data: String,
    /// The number of retries made before the task was archived.
    pub retries: i32,
}

/// What a client asks to enqueue.
pub struct NewTask {
    pub job_name: String,
    pub data: String,
    pub endpoint: String,
    pub name: String,
    /// When to run; `None` means as soon as possible.
    pub run_at: Option<i64>,
    /// The retry budget; `None` means no retry.
    pub max_retries: Option<i32>,
}

/// The message published on the wake channel for a task that is due now.
#[derive(Debug, Clone, Copy, PartialEq, Eq, Structural)]
pub struct NewTaskPayload {
    pub id: i64,
    pub run_at: i64,
}

/// A task claimed by a worker. It is consumed by exactly one of
/// `InflightTask::done` or `InflightTask::failed`.
pub struct InflightTask {
    pub id: i64,
    pub job_name: String,
    pub data: String,
    pub endpoint: String,
    pub name: String,
    pub created_at: i64,
    pub max_retries: i32,
    pub retry_count: i32,
}

/// Options for a store connection.
pub struct DbOptions {
    pub schema: Option<String>,
}

impl TaskRow {
    pub fn clone_row(&self) -> (r: TaskRow)
        ensures
            r == *self,
    {
        TaskRow {
            id: self.id,
            job_name: self.job_name.clone(),
            name: self.name.clone(),
            endpoint: self.endpoint.clone(),
            data: self.data.clone(),
            created_at: self.created_at,
            updated_at: self.updated_at,
            run_at: self.run_at,
            retry_count: self.retry_count,
            max_retries: self.max_retries,
            retry_delay: self.retry_delay,
            worker_id: match &self.worker_id {
                Some(w) => Some(w.clone()),
                None => None,
            },
            started_at: self.started_at,
        }
    }

    /// The claim handle for this row.
    pub open spec fn spec_inflight(self) -> InflightTask {
        InflightTask {
            id: self.id,
            job_name: self.job_name,
            data: self.data,
            endpoint: self.endpoint,
            name: self.name,
            created_at: self.created_at,
            max_retries: self.max_retries,
            retry_count: self.retry_count,
        }
    }

    pub fn to_inflight(&self) -> (r: InflightTask)
        ensures
            r == self.spec_inflight(),
    {
        InflightTask {
            id: self.id,
            job_name: self.job_name.clone(),
            data: self.data.clone(),
            endpoint: self.endpoint.clone(),
            name: self.name.clone(),
            created_at: self.created_at,
            max_retries: self.max_retries,
            retry_count: self.retry_count,
        }
    }

    /// The row as the dashboard lists it.
    pub open spec fn spec_enqueued(self) -> EnqueuedTask {
        EnqueuedTask {
            id: self.id,
            job_name: self.job_name,
            name: self.name,
            endpoint: self.endpoint,
            created_at: self.created_at,
            data: self.data,
            run_at: self.run_at,
            retry_count: self.retry_count,
            max_retries: self.max_retries,
            worker_id: self.worker_id,
        }
    }

    pub fn to_enqueued(&self) -> (r: EnqueuedTask)
        ensures
            r == self.spec_enqueued(),
    {
        EnqueuedTask {
            id: self.id,
            job_name: self.job_name.clone(),
            name: self.name.clone(),
            endpoint: self.endpoint.clone(),
            created_at: self.created_at,
            data: self.data.clone(),
            run_at: self.run_at,
            retry_count: self.retry_count,
            max_retries: self.max_retries,
            worker_id: match &self.worker_id {
                Some(w) => Some(w.clone()),
                None => None,
            },
        }
    }

    /// The row as an ongoing task, for a row that holds a claim.
    pub open spec fn spec_ongoing(self) -> OngoingTask
        recommends
            self.worker_id is Some,
            self.started_at is Some,
    {
        OngoingTask {
            id: self.id,
            created_at: self.created_at,
            job_name: self.job_name,
            data: self.data,
            endpoint: self.endpoint,
            name: self.name,
            started_at: self.started_at.unwrap(),
            worker_id: self.worker_id.unwrap(),
            max_retries: self.max_retries,
            retry_count: self.retry_count,
        }
    }

    /// The archive record of this row, archived at `now` with `error_message`.
    /// A row without a claim time counts as started at `now`.
    pub open spec fn spec_archived(self, error_message: Option<String>, now: int) -> FinishedTask {
        FinishedTask {
            id: self.id,
            job_name: self.job_name,
            name: self.name,
            endpoint: self.endpoint,
            error_message: error_message,
            created_at: now as i64,
            task_created_at: self.created_at,
            started_at: match self.started_at {
                Some(s) => s,
                None => now as i64,
            },
            data: self.data,
            retries: self.retry_count,
        }
    }

    pub fn to_archived(&self, error_message: Option<String>, now: i64) -> (r: FinishedTask)
        ensures
            r == self.spec_archived(error_message, now as int),
    {
        FinishedTask {
            id: self.id,
            job_name: self.job_name.clone(),
            name: self.name.clone(),
            endpoint: self.endpoint.clone(),
            error_message: error_message,
            created_at: now,
            task_created_at: self.created_at,
            started_at: match self.started_at {
                Some(s) => s,
                None => now,
            },
            data: self.data.clone(),
            retries: self.retry_count,
        }
    }
}

impl FinishedTask {
    pub fn clone_record(&self) -> (r: FinishedTask)
        ensures
            r == *self,
    {
        FinishedTask {
            id: self.id,
            job_name: self.job_name.clone(),
            name: self.name.clone(),
            endpoint: self.endpoint.clone(),
            error_message: match &self.error_message {
                Some(m) => Some(m.clone()),
                None => None,
            },
            created_at: self.created_at,
            task_created_at: self.task_created_at,
            started_at: self.started_at,
            data: self.data.clone(),
            retries: self.retries,
        }
    }
}

} // verus!

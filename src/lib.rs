//! A durable, at-least-once task queue engine: tasks are enqueued with a
//! callback endpoint, claimed by live workers, invoked over HTTP, and
//! finalized through a retry state machine.
//!
//! - `store`: the engine's store, with its invariant and the semantics of
//!   enqueue, claim, finalization, cancel and the listings.
//! - `laws`: properties that relate several operations of the store.
//! - `retry`: the decision taken on a failed invocation.
//! - `worker_loop`: the worker loop as a transition function.
//! - `invocation`, `wire`: what an invocation sends and how its reply settles
//!   the task.
//! - `identity`: worker identities and generated task names.
//! - `pagination`: the window a listing cursor selects.
//! - `public`: which embedded file a dashboard request is served.

pub mod identity;
pub mod invocation;
pub mod laws;
pub mod pagination;
pub mod public;
pub mod retry;
pub mod store;
pub mod task;
pub mod types;
pub mod wire;
pub mod worker_loop;

pub use identity::{connect, generate_nanoid, task_name_or_generated, worker_identity};
pub use invocation::{response_or_failure, settle};
pub use pagination::{page_query, PageError, PageQuery, Paginated, PaginationCursor};
pub use public::{serve, ServePublic};
pub use retry::{retry_status, RetryStatus};
pub use store::{
    cancel_task, enqueue, enqueued_tasks, finished_tasks, free_tasks, ongoing_tasks, Enqueued,
    MemoryStore, StoreError, StoreView,
};
pub use task::{
    DbOptions, EnqueuedTask, FinishedTask, InflightTask, NewTask, NewTaskPayload, OngoingTask,
    TaskRow,
};
pub use types::{bool_true, Event, InvokedTaskResponse, TracingFormat};
pub use wire::{decimal_text, frame_invocation, invocation_body};
pub use worker_loop::{LoopAction, LoopEvent, LoopState, Step};

use crate::pagination::{lemma_page_query_bounds, page_query, spec_page_query, PageError, PageQuery, Paginated, PaginationCursor};
use crate::retry::{retry_status, spec_retry_status, RetryStatus};
use crate::task::{EnqueuedTask, FinishedTask, InflightTask, NewTask, NewTaskPayload, OngoingTask, TaskRow};
use vstd::prelude::*;

verus! {

/// A failure of the store itself, as opposed to an outcome of a task.
#[derive(Debug, Clone, Copy, PartialEq, Eq, Structural)]
pub enum StoreError {
    /// Every task id the store can hand out has been used.
    IdsExhausted,
}

/// The result of an enqueue: the task's id, and the wake notification that
/// was published for it, if it is due now.
#[derive(Debug, Clone, Copy, PartialEq, Eq, Structural)]
pub struct Enqueued {
    pub id: i64,
    pub wake: Option<NewTaskPayload>,
}

/// The abstract content of a store.
pub struct StoreView {
    /// The working table, in insertion order.
    pub tasks: Seq<TaskRow>,
    /// The archive, in the order the records were archived.
    pub finished: Seq<FinishedTask>,
    /// The identities of the worker connections that are currently live.
    pub live: Set<Seq<char>>,
    /// The id the next new task receives.
    pub next_id: int,
    /// The backoff given to every new task.
    pub retry_delay: int,
}

/// Two rows with the same `(job_name, name, endpoint)` are the same task.
pub open spec fn same_key(a: TaskRow, b: TaskRow) -> bool {
    &&& a.job_name@ == b.job_name@
    &&& a.name@ == b.name@
    &&& a.endpoint@ == b.endpoint@
}

pub open spec fn key_matches(t: TaskRow, n: NewTask) -> bool {
    &&& t.job_name@ == n.job_name@
    &&& t.name@ == n.name@
    &&& t.endpoint@ == n.endpoint@
}

/// The row is claimed by a worker that is still live.
pub open spec fn holds_live_claim(t: TaskRow, live: Set<Seq<char>>) -> bool {
    match t.worker_id {
        Some(w) => live.contains(w@),
        None => false,
    }
}

/// A row may be claimed when no live worker holds it and it is due.
pub open spec fn claimable(t: TaskRow, live: Set<Seq<char>>, now: int) -> bool {
    !holds_live_claim(t, live) && t.run_at <= now
}

/// The wake notification for a row that is due at `now`.
pub open spec fn wake_for(t: TaskRow, now: int) -> Option<NewTaskPayload> {
    if t.run_at <= now {
        Some(NewTaskPayload { id: t.id, run_at: t.run_at })
    } else {
        None
    }
}

/// The row created for a new task.
pub open spec fn spec_new_row(n: NewTask, id: int, now: int, retry_delay: int) -> TaskRow {
    TaskRow {
        id: id as i64,
        job_name: n.job_name,
        name: n.name,
        endpoint: n.endpoint,
        data: n.data,
        created_at: now as i64,
        updated_at: now as i64,
        run_at: match n.run_at {
            Some(r) => r,
            None => now as i64,
        },
        retry_count: 0,
        max_retries: match n.max_retries {
            Some(m) => m,
            None => 0,
        },
        retry_delay: retry_delay as i64,
        worker_id: None,
        started_at: None,
    }
}

/// The row after `worker` claimed it at `now`.
pub open spec fn spec_claimed(t: TaskRow, worker: String, now: int) -> TaskRow {
    TaskRow { worker_id: Some(worker), started_at: Some(now as i64), updated_at: now as i64, ..t }
}

/// The row after a retriable failure at `now`: unclaimed, due after its backoff.
pub open spec fn spec_rescheduled(t: TaskRow, now: int) -> TaskRow {
    TaskRow {
        worker_id: None,
        started_at: None,
        run_at: (now + t.retry_delay) as i64,
        updated_at: now as i64,
        retry_count: (t.retry_count + 1) as i32,
        ..t
    }
}

/// The row keeps its id, its dedup key and its backoff.
pub open spec fn same_identity(a: TaskRow, b: TaskRow) -> bool {
    &&& a.id == b.id
    &&& same_key(a, b)
    &&& a.retry_delay == b.retry_delay
}

/// Some task of the batch has this id.
pub open spec fn in_batch(batch: Seq<InflightTask>, id: i64) -> bool {
    exists|k: int| 0 <= k < batch.len() && #[trigger] batch[k].id == id
}

/// What `enqueue` does: a known dedup key refreshes `updated_at` of its row and
/// returns its id; a new key gets a row with a fresh id. Either way the wake
/// notification is published when the resulting row is due.
pub open spec fn enqueue_post(
    old: StoreView,
    task: NewTask,
    now: int,
    r: Result<Enqueued, StoreError>,
    new: StoreView,
) -> bool {
    if old.has_key(task) {
        let i = old.index_of_key(task);
        let t = old.tasks[i];
        &&& r == Ok::<Enqueued, StoreError>(Enqueued { id: t.id, wake: wake_for(t, now) })
        &&& new == (StoreView { tasks: old.tasks.update(i, TaskRow { updated_at: now as i64, ..t }), ..old })
    } else if old.next_id < i64::MAX {
        let t = spec_new_row(task, old.next_id, now, old.retry_delay);
        &&& r == Ok::<Enqueued, StoreError>(Enqueued { id: old.next_id as i64, wake: wake_for(t, now) })
        &&& new == (StoreView { tasks: old.tasks.push(t), next_id: old.next_id + 1, ..old })
    } else {
        &&& r == Err::<Enqueued, StoreError>(StoreError::IdsExhausted)
        &&& new == old
    }
}

/// What `free_tasks` does: it claims for `worker` at most `count` rows, each
/// of them claimable at `now`, and returns them; it leaves a claimable row
/// behind only when the batch is full. Nothing else changes.
pub open spec fn claim_post(
    old: StoreView,
    worker: String,
    count: int,
    now: int,
    batch: Seq<InflightTask>,
    new: StoreView,
) -> bool {
    &&& new == (StoreView { tasks: new.tasks, ..old })
    &&& new.tasks.len() == old.tasks.len()
    &&& batch.len() <= count
    &&& batch.len() <= old.tasks.len()
    &&& forall|i: int|
        0 <= i < old.tasks.len() ==> if in_batch(batch, #[trigger] old.tasks[i].id) {
            &&& claimable(old.tasks[i], old.live, now)
            &&& new.tasks[i] == spec_claimed(old.tasks[i], worker, now)
        } else {
            &&& new.tasks[i] == old.tasks[i]
            &&& batch.len() < count ==> !claimable(old.tasks[i], old.live, now)
        }
    &&& forall|k: int|
        0 <= k < batch.len() ==> old.has_id(#[trigger] batch[k].id as int) && batch[k]
            == old.tasks[old.index_of(batch[k].id as int)].spec_inflight()
    &&& forall|k1: int, k2: int|
        0 <= k1 < batch.len() && 0 <= k2 < batch.len() && k1 != k2
            ==> #[trigger] batch[k1].id != #[trigger] batch[k2].id
}

/// What `InflightTask::done` does: the row is archived without an error and
/// leaves the working table.
pub open spec fn done_post(old: StoreView, id: i64, now: int, new: StoreView) -> bool {
    if old.has_id(id as int) {
        let i = old.index_of(id as int);
        new == (StoreView {
            tasks: old.tasks.remove(i),
            finished: old.finished.push(old.tasks[i].spec_archived(None, now)),
            ..old
        })
    } else {
        new == old
    }
}

/// A failure of the task with this id reschedules it, rather than archive it.
pub open spec fn reschedules(s: StoreView, id: i64, retriable: bool) -> bool {
    &&& s.has_id(id as int)
    &&& spec_retry_status(
        retriable,
        s.tasks[s.index_of(id as int)].max_retries as int,
        s.tasks[s.index_of(id as int)].retry_count as int,
    ) == RetryStatus::Retry
}

/// What `InflightTask::failed` does: the retry state machine, run on the row.
pub open spec fn fail_post(
    old: StoreView,
    id: i64,
    now: int,
    message: Seq<char>,
    retriable: bool,
    new: StoreView,
) -> bool {
    if old.has_id(id as int) {
        let i = old.index_of(id as int);
        let t = old.tasks[i];
        if spec_retry_status(retriable, t.max_retries as int, t.retry_count as int) == RetryStatus::Retry {
            new == (StoreView { tasks: old.tasks.update(i, spec_rescheduled(t, now)), ..old })
        } else {
            exists|m: String|
                m@ == message && new == (StoreView {
                    tasks: old.tasks.remove(i),
                    finished: old.finished.push(#[trigger] t.spec_archived(Some(m), now)),
                    ..old
                })
        }
    } else {
        new == old
    }
}

/// What `cancel_task` does: it removes the row unless a live worker holds it.
pub open spec fn cancel_post(old: StoreView, id: i64, r: Option<i64>, new: StoreView) -> bool {
    if old.has_id(id as int) && !holds_live_claim(old.tasks[old.index_of(id as int)], old.live) {
        &&& r == Some(id)
        &&& new == (StoreView { tasks: old.tasks.remove(old.index_of(id as int)), ..old })
    } else {
        &&& r is None
        &&& new == old
    }
}

/// The rows that live workers hold, as ongoing tasks, in table order.
pub open spec fn ongoing_of(tasks: Seq<TaskRow>, live: Set<Seq<char>>) -> Seq<OngoingTask>
    decreases tasks.len(),
{
    if tasks.len() == 0 {
        Seq::empty()
    } else {
        let rest = ongoing_of(tasks.drop_last(), live);
        if holds_live_claim(tasks.last(), live) {
            rest.push(tasks.last().spec_ongoing())
        } else {
            rest
        }
    }
}

impl StoreView {
    pub open spec fn has_id(self, id: int) -> bool {
        exists|i: int| 0 <= i < self.tasks.len() && self.tasks[i].id == id
    }

    /// The position of the row with the given id, when there is one.
    pub open spec fn index_of(self, id: int) -> int {
        choose|i: int| 0 <= i < self.tasks.len() && self.tasks[i].id == id
    }

    pub open spec fn has_key(self, n: NewTask) -> bool {
        exists|i: int| 0 <= i < self.tasks.len() && key_matches(self.tasks[i], n)
    }

    pub open spec fn index_of_key(self, n: NewTask) -> int {
        choose|i: int| 0 <= i < self.tasks.len() && key_matches(self.tasks[i], n)
    }

    pub open spec fn wf(self) -> bool {
        &&& 1 <= self.next_id <= i64::MAX
        &&& 0 <= self.retry_delay <= i64::MAX
        &&& forall|i: int|
            0 <= i < self.tasks.len() ==> 1 <= #[trigger] self.tasks[i].id < self.next_id
        &&& forall|i: int, j: int|
            0 <= i < self.tasks.len() && 0 <= j < self.tasks.len() && i != j
                ==> #[trigger] self.tasks[i].id != #[trigger] self.tasks[j].id
        &&& forall|i: int, j: int|
            0 <= i < self.tasks.len() && 0 <= j < self.tasks.len() && i != j
                ==> !same_key(#[trigger] self.tasks[i], #[trigger] self.tasks[j])
        &&& forall|i: int|
            0 <= i < self.tasks.len() ==> #[trigger] self.tasks[i].retry_delay == self.retry_delay
        &&& forall|i: int|
            0 <= i < self.tasks.len() && (#[trigger] self.tasks[i]).worker_id is Some
                ==> self.tasks[i].started_at is Some
        &&& forall|i: int|
            0 <= i < self.finished.len() ==> 1 <= #[trigger] self.finished[i].id < self.next_id
        &&& forall|i: int, j: int|
            0 <= i < self.finished.len() && 0 <= j < self.finished.len() && i != j
                ==> #[trigger] self.finished[i].id != #[trigger] self.finished[j].id
        &&& forall|i: int, j: int|
            0 <= i < self.tasks.len() && 0 <= j < self.finished.len()
                ==> #[trigger] self.tasks[i].id != #[trigger] self.finished[j].id
    }
}

/// A task store kept in memory. It holds the working table, the archive and
/// the set of live worker identities, and gives them the semantics of the
/// engine: idempotent enqueue, exclusive claims that lapse when their worker
/// disconnects, and finalization through the retry state machine.
pub struct MemoryStore {
    tasks: Vec<TaskRow>,
    finished: Vec<FinishedTask>,
    live: Vec<String>,
    next_id: i64,
    retry_delay: i64,
}

impl View for MemoryStore {
    type V = StoreView;

    closed spec fn view(&self) -> StoreView {
        StoreView {
            tasks: self.tasks@,
            finished: self.finished@,
            live: identities(self.live@),
            next_id: self.next_id as int,
            retry_delay: self.retry_delay as int,
        }
    }
}

impl MemoryStore {
    pub open spec fn wf(&self) -> bool {
        self@.wf()
    }

    /// An empty store whose tasks back off by `retry_delay` after a failure.
    pub fn new(retry_delay: i64) -> (r: MemoryStore)
        requires
            retry_delay >= 0,
        ensures
            r.wf(),
            r@.tasks.len() == 0,
            r@.finished.len() == 0,
            r@.live == Set::<Seq<char>>::empty(),
            r@.next_id == 1,
            r@.retry_delay == retry_delay,
    {
        let r = MemoryStore {
            tasks: Vec::new(),
            finished: Vec::new(),
            live: Vec::new(),
            next_id: 1,
            retry_delay,
        };
        assert(r@.live =~= Set::<Seq<char>>::empty()) by {
            assert(identities(Seq::<String>::empty()) =~= Set::<Seq<char>>::empty());
        }
        r
    }

    /// Whether `worker` is a live connection.
    pub fn is_live(&self, worker: &String) -> (r: bool)
        ensures
            r == self@.live.contains(worker@),
    {
        let mut i: usize = 0;
        while i < self.live.len()
            invariant
                0 <= i <= self.live@.len(),
                forall|j: int| 0 <= j < i ==> #[trigger] self.live@[j]@ != worker@,
            decreases self.live@.len() - i,
        {
            if self.live[i] == *worker {
                assert(self.live@[i as int]@ == worker@);
                return true;
            }
            i = i + 1;
        }
        false
    }

    /// Registers a worker connection: its claims count as live from now on.
    pub fn register_worker(&mut self, worker: String)
        ensures
            final(self)@ == (StoreView { live: old(self)@.live.insert(worker@), ..old(self)@ }),
    {
        proof {
            lemma_identities_push(self.live@, worker);
        }
        self.live.push(worker);
    }

    /// Drops a worker connection: the tasks it holds become claimable.
    pub fn disconnect_worker(&mut self, worker: &String)
        ensures
            final(self)@ == (StoreView { live: old(self)@.live.remove(worker@), ..old(self)@ }),
    {
        let mut kept: Vec<String> = Vec::new();
        let mut i: usize = 0;
        assert(identities(kept@) =~= identities(self.live@.take(0)).remove(worker@));
        while i < self.live.len()
            invariant
                0 <= i <= self.live@.len(),
                identities(kept@) == identities(self.live@.take(i as int)).remove(worker@),
            decreases self.live@.len() - i,
        {
            proof {
                assert(self.live@.take(i + 1) =~= self.live@.take(i as int).push(self.live@[i as int]));
                lemma_identities_push(self.live@.take(i as int), self.live@[i as int]);
            }
            if self.live[i] != *worker {
                let w = self.live[i].clone();
                proof {
                    lemma_identities_push(kept@, w);
                }
                kept.push(w);
                assert(identities(kept@) =~= identities(self.live@.take(i + 1)).remove(worker@));
            } else {
                assert(identities(kept@) =~= identities(self.live@.take(i + 1)).remove(worker@));
            }
            i = i + 1;
        }
        assert(self.live@.take(i as int) =~= self.live@);
        self.live = kept;
    }
}

impl MemoryStore {
    fn find_key(&self, task: &NewTask) -> (r: Option<usize>)
        ensures
            match r {
                Some(i) => i < self@.tasks.len() && key_matches(self@.tasks[i as int], *task),
                None => !self@.has_key(*task),
            },
    {
        let mut i: usize = 0;
        while i < self.tasks.len()
            invariant
                0 <= i <= self.tasks@.len(),
                forall|j: int| 0 <= j < i ==> !key_matches(#[trigger] self.tasks@[j], *task),
            decreases self.tasks@.len() - i,
        {
            let t = &self.tasks[i];
            if t.job_name == task.job_name && t.name == task.name && t.endpoint == task.endpoint {
                return Some(i);
            }
            i = i + 1;
        }
        None
    }

    fn find_id(&self, id: i64) -> (r: Option<usize>)
        requires
            self.wf(),
        ensures
            match r {
                Some(i) => i < self@.tasks.len() && self@.has_id(id as int) && i == self@.index_of(id as int),
                None => !self@.has_id(id as int),
            },
    {
        let mut i: usize = 0;
        while i < self.tasks.len()
            invariant
                0 <= i <= self.tasks@.len(),
                self.wf(),
                forall|j: int| 0 <= j < i ==> (#[trigger] self.tasks@[j]).id != id,
            decreases self.tasks@.len() - i,
        {
            if self.tasks[i].id == id {
                proof {
                    assert(self@.tasks[i as int].id == id);
                    assert(self@.has_id(id as int));
                    let c = self@.index_of(id as int);
                    assert(0 <= c < self@.tasks.len() && self@.tasks[c].id == id);
                    if c != i {
                        assert(self@.tasks[c].id != self@.tasks[i as int].id);
                    }
                }
                return Some(i);
            }
            i = i + 1;
        }
        None
    }
}

proof fn lemma_wf_pointwise(old: StoreView, new: StoreView)
    requires
        old.wf(),
        new == (StoreView { tasks: new.tasks, ..old }),
        new.tasks.len() == old.tasks.len(),
        forall|i: int|
            0 <= i < old.tasks.len() ==> same_identity(#[trigger] new.tasks[i], old.tasks[i]),
        forall|i: int|
            0 <= i < new.tasks.len() && (#[trigger] new.tasks[i]).worker_id is Some
                ==> new.tasks[i].started_at is Some,
    ensures
        new.wf(),
{
    assert forall|i: int, j: int|
        0 <= i < new.tasks.len() && 0 <= j < new.tasks.len() && i != j implies !same_key(
        #[trigger] new.tasks[i],
        #[trigger] new.tasks[j],
    ) by {
        assert(same_identity(new.tasks[i], old.tasks[i]));
        assert(same_identity(new.tasks[j], old.tasks[j]));
        assert(!same_key(old.tasks[i], old.tasks[j]));
    }
    assert forall|i: int, j: int|
        0 <= i < new.tasks.len() && 0 <= j < new.tasks.len() && i != j implies #[trigger] new.tasks[i].id
        != #[trigger] new.tasks[j].id by {
        assert(same_identity(new.tasks[i], old.tasks[i]));
        assert(same_identity(new.tasks[j], old.tasks[j]));
        assert(old.tasks[i].id != old.tasks[j].id);
    }
    assert forall|i: int, j: int|
        0 <= i < new.tasks.len() && 0 <= j < new.finished.len() implies #[trigger] new.tasks[i].id
        != #[trigger] new.finished[j].id by {
        assert(same_identity(new.tasks[i], old.tasks[i]));
        assert(old.tasks[i].id != old.finished[j].id);
    }
    assert forall|i: int| 0 <= i < new.tasks.len() implies 1 <= #[trigger] new.tasks[i].id < new.next_id by {
        assert(same_identity(new.tasks[i], old.tasks[i]));
        assert(1 <= old.tasks[i].id < old.next_id);
    }
    assert forall|i: int| 0 <= i < new.tasks.len() implies #[trigger] new.tasks[i].retry_delay
        == new.retry_delay by {
        assert(same_identity(new.tasks[i], old.tasks[i]));
        assert(old.tasks[i].retry_delay == old.retry_delay);
    }
}

proof fn lemma_wf_remove(old: StoreView, i: int, archived: Option<FinishedTask>)
    requires
        old.wf(),
        0 <= i < old.tasks.len(),
        archived matches Some(f) ==> f.id == old.tasks[i].id,
    ensures
        (StoreView {
            tasks: old.tasks.remove(i),
            finished: match archived {
                Some(f) => old.finished.push(f),
                None => old.finished,
            },
            ..old
        }).wf(),
{
    let new = StoreView {
        tasks: old.tasks.remove(i),
        finished: match archived {
            Some(f) => old.finished.push(f),
            None => old.finished,
        },
        ..old
    };
    assert forall|a: int| 0 <= a < new.tasks.len() implies #[trigger] new.tasks[a] == old.tasks[
        if a < i { a } else { a + 1 }
    ] by {}
    assert forall|b: int| 0 <= b < old.finished.len() implies #[trigger] new.finished[b]
        == old.finished[b] by {}
    assert forall|a: int, b: int|
        0 <= a < new.tasks.len() && 0 <= b < new.tasks.len() && a != b implies #[trigger] new.tasks[a].id
        != #[trigger] new.tasks[b].id by {
        let oa = if a < i { a } else { a + 1 };
        let ob = if b < i { b } else { b + 1 };
        assert(new.tasks[a] == old.tasks[oa]);
        assert(new.tasks[b] == old.tasks[ob]);
        assert(old.tasks[oa].id != old.tasks[ob].id);
    }
    assert forall|a: int, b: int|
        0 <= a < new.tasks.len() && 0 <= b < new.tasks.len() && a != b implies !same_key(
        #[trigger] new.tasks[a],
        #[trigger] new.tasks[b],
    ) by {
        let oa = if a < i { a } else { a + 1 };
        let ob = if b < i { b } else { b + 1 };
        assert(new.tasks[a] == old.tasks[oa]);
        assert(new.tasks[b] == old.tasks[ob]);
        assert(!same_key(old.tasks[oa], old.tasks[ob]));
    }
    assert forall|a: int, b: int|
        0 <= a < new.tasks.len() && 0 <= b < new.finished.len() implies #[trigger] new.tasks[a].id
        != #[trigger] new.finished[b].id by {
        let oa = if a < i { a } else { a + 1 };
        assert(new.tasks[a] == old.tasks[oa]);
        if b < old.finished.len() {
            assert(new.finished[b] == old.finished[b]);
            assert(old.tasks[oa].id != old.finished[b].id);
        } else {
            assert(old.tasks[oa].id != old.tasks[i].id);
        }
    }
    assert forall|a: int, b: int|
        0 <= a < new.finished.len() && 0 <= b < new.finished.len() && a != b implies #[trigger] new.finished[a].id
        != #[trigger] new.finished[b].id by {
        if a < old.finished.len() && b < old.finished.len() {
            assert(new.finished[a] == old.finished[a]);
            assert(new.finished[b] == old.finished[b]);
        } else if a < old.finished.len() {
            assert(new.finished[a] == old.finished[a]);
            assert(old.tasks[i].id != old.finished[a].id);
        } else if b < old.finished.len() {
            assert(new.finished[b] == old.finished[b]);
            assert(old.tasks[i].id != old.finished[b].id);
        }
    }
    assert forall|b: int| 0 <= b < new.finished.len() implies 1 <= #[trigger] new.finished[b].id
        < new.next_id by {
        if b < old.finished.len() {
            assert(new.finished[b] == old.finished[b]);
        } else {
            assert(1 <= old.tasks[i].id < old.next_id);
        }
    }
    assert forall|a: int| 0 <= a < new.tasks.len() implies 1 <= #[trigger] new.tasks[a].id < new.next_id by {
        let oa = if a < i { a } else { a + 1 };
        assert(new.tasks[a] == old.tasks[oa]);
        assert(1 <= old.tasks[oa].id < old.next_id);
    }
    assert forall|a: int| 0 <= a < new.tasks.len() implies #[trigger] new.tasks[a].retry_delay
        == new.retry_delay by {
        let oa = if a < i { a } else { a + 1 };
        assert(new.tasks[a] == old.tasks[oa]);
        assert(old.tasks[oa].retry_delay == old.retry_delay);
    }
    assert forall|a: int|
        0 <= a < new.tasks.len() && (#[trigger] new.tasks[a]).worker_id is Some implies new.tasks[a].started_at is Some by {
        let oa = if a < i { a } else { a + 1 };
        assert(new.tasks[a] == old.tasks[oa]);
        assert(old.tasks[oa].worker_id is Some);
    }
}

/// Inserts a task, or, when a task with the same `(job_name, name, endpoint)`
/// exists, only refreshes its `updated_at`. Returns the task's id, and the
/// wake notification published when the resulting task is due at `now`.
pub fn enqueue(store: &mut MemoryStore, task: &NewTask, now: i64) -> (r: Result<Enqueued, StoreError>)
    requires
        old(store).wf(),
    ensures
        final(store).wf(),
        enqueue_post(old(store)@, *task, now as int, r, final(store)@),
{
    match store.find_key(task) {
        Some(i) => {
            let ghost c = store@.index_of_key(*task);
            proof {
                assert(same_key(store@.tasks[i as int], store@.tasks[c]));
            }
            let mut row = store.tasks[i].clone_row();
            row.updated_at = now;
            let id = row.id;
            let wake = if row.run_at <= now {
                Some(NewTaskPayload { id: row.id, run_at: row.run_at })
            } else {
                None
            };
            let ghost before = store@;
            store.tasks.set(i, row);
            proof {
                lemma_wf_pointwise(before, store@);
            }
            Ok(Enqueued { id, wake })
        },
        None => {
            if store.next_id == i64::MAX {
                return Err(StoreError::IdsExhausted);
            }
            let row = TaskRow {
                id: store.next_id,
                job_name: task.job_name.clone(),
                name: task.name.clone(),
                endpoint: task.endpoint.clone(),
                data: task.data.clone(),
                created_at: now,
                updated_at: now,
                run_at: match task.run_at {
                    Some(r) => r,
                    None => now,
                },
                retry_count: 0,
                max_retries: match task.max_retries {
                    Some(m) => m,
                    None => 0,
                },
                retry_delay: store.retry_delay,
                worker_id: None,
                started_at: None,
            };
            let id = row.id;
            let wake = if row.run_at <= now {
                Some(NewTaskPayload { id: row.id, run_at: row.run_at })
            } else {
                None
            };
            let ghost before = store@;
            store.tasks.push(row);
            store.next_id = store.next_id + 1;
            proof {
                let new = store@;
                assert forall|a: int| 0 <= a < before.tasks.len() implies #[trigger] new.tasks[a]
                    == before.tasks[a] by {}
                assert forall|a: int, b: int|
                    0 <= a < new.tasks.len() && 0 <= b < new.tasks.len() && a != b implies !same_key(
                    #[trigger] new.tasks[a],
                    #[trigger] new.tasks[b],
                ) by {
                    if a < before.tasks.len() && b < before.tasks.len() {
                    } else if a < before.tasks.len() {
                        assert(!key_matches(before.tasks[a], *task));
                    } else if b < before.tasks.len() {
                        assert(!key_matches(before.tasks[b], *task));
                    }
                }
                assert forall|a: int, b: int|
                    0 <= a < new.tasks.len() && 0 <= b < new.tasks.len() && a != b implies #[trigger] new.tasks[a].id
                    != #[trigger] new.tasks[b].id by {
                    if a < before.tasks.len() && b < before.tasks.len() {
                    } else if a < before.tasks.len() {
                        assert(before.tasks[a].id < before.next_id);
                    } else if b < before.tasks.len() {
                        assert(before.tasks[b].id < before.next_id);
                    }
                }
                assert forall|a: int, b: int|
                    0 <= a < new.tasks.len() && 0 <= b < new.finished.len() implies #[trigger] new.tasks[a].id
                    != #[trigger] new.finished[b].id by {
                    if a < before.tasks.len() {
                    } else {
                        assert(before.finished[b].id < before.next_id);
                    }
                }
                assert(new == (StoreView {
                    tasks: before.tasks.push(spec_new_row(*task, before.next_id, now as int, before.retry_delay)),
                    next_id: before.next_id + 1,
                    ..before
                }));
            }
            Ok(Enqueued { id, wake })
        },
    }
}

proof fn lemma_in_batch_push(batch: Seq<InflightTask>, h: InflightTask, id: i64)
    ensures
        in_batch(batch.push(h), id) == (in_batch(batch, id) || h.id == id),
{
    let b = batch.push(h);
    if in_batch(batch, id) {
        let k = choose|k: int| 0 <= k < batch.len() && #[trigger] batch[k].id == id;
        assert(b[k].id == id);
    }
    if h.id == id {
        assert(b[batch.len() as int].id == id);
    }
    if in_batch(b, id) {
        let k = choose|k: int| 0 <= k < b.len() && #[trigger] b[k].id == id;
        if k < batch.len() {
            assert(batch[k].id == id);
        }
    }
}

/// Claims for `worker` up to `count` tasks that are due at `now` and not held
/// by a live worker, marks them with the worker and the claim time, and
/// returns them. Rows held by a live worker are never taken.
pub fn free_tasks(store: &mut MemoryStore, worker: &String, count: usize, now: i64) -> (batch: Vec<InflightTask>)
    requires
        old(store).wf(),
        old(store)@.live.contains(worker@),
    ensures
        final(store).wf(),
        claim_post(old(store)@, *worker, count as int, now as int, batch@, final(store)@),
{
    let ghost ov = store@;
    let mut batch: Vec<InflightTask> = Vec::new();
    let ghost mut src: Seq<int> = Seq::empty();
    let mut i: usize = 0;
    while i < store.tasks.len()
        invariant
            ov.wf(),
            0 <= i <= store@.tasks.len(),
            store@ == (StoreView { tasks: store@.tasks, ..ov }),
            store@.tasks.len() == ov.tasks.len(),
            batch@.len() <= count,
            batch@.len() <= i,
            forall|j: int| i <= j < ov.tasks.len() ==> #[trigger] store@.tasks[j] == ov.tasks[j],
            forall|j: int|
                0 <= j < i ==> if in_batch(batch@, #[trigger] ov.tasks[j].id) {
                    &&& claimable(ov.tasks[j], ov.live, now as int)
                    &&& store@.tasks[j] == spec_claimed(ov.tasks[j], *worker, now as int)
                } else {
                    &&& store@.tasks[j] == ov.tasks[j]
                    &&& batch@.len() < count ==> !claimable(ov.tasks[j], ov.live, now as int)
                },
            src.len() == batch@.len(),
            forall|k: int|
                0 <= k < batch@.len() ==> 0 <= #[trigger] src[k] < i && batch@[k] == ov.tasks[src[k]].spec_inflight(),
            forall|k1: int, k2: int|
                0 <= k1 < batch@.len() && 0 <= k2 < batch@.len() && k1 != k2
                    ==> #[trigger] batch@[k1].id != #[trigger] batch@[k2].id,
        decreases ov.tasks.len() - i,
    {
        let ghost b0 = batch@;
        let ghost t = ov.tasks[i as int];
        proof {
            assert(store@.tasks[i as int] == t);
            if in_batch(b0, t.id) {
                let k = choose|k: int| 0 <= k < b0.len() && #[trigger] b0[k].id == t.id;
                assert(0 <= src[k] < i);
                assert(ov.tasks[src[k]].id != ov.tasks[i as int].id);
            }
        }
        let mut taken = false;
        if batch.len() < count {
            let free = match &store.tasks[i].worker_id {
                Some(w) => !store.is_live(w),
                None => true,
            };
            if free && store.tasks[i].run_at <= now {
                let mut row = store.tasks[i].clone_row();
                let handle = row.to_inflight();
                row.worker_id = Some(worker.clone());
                row.started_at = Some(now);
                row.updated_at = now;
                store.tasks.set(i, row);
                batch.push(handle);
                taken = true;
                proof {
                    src = src.push(i as int);
                    lemma_in_batch_push(b0, handle, t.id);
                    assert(batch@[b0.len() as int] == ov.tasks[i as int].spec_inflight());
                    assert forall|k1: int, k2: int|
                        0 <= k1 < batch@.len() && 0 <= k2 < batch@.len() && k1 != k2 implies #[trigger] batch@[k1].id
                        != #[trigger] batch@[k2].id by {
                        if k1 < b0.len() && k2 < b0.len() {
                            assert(b0[k1].id != b0[k2].id);
                        } else if k1 < b0.len() {
                            assert(in_batch(b0, b0[k1].id));
                        } else if k2 < b0.len() {
                            assert(in_batch(b0, b0[k2].id));
                        }
                    }
                }
            }
        }
        proof {
            assert forall|j: int|
                0 <= j < i + 1 implies if in_batch(batch@, #[trigger] ov.tasks[j].id) {
                    &&& claimable(ov.tasks[j], ov.live, now as int)
                    &&& store@.tasks[j] == spec_claimed(ov.tasks[j], *worker, now as int)
                } else {
                    &&& store@.tasks[j] == ov.tasks[j]
                    &&& batch@.len() < count ==> !claimable(ov.tasks[j], ov.live, now as int)
                } by {
                if j < i && taken {
                    lemma_in_batch_push(b0, batch@[b0.len() as int], ov.tasks[j].id);
                    assert(ov.tasks[j].id != ov.tasks[i as int].id);
                }
            }
        }
        i = i + 1;
    }
    proof {
        assert forall|a: int| 0 <= a < ov.tasks.len() implies same_identity(#[trigger] store@.tasks[a], ov.tasks[a]) by {}
        assert forall|a: int|
            0 <= a < store@.tasks.len() && (#[trigger] store@.tasks[a]).worker_id is Some implies store@.tasks[a].started_at is Some by {}
        lemma_wf_pointwise(ov, store@);
        assert forall|k: int| 0 <= k < batch@.len() implies ov.has_id(#[trigger] batch@[k].id as int)
            && batch@[k] == ov.tasks[ov.index_of(batch@[k].id as int)].spec_inflight() by {
            let j = src[k];
            assert(0 <= j < ov.tasks.len());
            assert(batch@[k] == ov.tasks[j].spec_inflight());
            assert(ov.tasks[j].id == batch@[k].id);
            assert(ov.has_id(batch@[k].id as int));
            let c = ov.index_of(batch@[k].id as int);
            if c != j {
                assert(ov.tasks[c].id != ov.tasks[j].id);
            }
        }
        assert(claim_post(ov, *worker, count as int, now as int, batch@, store@));
    }
    batch
}

impl InflightTask {
    /// Records a successful invocation: the task is archived without an error
    /// and leaves the working table.
    pub fn done(self, store: &mut MemoryStore, now: i64)
        requires
            old(store).wf(),
        ensures
            final(store).wf(),
            done_post(old(store)@, self.id, now as int, final(store)@),
    {
        match store.find_id(self.id) {
            Some(i) => {
                let ghost ov = store@;
                let row = store.tasks.remove(i);
                let record = row.to_archived(None, now);
                store.finished.push(record);
                proof {
                    lemma_wf_remove(ov, i as int, Some(record));
                    assert(store@ == (StoreView {
                        tasks: ov.tasks.remove(i as int),
                        finished: ov.finished.push(record),
                        ..ov
                    }));
                }
            },
            None => {},
        }
    }

    /// Records a failed invocation and runs the retry state machine on the
    /// task: a retriable failure within the budget reschedules it `retry_delay`
    /// after `now`, which must then fit in an `i64`; otherwise it is archived
    /// with `message`.
    pub fn failed(self, store: &mut MemoryStore, now: i64, message: &str, retriable: bool)
        requires
            old(store).wf(),
            reschedules(old(store)@, self.id, retriable) ==> now + old(store)@.retry_delay <= i64::MAX,
        ensures
            final(store).wf(),
            fail_post(old(store)@, self.id, now as int, message@, retriable, final(store)@),
    {
        match store.find_id(self.id) {
            Some(i) => {
                let ghost ov = store@;
                let status = retry_status(retriable, store.tasks[i].max_retries, store.tasks[i].retry_count);
                match status {
                    RetryStatus::Retry => {
                        let mut row = store.tasks[i].clone_row();
                        assert(row.retry_delay == ov.retry_delay);
                        row.worker_id = None;
                        row.started_at = None;
                        row.run_at = now + row.retry_delay;
                        row.updated_at = now;
                        row.retry_count = row.retry_count + 1;
                        store.tasks.set(i, row);
                        proof {
                            assert forall|a: int| 0 <= a < ov.tasks.len() implies same_identity(
                                #[trigger] store@.tasks[a],
                                ov.tasks[a],
                            ) by {}
                            lemma_wf_pointwise(ov, store@);
                        }
                    },
                    _ => {
                        let row = store.tasks.remove(i);
                        let m = String::from_str(message);
                        let record = row.to_archived(Some(m), now);
                        store.finished.push(record);
                        proof {
                            lemma_wf_remove(ov, i as int, Some(record));
                            assert(store@ == (StoreView {
                                tasks: ov.tasks.remove(i as int),
                                finished: ov.finished.push(ov.tasks[i as int].spec_archived(Some(m), now as int)),
                                ..ov
                            }));
                        }
                    },
                }
            },
            None => {},
        }
    }
}

/// Removes a task that no live worker holds, and returns its id; refuses,
/// returning `None`, when the task is missing or held by a live worker.
pub fn cancel_task(store: &mut MemoryStore, id: i64) -> (r: Option<i64>)
    requires
        old(store).wf(),
    ensures
        final(store).wf(),
        cancel_post(old(store)@, id, r, final(store)@),
{
    match store.find_id(id) {
        Some(i) => {
            let held = match &store.tasks[i].worker_id {
                Some(w) => store.is_live(w),
                None => false,
            };
            if held {
                None
            } else {
                let ghost ov = store@;
                let _row = store.tasks.remove(i);
                proof {
                    lemma_wf_remove(ov, i as int, None);
                    assert(store@ == (StoreView { tasks: ov.tasks.remove(i as int), ..ov }));
                }
                Some(id)
            }
        },
        None => None,
    }
}

/// Every task of the working table, each once, ordered by `run_at`, earliest
/// first.
pub fn enqueued_tasks(store: &MemoryStore) -> (r: Vec<EnqueuedTask>)
    requires
        store.wf(),
    ensures
        r@.len() == store@.tasks.len(),
        forall|k: int|
            0 <= k < r@.len() ==> store@.has_id(#[trigger] r@[k].id as int) && r@[k]
                == store@.tasks[store@.index_of(r@[k].id as int)].spec_enqueued(),
        forall|k1: int, k2: int|
            0 <= k1 < r@.len() && 0 <= k2 < r@.len() && k1 != k2 ==> #[trigger] r@[k1].id
                != #[trigger] r@[k2].id,
        forall|a: int, b: int| 0 <= a < b < r@.len() ==> #[trigger] r@[a].run_at <= #[trigger] r@[b].run_at,
{
    let ghost tasks = store@.tasks;
    let mut r: Vec<EnqueuedTask> = Vec::new();
    let ghost mut src: Seq<int> = Seq::empty();
    let mut i: usize = 0;
    while i < store.tasks.len()
        invariant
            store.wf(),
            tasks == store@.tasks,
            0 <= i <= tasks.len(),
            r@.len() == i,
            src.len() == i,
            forall|m: int|
                0 <= m < i ==> 0 <= #[trigger] src[m] < i && r@[m] == tasks[src[m]].spec_enqueued(),
            forall|m1: int, m2: int| 0 <= m1 < i && 0 <= m2 < i && m1 != m2 ==> #[trigger] src[m1] != #[trigger] src[m2],
            forall|a: int, b: int| 0 <= a < b < r@.len() ==> #[trigger] r@[a].run_at <= #[trigger] r@[b].run_at,
        decreases tasks.len() - i,
    {
        let e = store.tasks[i].to_enqueued();
        let mut k: usize = 0;
        while k < r.len() && r[k].run_at <= e.run_at
            invariant
                0 <= k <= r@.len(),
                forall|m: int| 0 <= m < k ==> (#[trigger] r@[m]).run_at <= e.run_at,
            decreases r@.len() - k,
        {
            k = k + 1;
        }
        let ghost r0 = r@;
        let ghost s0 = src;
        proof {
            assert forall|m: int| k <= m < r0.len() implies (#[trigger] r0[m]).run_at > e.run_at by {
                if m > k {
                    assert(r0[k as int].run_at <= r0[m].run_at);
                }
            }
        }
        r.insert(k, e);
        proof {
            src = s0.insert(k as int, i as int);
            assert forall|m: int| 0 <= m < r@.len() implies #[trigger] r@[m] == (if m < k {
                r0[m]
            } else if m == k {
                e
            } else {
                r0[m - 1]
            }) && src[m] == (if m < k {
                s0[m]
            } else if m == k {
                i as int
            } else {
                s0[m - 1]
            }) by {}
            assert forall|m: int| 0 <= m < i + 1 implies 0 <= #[trigger] src[m] < i + 1 && r@[m]
                == tasks[src[m]].spec_enqueued() by {
                assert(r@[m] == (if m < k { r0[m] } else if m == k { e } else { r0[m - 1] }));
            }
            assert forall|m1: int, m2: int|
                0 <= m1 < i + 1 && 0 <= m2 < i + 1 && m1 != m2 implies #[trigger] src[m1]
                != #[trigger] src[m2] by {
                assert(r@[m1] == (if m1 < k { r0[m1] } else if m1 == k { e } else { r0[m1 - 1] }));
                assert(r@[m2] == (if m2 < k { r0[m2] } else if m2 == k { e } else { r0[m2 - 1] }));
            }
            assert forall|a: int, b: int| 0 <= a < b < r@.len() implies #[trigger] r@[a].run_at
                <= #[trigger] r@[b].run_at by {
                assert(r@[a] == (if a < k { r0[a] } else if a == k { e } else { r0[a - 1] }));
                assert(r@[b] == (if b < k { r0[b] } else if b == k { e } else { r0[b - 1] }));
                if a < k && b > k {
                    assert(r0[a].run_at <= r0[b - 1].run_at);
                }
            }
        }
        i = i + 1;
    }
    proof {
        assert forall|k: int| 0 <= k < r@.len() implies store@.has_id(#[trigger] r@[k].id as int) && r@[k]
            == store@.tasks[store@.index_of(r@[k].id as int)].spec_enqueued() by {
            let j = src[k];
            assert(tasks[j].id == r@[k].id);
            assert(store@.has_id(r@[k].id as int));
            let c = store@.index_of(r@[k].id as int);
            if c != j {
                assert(tasks[c].id != tasks[j].id);
            }
        }
        assert forall|k1: int, k2: int|
            0 <= k1 < r@.len() && 0 <= k2 < r@.len() && k1 != k2 implies #[trigger] r@[k1].id
            != #[trigger] r@[k2].id by {
            assert(src[k1] != src[k2]);
            assert(tasks[src[k1]].id != tasks[src[k2]].id);
        }
    }
    r
}

/// The tasks that live workers hold, in table order.
pub fn ongoing_tasks(store: &MemoryStore) -> (r: Vec<OngoingTask>)
    requires
        store.wf(),
    ensures
        r@ == ongoing_of(store@.tasks, store@.live),
{
    let mut r: Vec<OngoingTask> = Vec::new();
    let mut i: usize = 0;
    while i < store.tasks.len()
        invariant
            store.wf(),
            0 <= i <= store@.tasks.len(),
            r@ == ongoing_of(store@.tasks.take(i as int), store@.live),
        decreases store@.tasks.len() - i,
    {
        let ghost pre = store@.tasks.take(i + 1);
        assert(pre.drop_last() =~= store@.tasks.take(i as int));
        assert(pre.last() == store@.tasks[i as int]);
        let row = &store.tasks[i];
        match &row.worker_id {
            Some(w) => {
                if store.is_live(w) {
                    assert(row.started_at is Some);
                    let started_at = match row.started_at {
                        Some(s) => s,
                        None => row.created_at,
                    };
                    r.push(OngoingTask {
                        id: row.id,
                        created_at: row.created_at,
                        job_name: row.job_name.clone(),
                        data: row.data.clone(),
                        endpoint: row.endpoint.clone(),
                        name: row.name.clone(),
                        started_at,
                        worker_id: w.clone(),
                        max_retries: row.max_retries,
                        retry_count: row.retry_count,
                    });
                }
            },
            None => {},
        }
        i = i + 1;
    }
    assert(store@.tasks.take(i as int) =~= store@.tasks);
    r
}

/// Where a record archived at `t` goes in a newest-first listing `s`: before
/// the first record, from position `k` on, archived at or before `t`.
pub open spec fn newest_slot(s: Seq<FinishedTask>, t: int, k: int) -> int
    decreases s.len() - k,
{
    if k < 0 || k >= s.len() {
        s.len() as int
    } else if s[k].created_at <= t {
        k
    } else {
        newest_slot(s, t, k + 1)
    }
}

/// The archive ordered by archive time, newest first; of records archived at
/// the same time, the one archived later comes first.
pub open spec fn newest_first(f: Seq<FinishedTask>) -> Seq<FinishedTask>
    decreases f.len(),
{
    if f.len() == 0 {
        Seq::empty()
    } else {
        let rest = newest_first(f.drop_last());
        rest.insert(newest_slot(rest, f.last().created_at as int, 0), f.last())
    }
}

proof fn lemma_newest_slot(s: Seq<FinishedTask>, t: int, k: int)
    requires
        0 <= k <= s.len(),
    ensures
        k <= newest_slot(s, t, k) <= s.len(),
        forall|j: int| k <= j < newest_slot(s, t, k) ==> (#[trigger] s[j]).created_at > t,
        newest_slot(s, t, k) < s.len() ==> s[newest_slot(s, t, k)].created_at <= t,
    decreases s.len() - k,
{
    if k < s.len() && s[k].created_at > t {
        lemma_newest_slot(s, t, k + 1);
    }
}

proof fn lemma_newest_slot_skip(s: Seq<FinishedTask>, t: int, j: int, k: int)
    requires
        0 <= j <= k <= s.len(),
        forall|m: int| j <= m < k ==> (#[trigger] s[m]).created_at > t,
    ensures
        newest_slot(s, t, j) == newest_slot(s, t, k),
    decreases k - j,
{
    if j < k {
        lemma_newest_slot_skip(s, t, j + 1, k);
    }
}

/// The newest-first listing holds as many records as the archive, ordered by
/// archive time, newest first.
pub proof fn lemma_newest_first_sorted(f: Seq<FinishedTask>)
    ensures
        newest_first(f).len() == f.len(),
        forall|a: int, b: int|
            0 <= a < b < f.len() ==> #[trigger] newest_first(f)[a].created_at >= #[trigger] newest_first(f)[b].created_at,
    decreases f.len(),
{
    if f.len() > 0 {
        let rest = newest_first(f.drop_last());
        let x = f.last();
        let t = x.created_at as int;
        lemma_newest_first_sorted(f.drop_last());
        lemma_newest_slot(rest, t, 0);
        let p = newest_slot(rest, t, 0);
        let nf = newest_first(f);
        assert(nf == rest.insert(p, x));
        assert forall|a: int| 0 <= a < nf.len() implies #[trigger] nf[a] == (if a < p {
            rest[a]
        } else if a == p {
            x
        } else {
            rest[a - 1]
        }) by {}
        assert forall|a: int, b: int| 0 <= a < b < f.len() implies #[trigger] nf[a].created_at
            >= #[trigger] nf[b].created_at by {
            assert(nf[a] == (if a < p { rest[a] } else if a == p { x } else { rest[a - 1] }));
            assert(nf[b] == (if b < p { rest[b] } else if b == p { x } else { rest[b - 1] }));
            if a < p && b > p {
                assert(rest[a].created_at >= rest[b - 1].created_at);
            } else if a == p && b > p {
                if b - 1 > p {
                    assert(rest[p].created_at >= rest[b - 1].created_at);
                }
            }
        }
    }
}

/// The archive records that a page window selects, newest first.
pub open spec fn page_items(f: Seq<FinishedTask>, q: PageQuery) -> Seq<FinishedTask> {
    let n = f.len() as int;
    let lo = if q.offset < n { q.offset as int } else { n };
    let hi = if q.offset + q.limit < n { q.offset + q.limit } else { n };
    newest_first(f).subrange(lo, hi)
}

/// The archive ordered newest first, as `newest_first` states it.
fn archive_newest_first(store: &MemoryStore) -> (r: Vec<FinishedTask>)
    ensures
        r@ == newest_first(store@.finished),
{
    let ghost f = store@.finished;
    let mut r: Vec<FinishedTask> = Vec::new();
    let mut i: usize = 0;
    while i < store.finished.len()
        invariant
            f == store@.finished,
            0 <= i <= f.len(),
            r@ == newest_first(f.take(i as int)),
        decreases f.len() - i,
    {
        let x = store.finished[i].clone_record();
        let ghost t = x.created_at as int;
        let mut k: usize = 0;
        while k < r.len() && r[k].created_at > x.created_at
            invariant
                0 <= k <= r@.len(),
                t == x.created_at,
                forall|m: int| 0 <= m < k ==> (#[trigger] r@[m]).created_at > t,
            decreases r@.len() - k,
        {
            k = k + 1;
        }
        proof {
            lemma_newest_slot_skip(r@, t, 0, k as int);
            let pre = f.take(i + 1);
            assert(pre.drop_last() =~= f.take(i as int));
            assert(pre.last() == x);
        }
        r.insert(k, x);
        i = i + 1;
    }
    assert(f.take(i as int) =~= f);
    r
}

/// One page of the archive, newest record first by archive time. As the
/// listing has always done, a page holds the requested limit (100 by
/// default) and one more record, and `total_pages` is the number of records
/// divided by that length, rounded down.
pub fn finished_tasks(store: &MemoryStore, cursor: &PaginationCursor) -> (r: Result<Paginated<FinishedTask>, PageError>)
    ensures
        match r {
            Ok(p) => spec_page_query(*cursor) matches Ok(q) && {
                &&& p.items@ == page_items(store@.finished, q)
                &&& p.total_pages == (store@.finished.len() as int) / (q.limit as int)
                &&& p.page == q.page
                &&& forall|a: int, b: int|
                    0 <= a < b < p.items@.len() ==> #[trigger] p.items@[a].created_at
                        >= #[trigger] p.items@[b].created_at
            },
            Err(e) => spec_page_query(*cursor) == Err::<PageQuery, PageError>(e),
        },
{
    let q = match page_query(cursor) {
        Ok(q) => q,
        Err(e) => return Err(e),
    };
    proof {
        lemma_page_query_bounds(*cursor);
        lemma_newest_first_sorted(store@.finished);
    }
    let sorted = archive_newest_first(store);
    let n = sorted.len();
    let ghost f = store@.finished;
    let offset = q.offset as u64;
    let limit = q.limit as u64;
    let lo: usize = if offset < n as u64 { offset as usize } else { n };
    let hi: usize = if offset < n as u64 && limit < n as u64 - offset {
        (offset + limit) as usize
    } else {
        n
    };
    let mut items: Vec<FinishedTask> = Vec::new();
    let mut k: usize = lo;
    while k < hi
        invariant
            sorted@ == newest_first(f),
            n == f.len(),
            n == sorted@.len(),
            lo <= k <= hi <= n,
            items@ == newest_first(f).subrange(lo as int, k as int),
        decreases hi - k,
    {
        items.push(sorted[k].clone_record());
        assert(items@ =~= newest_first(f).subrange(lo as int, k + 1));
        k = k + 1;
    }
    assert(items@ =~= page_items(f, q));
    proof {
        assert forall|a: int, b: int| 0 <= a < b < items@.len() implies #[trigger] items@[a].created_at
            >= #[trigger] items@[b].created_at by {
            assert(items@[a] == newest_first(f)[lo + a]);
            assert(items@[b] == newest_first(f)[lo + b]);
        }
    }
    Ok(Paginated { items, total_pages: n / (q.limit as usize), page: q.page })
}

/// The set of identities held in a sequence of connection names.
pub open spec fn identities(s: Seq<String>) -> Set<Seq<char>> {
    Set::new(|w: Seq<char>| exists|i: int| 0 <= i < s.len() && #[trigger] s[i]@ == w)
}

proof fn lemma_identities_push(s: Seq<String>, x: String)
    ensures
        identities(s.push(x)) == identities(s).insert(x@),
{
    let t = s.push(x);
    assert forall|w: Seq<char>| #[trigger] identities(t).contains(w) == identities(s).insert(x@).contains(w) by {
        if identities(s).contains(w) {
            let i = choose|i: int| 0 <= i < s.len() && #[trigger] s[i]@ == w;
            assert(t[i]@ == w);
        }
        if w == x@ {
            assert(t[s.len() as int]@ == w);
        }
        if identities(t).contains(w) {
            let i = choose|i: int| 0 <= i < t.len() && #[trigger] t[i]@ == w;
            if i < s.len() {
                assert(s[i]@ == w);
            }
        }
    }
    assert(identities(t) =~= identities(s).insert(x@));
}

} // verus!

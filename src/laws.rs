//! Laws of the engine that relate several operations, proved over the
//! postconditions that the operations themselves guarantee.
use crate::retry::{spec_retry_status, RetryStatus};
use crate::store::{
    claim_post, claimable, enqueue_post, fail_post, holds_live_claim, in_batch, key_matches,
    same_key, spec_claimed, wake_for, Enqueued, StoreError, StoreView,
};
use crate::task::{InflightTask, NewTask};
use vstd::prelude::*;

verus! {

proof fn lemma_unique_id(s: StoreView, i: int)
    requires
        s.wf(),
        0 <= i < s.tasks.len(),
    ensures
        s.has_id(s.tasks[i].id as int),
        s.index_of(s.tasks[i].id as int) == i,
{
    assert(s.tasks[i].id == s.tasks[i].id);
    let c = s.index_of(s.tasks[i].id as int);
    if c != i {
        assert(s.tasks[c].id != s.tasks[i].id);
    }
}

/// Mutual exclusion: while the worker that claimed a batch stays connected,
/// a later claim, by any worker, never returns a task of that batch.
pub proof fn lemma_claims_are_exclusive(
    s0: StoreView,
    w1: String,
    n1: int,
    now1: int,
    b1: Seq<InflightTask>,
    s1: StoreView,
    w2: String,
    n2: int,
    now2: int,
    b2: Seq<InflightTask>,
    s2: StoreView,
)
    requires
        s0.wf(),
        s0.live.contains(w1@),
        claim_post(s0, w1, n1, now1, b1, s1),
        s1.wf(),
        claim_post(s1, w2, n2, now2, b2, s2),
    ensures
        forall|k1: int, k2: int|
            0 <= k1 < b1.len() && 0 <= k2 < b2.len() ==> #[trigger] b1[k1].id != #[trigger] b2[k2].id,
{
    assert forall|k1: int, k2: int| 0 <= k1 < b1.len() && 0 <= k2 < b2.len() implies #[trigger] b1[k1].id
        != #[trigger] b2[k2].id by {
        if b1[k1].id == b2[k2].id {
            let id = b1[k1].id;
            // the row that the first claim took
            assert(s0.has_id(id as int));
            let i = s0.index_of(id as int);
            assert(s0.tasks[i].id == id);
            assert(in_batch(b1, s0.tasks[i].id));
            assert(s1.tasks[i] == spec_claimed(s0.tasks[i], w1, now1));
            assert(holds_live_claim(s1.tasks[i], s1.live));
            // the row that the second claim took is the same one
            assert(s1.has_id(id as int));
            lemma_unique_id(s1, i);
            assert(s1.tasks[i].id == id);
            assert(in_batch(b2, s1.tasks[i].id));
            assert(claimable(s1.tasks[i], s1.live, now2));
        }
    }
}

/// A task held by a live worker is never handed out again: whatever happened
/// before, a claim by any worker neither returns such a task nor changes its
/// row.
pub proof fn lemma_live_claim_never_taken(
    s: StoreView,
    i: int,
    w: String,
    n: int,
    now: int,
    b: Seq<InflightTask>,
    s2: StoreView,
)
    requires
        s.wf(),
        0 <= i < s.tasks.len(),
        holds_live_claim(s.tasks[i], s.live),
        claim_post(s, w, n, now, b, s2),
    ensures
        !in_batch(b, s.tasks[i].id),
        s2.tasks[i] == s.tasks[i],
{
    if in_batch(b, s.tasks[i].id) {
        assert(claimable(s.tasks[i], s.live, now));
    }
}

/// Every task a live worker claims is held by that worker afterwards, so by
/// the law above no claim hands it to anyone else while the worker stays live.
pub proof fn lemma_claimed_tasks_are_held(
    s: StoreView,
    w: String,
    n: int,
    now: int,
    b: Seq<InflightTask>,
    s2: StoreView,
)
    requires
        s.wf(),
        s.live.contains(w@),
        claim_post(s, w, n, now, b, s2),
    ensures
        forall|k: int|
            0 <= k < b.len() ==> {
                let i = s.index_of(#[trigger] b[k].id as int);
                &&& 0 <= i < s2.tasks.len()
                &&& s2.tasks[i].id == b[k].id
                &&& s2.tasks[i].worker_id == Some(w)
                &&& holds_live_claim(s2.tasks[i], s2.live)
            },
{
    assert forall|k: int| 0 <= k < b.len() implies {
        let i = s.index_of(#[trigger] b[k].id as int);
        &&& 0 <= i < s2.tasks.len()
        &&& s2.tasks[i].id == b[k].id
        &&& s2.tasks[i].worker_id == Some(w)
        &&& holds_live_claim(s2.tasks[i], s2.live)
    } by {
        let i = s.index_of(b[k].id as int);
        assert(s.has_id(b[k].id as int));
        assert(0 <= i < s.tasks.len() && s.tasks[i].id == b[k].id);
        assert(in_batch(b, s.tasks[i].id));
    }
}

/// Reclaim after a disconnect: once the worker holding a due task is dropped
/// from the live set, the task is claimable, and the next claim that has room
/// left in its batch takes it for the claiming worker.
pub proof fn lemma_disconnect_frees_claims(
    s0: StoreView,
    w: String,
    s1: StoreView,
    i: int,
    w2: String,
    n: int,
    now: int,
    b: Seq<InflightTask>,
    s2: StoreView,
)
    requires
        s0.wf(),
        0 <= i < s0.tasks.len(),
        s0.tasks[i].worker_id matches Some(x) && x@ == w@,
        s0.tasks[i].run_at <= now,
        s1 == (StoreView { live: s0.live.remove(w@), ..s0 }),
        claim_post(s1, w2, n, now, b, s2),
        b.len() < n,
    ensures
        claimable(s1.tasks[i], s1.live, now),
        in_batch(b, s0.tasks[i].id),
        s2.tasks[i].worker_id == Some(w2),
{
    assert(!s1.live.contains(w@));
    assert(claimable(s1.tasks[i], s1.live, now));
    if !in_batch(b, s1.tasks[i].id) {
        assert(!claimable(s1.tasks[i], s1.live, now));
    }
}

/// Idempotent enqueue: enqueueing a task with the same `(job_name, name,
/// endpoint)` again returns the same id and adds no row.
pub proof fn lemma_enqueue_idempotent(
    s0: StoreView,
    t1: NewTask,
    now1: int,
    r1: Result<Enqueued, StoreError>,
    s1: StoreView,
    t2: NewTask,
    now2: int,
    r2: Result<Enqueued, StoreError>,
    s2: StoreView,
)
    requires
        s0.wf(),
        enqueue_post(s0, t1, now1, r1, s1),
        s1.wf(),
        r1 is Ok,
        t2.job_name@ == t1.job_name@,
        t2.name@ == t1.name@,
        t2.endpoint@ == t1.endpoint@,
        enqueue_post(s1, t2, now2, r2, s2),
    ensures
        r2 is Ok,
        r2.unwrap().id == r1.unwrap().id,
        s2.tasks.len() == s1.tasks.len(),
{
    // the row that holds the key after the first enqueue
    let i: int = if s0.has_key(t1) {
        s0.index_of_key(t1)
    } else {
        s0.tasks.len() as int
    };
    assert(0 <= i < s1.tasks.len());
    assert(key_matches(s1.tasks[i], t2));
    assert(s1.tasks[i].id == r1.unwrap().id);
    assert(s1.has_key(t2));
    let c = s1.index_of_key(t2);
    if c != i {
        assert(same_key(s1.tasks[c], s1.tasks[i]));
    }
}

/// Enqueueing a task whose `(job_name, name, endpoint)` is already in the
/// working table, whatever came before, returns that row's id and adds no
/// row.
pub proof fn lemma_enqueue_known_key(
    s: StoreView,
    i: int,
    t: NewTask,
    now: int,
    r: Result<Enqueued, StoreError>,
    s2: StoreView,
)
    requires
        s.wf(),
        0 <= i < s.tasks.len(),
        key_matches(s.tasks[i], t),
        enqueue_post(s, t, now, r, s2),
    ensures
        r == Ok::<Enqueued, StoreError>(Enqueued { id: s.tasks[i].id, wake: wake_for(s.tasks[i], now) }),
        s2.tasks.len() == s.tasks.len(),
        s2.tasks[i].id == s.tasks[i].id,
        forall|j: int| 0 <= j < s2.tasks.len() && j != i ==> !same_key(#[trigger] s2.tasks[j], s2.tasks[i]),
{
    assert(s.has_key(t));
    let c = s.index_of_key(t);
    if c != i {
        assert(same_key(s.tasks[c], s.tasks[i]));
    }
    assert forall|j: int| 0 <= j < s2.tasks.len() && j != i implies !same_key(#[trigger] s2.tasks[j], s2.tasks[i]) by {
        assert(s2.tasks[j] == s.tasks[j]);
        assert(!same_key(s.tasks[j], s.tasks[i]));
    }
}

/// A retriable failure within the retry budget reschedules the task: its
/// `retry_count` grows by exactly one, its `run_at` is `retry_delay` after the
/// failure, it stays in the working table unclaimed, and the archive does not
/// hold it.
pub proof fn lemma_retry_reschedules(
    s0: StoreView,
    id: i64,
    now: int,
    message: Seq<char>,
    s1: StoreView,
)
    requires
        s0.wf(),
        s0.has_id(id as int),
        s0.tasks[s0.index_of(id as int)].retry_count < s0.tasks[s0.index_of(id as int)].max_retries,
        i64::MIN <= now,
        now + s0.retry_delay <= i64::MAX,
        fail_post(s0, id, now, message, true, s1),
    ensures
        ({
            let i = s0.index_of(id as int);
            &&& s1.tasks.len() == s0.tasks.len()
            &&& s1.tasks[i].id == id
            &&& s1.tasks[i].retry_count == s0.tasks[i].retry_count + 1
            &&& s1.tasks[i].run_at == now + s0.tasks[i].retry_delay
            &&& s1.tasks[i].worker_id is None
            &&& s1.finished == s0.finished
            &&& forall|j: int| 0 <= j < s1.finished.len() ==> #[trigger] s1.finished[j].id != id
        }),
{
    let i = s0.index_of(id as int);
    let t = s0.tasks[i];
    assert(0 <= i < s0.tasks.len() && s0.tasks[i].id == id);
    assert(spec_retry_status(true, t.max_retries as int, t.retry_count as int) == RetryStatus::Retry);
    assert(t.retry_delay == s0.retry_delay);
    assert forall|j: int| 0 <= j < s1.finished.len() implies #[trigger] s1.finished[j].id != id by {
        assert(s0.tasks[i].id != s0.finished[j].id);
    }
}

/// The archive record of a failure, appended last, with the failure reason.
pub open spec fn archived_once_with(s0: StoreView, id: i64, message: Seq<char>, s1: StoreView) -> bool {
    &&& !s1.has_id(id as int)
    &&& s1.tasks.len() + 1 == s0.tasks.len()
    &&& s1.finished.len() == s0.finished.len() + 1
    &&& s1.finished.last().id == id
    &&& s1.finished.last().error_message matches Some(m) && m@ == message
    &&& forall|j: int| 0 <= j < s0.finished.len() ==> #[trigger] s1.finished[j].id != id
}

proof fn lemma_archived(s0: StoreView, id: i64, now: int, message: Seq<char>, retriable: bool, s1: StoreView)
    requires
        s0.wf(),
        s0.has_id(id as int),
        fail_post(s0, id, now, message, retriable, s1),
        ({
            let t = s0.tasks[s0.index_of(id as int)];
            spec_retry_status(retriable, t.max_retries as int, t.retry_count as int) != RetryStatus::Retry
        }),
    ensures
        archived_once_with(s0, id, message, s1),
{
    let i = s0.index_of(id as int);
    let t = s0.tasks[i];
    let m = choose|m: String|
        m@ == message && s1 == (StoreView {
            tasks: s0.tasks.remove(i),
            finished: s0.finished.push(#[trigger] t.spec_archived(Some(m), now)),
            ..s0
        });
    assert(s1.finished.last() == t.spec_archived(Some(m), now));
    assert forall|j: int| 0 <= j < s0.finished.len() implies #[trigger] s1.finished[j].id != id by {
        assert(s1.finished[j] == s0.finished[j]);
        assert(s0.tasks[i].id != s0.finished[j].id);
    }
    if s1.has_id(id as int) {
        let a = choose|a: int| 0 <= a < s1.tasks.len() && s1.tasks[a].id == id;
        let oa = if a < i { a } else { a + 1 };
        assert(s1.tasks[a] == s0.tasks[oa]);
        assert(s0.tasks[oa].id != s0.tasks[i].id);
    }
}

/// A retriable failure once the retry budget is spent removes the task from
/// the working table and archives it exactly once, with the failure reason.
pub proof fn lemma_exhausted_failure_archives(
    s0: StoreView,
    id: i64,
    now: int,
    message: Seq<char>,
    s1: StoreView,
)
    requires
        s0.wf(),
        s0.has_id(id as int),
        s0.tasks[s0.index_of(id as int)].retry_count >= s0.tasks[s0.index_of(id as int)].max_retries,
        fail_post(s0, id, now, message, true, s1),
    ensures
        archived_once_with(s0, id, message, s1),
{
    lemma_archived(s0, id, now, message, true, s1);
}

/// A failure marked not retriable archives the task at once, whatever is left
/// of its retry budget.
pub proof fn lemma_non_retriable_failure_archives(
    s0: StoreView,
    id: i64,
    now: int,
    message: Seq<char>,
    s1: StoreView,
)
    requires
        s0.wf(),
        s0.has_id(id as int),
        fail_post(s0, id, now, message, false, s1),
    ensures
        archived_once_with(s0, id, message, s1),
{
    lemma_archived(s0, id, now, message, false, s1);
}

} // verus!

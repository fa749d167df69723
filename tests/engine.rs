use pointguard::{
    cancel_task, enqueue, enqueued_tasks, finished_tasks, free_tasks, ongoing_tasks, settle,
    response_or_failure, Enqueued, Event, InvokedTaskResponse, MemoryStore, NewTask,
    NewTaskPayload, PaginationCursor, StoreError,
};

const SECOND: i64 = 1_000_000;

fn new_task(job: &str, name: &str, endpoint: &str, max_retries: Option<i32>) -> NewTask {
    NewTask {
        job_name: job.to_string(),
        data: "{\"user\":42}".to_string(),
        endpoint: endpoint.to_string(),
        name: name.to_string(),
        run_at: None,
        max_retries,
    }
}

fn store_with_worker(worker: &str) -> (MemoryStore, String) {
    let mut store = MemoryStore::new(30 * SECOND);
    let w = worker.to_string();
    store.register_worker(w.clone());
    (store, w)
}

#[test]
fn enqueue_returns_id_and_wake_when_due() {
    let mut store = MemoryStore::new(SECOND);
    let r = enqueue(&mut store, &new_task("email", "a", "http://h/e", None), 100).unwrap();
    assert_eq!(r, Enqueued { id: 1, wake: Some(NewTaskPayload { id: 1, run_at: 100 }) });
    let tasks = enqueued_tasks(&store);
    assert_eq!(tasks.len(), 1);
    assert_eq!(tasks[0].max_retries, 0);
    assert_eq!(tasks[0].retry_count, 0);
    assert_eq!(tasks[0].run_at, 100);
    assert_eq!(tasks[0].data, "{\"user\":42}");
    assert!(tasks[0].worker_id.is_none());
}

#[test]
fn enqueue_in_future_publishes_no_wake() {
    let mut store = MemoryStore::new(SECOND);
    let mut t = new_task("email", "a", "http://h/e", None);
    t.run_at = Some(500);
    let r = enqueue(&mut store, &t, 100).unwrap();
    assert_eq!(r.wake, None);
    // not claimable before it is due
    store.register_worker("w".to_string());
    assert!(free_tasks(&mut store, &"w".to_string(), 5, 499).is_empty());
    assert_eq!(free_tasks(&mut store, &"w".to_string(), 5, 500).len(), 1);
}

#[test]
fn enqueue_twice_same_key_is_idempotent() {
    let mut store = MemoryStore::new(SECOND);
    let t = new_task("email", "welcome-42", "http://h/e", Some(2));
    let first = enqueue(&mut store, &t, 10).unwrap();
    let second = enqueue(&mut store, &t, 20).unwrap();
    assert_eq!(first.id, second.id);
    assert_eq!(enqueued_tasks(&store).len(), 1);
    // a different endpoint is a different task
    let other = enqueue(&mut store, &new_task("email", "welcome-42", "http://h/f", None), 30).unwrap();
    assert_ne!(other.id, first.id);
    assert_eq!(enqueued_tasks(&store).len(), 2);
}

#[test]
fn claims_of_two_workers_never_overlap() {
    let (mut store, w1) = store_with_worker("w1");
    let w2 = "w2".to_string();
    store.register_worker(w2.clone());
    for i in 0..8 {
        enqueue(&mut store, &new_task("job", &format!("t{i}"), "http://h/e", None), 0).unwrap();
    }
    let b1 = free_tasks(&mut store, &w1, 5, 0);
    let b2 = free_tasks(&mut store, &w2, 5, 0);
    assert_eq!(b1.len(), 5);
    assert_eq!(b2.len(), 3);
    for a in &b1 {
        for b in &b2 {
            assert_ne!(a.id, b.id);
        }
    }
    assert!(free_tasks(&mut store, &w1, 5, 0).is_empty());
    assert_eq!(ongoing_tasks(&store).len(), 8);
    for t in b1.into_iter().chain(b2) {
        t.done(&mut store, 1);
    }
}

#[test]
fn disconnected_worker_tasks_are_reclaimed() {
    let (mut store, w1) = store_with_worker("w1");
    let w2 = "w2".to_string();
    store.register_worker(w2.clone());
    let id = enqueue(&mut store, &new_task("job", "t", "http://h/e", None), 0).unwrap().id;
    let lost = free_tasks(&mut store, &w1, 5, 0);
    assert_eq!(lost.len(), 1);
    assert!(free_tasks(&mut store, &w2, 5, 1).is_empty());
    store.disconnect_worker(&w1);
    assert!(!store.is_live(&w1));
    assert!(ongoing_tasks(&store).is_empty());
    let again = free_tasks(&mut store, &w2, 5, 2);
    assert_eq!(again.len(), 1);
    assert_eq!(again[0].id, id);
    let ongoing = ongoing_tasks(&store);
    assert_eq!(ongoing.len(), 1);
    assert_eq!(ongoing[0].worker_id, "w2");
    assert_eq!(ongoing[0].started_at, 2);
    drop(lost);
    for t in again {
        t.done(&mut store, 3);
    }
}

#[test]
fn retriable_failure_within_budget_reschedules() {
    let (mut store, w) = store_with_worker("w");
    enqueue(&mut store, &new_task("job", "t", "http://h/e", Some(3)), 0).unwrap();
    let t = free_tasks(&mut store, &w, 5, 100).pop().unwrap();
    t.failed(&mut store, 200, "boom", true);
    let tasks = enqueued_tasks(&store);
    assert_eq!(tasks.len(), 1);
    assert_eq!(tasks[0].retry_count, 1);
    assert_eq!(tasks[0].run_at, 200 + 30 * SECOND);
    assert!(tasks[0].worker_id.is_none());
    assert!(finished_tasks(&store, &PaginationCursor::default()).unwrap().items.is_empty());
}

#[test]
fn retriable_failure_at_budget_archives() {
    let (mut store, w) = store_with_worker("w");
    let id = enqueue(&mut store, &new_task("job", "t", "http://h/e", None), 0).unwrap().id;
    let t = free_tasks(&mut store, &w, 5, 0).pop().unwrap();
    t.failed(&mut store, 7, "exhausted", true);
    assert!(enqueued_tasks(&store).is_empty());
    let page = finished_tasks(&store, &PaginationCursor::default()).unwrap();
    assert_eq!(page.items.len(), 1);
    assert_eq!(page.items[0].id, id);
    assert_eq!(page.items[0].error_message.as_deref(), Some("exhausted"));
    assert_eq!(page.items[0].retries, 0);
    assert_eq!(page.items[0].started_at, 0);
}

#[test]
fn non_retriable_failure_archives_at_once() {
    let (mut store, w) = store_with_worker("w");
    enqueue(&mut store, &new_task("job", "t", "http://h/e", Some(5)), 0).unwrap();
    let t = free_tasks(&mut store, &w, 5, 0).pop().unwrap();
    t.failed(&mut store, 1, "bad input", false);
    assert!(enqueued_tasks(&store).is_empty());
    let page = finished_tasks(&store, &PaginationCursor::default()).unwrap();
    assert_eq!(page.items.len(), 1);
    assert_eq!(page.items[0].error_message.as_deref(), Some("bad input"));
    assert_eq!(page.items[0].retries, 0);
}

#[test]
fn success_archives_without_error() {
    let (mut store, w) = store_with_worker("w");
    enqueue(&mut store, &new_task("job", "t", "http://h/e", None), 0).unwrap();
    let t = free_tasks(&mut store, &w, 5, 3).pop().unwrap();
    let e = settle(t, &mut store, 4, InvokedTaskResponse::Success {});
    assert_eq!(e, Event::TaskFinished);
    assert!(enqueued_tasks(&store).is_empty());
    let page = finished_tasks(&store, &PaginationCursor::default()).unwrap();
    assert_eq!(page.items[0].error_message, None);
    assert_eq!(page.items[0].started_at, 3);
    assert_eq!(page.items[0].data, "{\"user\":42}");
}

#[test]
fn email_task_retries_twice_then_archives() {
    let (mut store, w) = store_with_worker("w");
    let t = new_task("email", "welcome-42", "http://h/e", Some(2));
    let id = enqueue(&mut store, &t, 0).unwrap().id;
    let mut now = 0;
    for attempt in 1..=3 {
        let mut batch = free_tasks(&mut store, &w, 5, now);
        assert_eq!(batch.len(), 1);
        let task = batch.pop().unwrap();
        assert_eq!(task.id, id);
        // the endpoint answered with a non-2xx status
        let response = response_or_failure(Err("HTTP status server error (500)".to_string()));
        assert_eq!(settle(task, &mut store, now, response), Event::TaskFailed);
        let tasks = enqueued_tasks(&store);
        if attempt < 3 {
            assert_eq!(tasks.len(), 1);
            assert_eq!(tasks[0].retry_count, attempt);
            assert!(tasks[0].run_at > now);
            now = tasks[0].run_at;
        } else {
            assert!(tasks.is_empty());
        }
    }
    let page = finished_tasks(&store, &PaginationCursor::default()).unwrap();
    assert_eq!(page.items.len(), 1);
    assert_eq!(page.items[0].id, id);
    assert_eq!(page.items[0].retries, 2);
    assert_eq!(page.items[0].error_message.as_deref(), Some("HTTP status server error (500)"));
}

#[test]
fn cancel_refused_while_worker_live_then_removed() {
    let (mut store, w) = store_with_worker("w");
    let id = enqueue(&mut store, &new_task("job", "t", "http://h/e", None), 0).unwrap().id;
    let claimed = free_tasks(&mut store, &w, 5, 0);
    assert_eq!(cancel_task(&mut store, id), None);
    assert_eq!(enqueued_tasks(&store).len(), 1);
    store.disconnect_worker(&w);
    assert_eq!(cancel_task(&mut store, id), Some(id));
    assert!(enqueued_tasks(&store).is_empty());
    drop(claimed);
}

#[test]
fn cancel_unclaimed_and_missing() {
    let mut store = MemoryStore::new(SECOND);
    let id = enqueue(&mut store, &new_task("job", "t", "http://h/e", None), 0).unwrap().id;
    assert_eq!(cancel_task(&mut store, id + 1), None);
    assert_eq!(cancel_task(&mut store, id), Some(id));
    assert_eq!(cancel_task(&mut store, id), None);
}

#[test]
fn finalizing_a_missing_task_changes_nothing() {
    let (mut store, w) = store_with_worker("w");
    let id = enqueue(&mut store, &new_task("job", "t", "http://h/e", None), 0).unwrap().id;
    let t = free_tasks(&mut store, &w, 5, 0).pop().unwrap();
    store.disconnect_worker(&w);
    assert_eq!(cancel_task(&mut store, id), Some(id));
    t.done(&mut store, 1);
    assert!(finished_tasks(&store, &PaginationCursor::default()).unwrap().items.is_empty());
}

#[test]
fn claim_respects_batch_size_zero() {
    let (mut store, w) = store_with_worker("w");
    enqueue(&mut store, &new_task("job", "t", "http://h/e", None), 0).unwrap();
    assert!(free_tasks(&mut store, &w, 0, 0).is_empty());
    assert_eq!(free_tasks(&mut store, &w, 1, 0).len(), 1);
    let _ = StoreError::IdsExhausted;
}

#[test]
fn response_or_failure_maps_errors_to_retriable_failures() {
    match response_or_failure(Err("connection refused".to_string())) {
        InvokedTaskResponse::Failure { reason, retriable } => {
            assert_eq!(reason, "connection refused");
            assert!(retriable);
        }
        InvokedTaskResponse::Success {} => panic!("expected a failure"),
    }
    let explicit = InvokedTaskResponse::Failure { reason: "no".to_string(), retriable: false };
    match response_or_failure(Ok(explicit)) {
        InvokedTaskResponse::Failure { retriable, .. } => assert!(!retriable),
        InvokedTaskResponse::Success {} => panic!("expected a failure"),
    }
}

#[test]
fn enqueued_listed_by_run_at() {
    let mut store = MemoryStore::new(SECOND);
    let mut late = new_task("job", "late", "http://h/e", None);
    late.run_at = Some(10);
    let mut early = new_task("job", "early", "http://h/e", None);
    early.run_at = Some(5);
    let mut middle = new_task("job", "middle", "http://h/e", None);
    middle.run_at = Some(7);
    enqueue(&mut store, &late, 0).unwrap();
    enqueue(&mut store, &early, 0).unwrap();
    enqueue(&mut store, &middle, 0).unwrap();
    let names: Vec<String> = enqueued_tasks(&store).into_iter().map(|t| t.name).collect();
    assert_eq!(names, vec!["early", "middle", "late"]);
}

#[test]
fn finished_listed_by_archive_time() {
    let (mut store, w) = store_with_worker("w");
    let first = enqueue(&mut store, &new_task("job", "first", "http://h/e", None), 0).unwrap().id;
    let second = enqueue(&mut store, &new_task("job", "second", "http://h/e", None), 1).unwrap().id;
    let mut batch = free_tasks(&mut store, &w, 5, 2);
    assert_eq!(batch.len(), 2);
    let b = batch.pop().unwrap();
    let a = batch.pop().unwrap();
    // the task created last is archived first
    let (t_first, t_second) = if a.id == first { (a, b) } else { (b, a) };
    t_second.done(&mut store, 10);
    t_first.done(&mut store, 20);
    let page = finished_tasks(&store, &PaginationCursor::default()).unwrap();
    let ids: Vec<i64> = page.items.iter().map(|f| f.id).collect();
    assert_eq!(ids, vec![first, second]);
    assert_eq!(page.items[0].created_at, 20);
    assert_eq!(page.items[0].task_created_at, 0);
    assert_eq!(page.items[1].created_at, 10);
    assert_eq!(page.items[1].task_created_at, 1);
}

#[test]
fn failure_that_archives_needs_no_time_bound() {
    let w = "w".to_string();
    let mut store_max = MemoryStore::new(i64::MAX);
    store_max.register_worker(w.clone());
    enqueue(&mut store_max, &new_task("job", "t", "http://h/e", None), 0).unwrap();
    let t = free_tasks(&mut store_max, &w, 5, 0).pop().unwrap();
    t.failed(&mut store_max, 1, "gone", true);
    let page = finished_tasks(&store_max, &PaginationCursor::default()).unwrap();
    assert_eq!(page.items.len(), 1);
    assert_eq!(page.items[0].created_at, 1);
}

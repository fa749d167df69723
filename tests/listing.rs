use pointguard::{
    enqueue, finished_tasks, free_tasks, page_query, MemoryStore, NewTask, PageError, PageQuery,
    PaginationCursor,
};

fn archive(n: usize) -> MemoryStore {
    let mut store = MemoryStore::new(0);
    let w = "w".to_string();
    store.register_worker(w.clone());
    for i in 0..n {
        let t = NewTask {
            job_name: "job".to_string(),
            data: "null".to_string(),
            endpoint: "http://h/e".to_string(),
            name: format!("t{i}"),
            run_at: None,
            max_retries: None,
        };
        enqueue(&mut store, &t, i as i64).unwrap();
        for task in free_tasks(&mut store, &w, 1, i as i64) {
            task.done(&mut store, i as i64);
        }
    }
    store
}

#[test]
fn page_query_defaults() {
    let q = page_query(&PaginationCursor::default()).unwrap();
    assert_eq!(q, PageQuery { limit: 101, offset: 0, page: 1 });
}

#[test]
fn page_query_second_page() {
    let q = page_query(&PaginationCursor { page: Some(3), limit: Some(9) }).unwrap();
    assert_eq!(q, PageQuery { limit: 10, offset: 20, page: 3 });
}

#[test]
fn page_query_largest_values() {
    let q = page_query(&PaginationCursor { page: Some(u32::MAX), limit: Some(i32::MAX) }).unwrap();
    assert_eq!(q.limit, i32::MAX as i64 + 1);
    assert_eq!(q.offset, (u32::MAX as i64 - 1) * (i32::MAX as i64 + 1));
}

#[test]
fn page_query_errors() {
    assert_eq!(page_query(&PaginationCursor { page: Some(0), limit: None }), Err(PageError::ZeroPage));
    assert_eq!(page_query(&PaginationCursor { page: None, limit: Some(-1) }), Err(PageError::NegativeLimit));
    assert!(finished_tasks(&archive(0), &PaginationCursor { page: Some(0), limit: None }).is_err());
}

#[test]
fn finished_newest_first_in_pages() {
    let store = archive(7);
    let p1 = finished_tasks(&store, &PaginationCursor { page: Some(1), limit: Some(2) }).unwrap();
    let ids: Vec<i64> = p1.items.iter().map(|f| f.id).collect();
    assert_eq!(ids, vec![7, 6, 5]);
    assert_eq!(p1.total_pages, 2);
    assert_eq!(p1.page, 1);
    let p3 = finished_tasks(&store, &PaginationCursor { page: Some(3), limit: Some(2) }).unwrap();
    let ids: Vec<i64> = p3.items.iter().map(|f| f.id).collect();
    assert_eq!(ids, vec![1]);
    let p4 = finished_tasks(&store, &PaginationCursor { page: Some(4), limit: Some(2) }).unwrap();
    assert!(p4.items.is_empty());
}

#[test]
fn finished_empty_archive() {
    let p = finished_tasks(&archive(0), &PaginationCursor::default()).unwrap();
    assert!(p.items.is_empty());
    assert_eq!(p.total_pages, 0);
    assert_eq!(p.page, 1);
}

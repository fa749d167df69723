use pointguard::retry::{retry_status, RetryStatus};
use pointguard::worker_loop::{next, start, CLAIM_BATCH, IDLE_MILLIS, PAUSE_MILLIS};
use pointguard::{
    bool_true, connect, generate_nanoid, serve, task_name_or_generated, worker_identity,
    LoopAction, LoopEvent, LoopState, MemoryStore, ServePublic, Step, TracingFormat,
};

fn is_token(s: &str) -> bool {
    s.chars().count() == 21 && s.chars().all(|c| c.is_ascii_alphanumeric() || c == '_' || c == '-')
}

#[test]
fn retry_status_table() {
    assert_eq!(retry_status(true, 2, 0), RetryStatus::Retry);
    assert_eq!(retry_status(true, 2, 1), RetryStatus::Retry);
    assert_eq!(retry_status(true, 2, 2), RetryStatus::GiveUp);
    assert_eq!(retry_status(true, 0, 0), RetryStatus::GiveUp);
    assert_eq!(retry_status(false, 5, 0), RetryStatus::Bailed);
    assert_eq!(RetryStatus::Bailed.label(), "bailed (not retriable)");
    assert_eq!(RetryStatus::GiveUp.label(), "giving up");
    assert_eq!(RetryStatus::Retry.label(), "retry");
}

#[test]
fn loop_claims_after_pause_and_dispatches() {
    let s = start();
    assert_eq!(s, Step { state: LoopState::Pausing, action: LoopAction::Pause(PAUSE_MILLIS) });
    let s = next(s.state, LoopEvent::PauseElapsed);
    assert_eq!(s.action, LoopAction::Claim(CLAIM_BATCH));
    assert_eq!(CLAIM_BATCH, 5);
    let s = next(s.state, LoopEvent::Claimed(3));
    assert_eq!(s, Step { state: LoopState::Pausing, action: LoopAction::Dispatch { count: 3, pause_millis: 10 } });
}

#[test]
fn loop_idles_on_empty_or_failed_claim() {
    let empty = next(LoopState::Claiming, LoopEvent::Claimed(0));
    assert_eq!(empty, Step { state: LoopState::Idle, action: LoopAction::IdleWait(IDLE_MILLIS) });
    assert_eq!(IDLE_MILLIS, 20000);
    assert_eq!(next(LoopState::Claiming, LoopEvent::ClaimFailed), empty);
    let woken = next(LoopState::Idle, LoopEvent::Woken);
    assert_eq!(woken, Step { state: LoopState::Pausing, action: LoopAction::Pause(10) });
    assert_eq!(next(LoopState::Idle, LoopEvent::IdleTimeout), woken);
}

#[test]
fn loop_exits_on_shutdown() {
    for s in [LoopState::Pausing, LoopState::Claiming, LoopState::Idle, LoopState::Stopped] {
        assert_eq!(next(s, LoopEvent::Shutdown), Step { state: LoopState::Stopped, action: LoopAction::Exit });
    }
    assert_eq!(next(LoopState::Stopped, LoopEvent::Woken).action, LoopAction::Exit);
    assert_eq!(next(LoopState::Pausing, LoopEvent::Woken).action, LoopAction::Pause(10));
}

#[test]
fn identities_and_generated_names() {
    assert_eq!(worker_identity("abc"), "pointguard:abc");
    let name = generate_nanoid();
    assert!(is_token(&name));
    assert_ne!(generate_nanoid(), name);
    assert_eq!(task_name_or_generated(Some("mine".to_string())), "mine");
    assert!(is_token(&task_name_or_generated(None)));
}

#[test]
fn connect_registers_a_live_identity() {
    let mut store = MemoryStore::new(0);
    let w = connect(&mut store);
    assert!(w.starts_with("pointguard:"));
    assert!(is_token(&w["pointguard:".len()..]));
    assert!(store.is_live(&w));
    store.disconnect_worker(&w);
    assert!(!store.is_live(&w));
}

#[test]
fn asset_keys_and_fallback() {
    let _service: ServePublic = serve();
    assert_eq!(ServePublic::asset_key("/index.js"), "index.js");
    assert_eq!(ServePublic::asset_key("plain"), "plain");
    assert_eq!(ServePublic::asset_key(""), "");
    assert_eq!(ServePublic::fallback_key("enqueued"), Some("index.html".to_string()));
    assert_eq!(ServePublic::fallback_key("assets/app.css"), None);
    assert_eq!(ServePublic::fallback_key("asset"), Some("index.html".to_string()));
}

#[test]
fn small_defaults() {
    assert!(bool_true());
    assert_eq!(TracingFormat::default_for_build(true), TracingFormat::Pretty);
    assert_eq!(TracingFormat::default_for_build(false), TracingFormat::Json);
}

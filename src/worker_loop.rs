use vstd::prelude::*;

verus! {

/// How many tasks one claim asks for.
pub const CLAIM_BATCH: usize = 5;

/// The pause between two claims while work keeps coming, in milliseconds.
pub const PAUSE_MILLIS: u64 = 10;

/// The longest idle wait when nothing is due, in milliseconds.
pub const IDLE_MILLIS: u64 = 20000;

/// Where the worker loop stands.
#[derive(Debug, Clone, Copy, PartialEq, Eq, Structural)]
pub enum LoopState {
    /// Waiting out the short pause before the next claim.
    Pausing,
    /// Waiting for the result of a claim.
    Claiming,
    /// Nothing was due: waiting for the idle timeout or a wake notification.
    Idle,
    /// Shut down.
    Stopped,
}

/// What happened while the loop waited.
#[derive(Debug, Clone, Copy, PartialEq, Eq, Structural)]
pub enum LoopEvent {
    /// The shutdown signal fired.
    Shutdown,
    /// The pause is over.
    PauseElapsed,
    /// A claim returned this many tasks.
    Claimed(usize),
    /// The claim failed at the store; it counts as an empty claim.
    ClaimFailed,
    /// The idle wait timed out.
    IdleTimeout,
    /// A wake notification arrived.
    Woken,
}

/// What the loop asks its runner to do next.
#[derive(Debug, Clone, Copy, PartialEq, Eq, Structural)]
pub enum LoopAction {
    /// Sleep this many milliseconds, unless shutdown comes first.
    Pause(u64),
    /// Claim up to this many tasks.
    Claim(usize),
    /// Start the invocation of each claimed task without waiting for them,
    /// then pause this many milliseconds.
    Dispatch { count: usize, pause_millis: u64 },
    /// Wait this many milliseconds, a wake notification, or shutdown.
    IdleWait(u64),
    /// Leave the loop; dispatched invocations run on.
    Exit,
}

/// A transition of the loop.
#[derive(Debug, Clone, Copy, PartialEq, Eq, Structural)]
pub struct Step {
    pub state: LoopState,
    pub action: LoopAction,
}

/// What the loop does again when an event does not fit its state.
pub open spec fn spec_resume(state: LoopState) -> LoopAction {
    match state {
        LoopState::Pausing => LoopAction::Pause(PAUSE_MILLIS),
        LoopState::Claiming => LoopAction::Claim(CLAIM_BATCH),
        LoopState::Idle => LoopAction::IdleWait(IDLE_MILLIS),
        LoopState::Stopped => LoopAction::Exit,
    }
}

/// The transition table of the worker loop.
pub open spec fn spec_next(state: LoopState, event: LoopEvent) -> Step {
    match (state, event) {
        (LoopState::Stopped, _) => Step { state: LoopState::Stopped, action: LoopAction::Exit },
        (_, LoopEvent::Shutdown) => Step { state: LoopState::Stopped, action: LoopAction::Exit },
        (LoopState::Pausing, LoopEvent::PauseElapsed) => Step {
            state: LoopState::Claiming,
            action: LoopAction::Claim(CLAIM_BATCH),
        },
        (LoopState::Claiming, LoopEvent::Claimed(n)) => if n > 0 {
            Step {
                state: LoopState::Pausing,
                action: LoopAction::Dispatch { count: n, pause_millis: PAUSE_MILLIS },
            }
        } else {
            Step { state: LoopState::Idle, action: LoopAction::IdleWait(IDLE_MILLIS) }
        },
        (LoopState::Claiming, LoopEvent::ClaimFailed) => Step {
            state: LoopState::Idle,
            action: LoopAction::IdleWait(IDLE_MILLIS),
        },
        (LoopState::Idle, LoopEvent::IdleTimeout) => Step {
            state: LoopState::Pausing,
            action: LoopAction::Pause(PAUSE_MILLIS),
        },
        (LoopState::Idle, LoopEvent::Woken) => Step {
            state: LoopState::Pausing,
            action: LoopAction::Pause(PAUSE_MILLIS),
        },
        _ => Step { state, action: spec_resume(state) },
    }
}

/// The first step: a short pause, then the first claim.
pub fn start() -> (r: Step)
    ensures
        r == (Step { state: LoopState::Pausing, action: LoopAction::Pause(PAUSE_MILLIS) }),
{
    Step { state: LoopState::Pausing, action: LoopAction::Pause(PAUSE_MILLIS) }
}

/// The next state and action of the loop after `event`.
pub fn next(state: LoopState, event: LoopEvent) -> (r: Step)
    ensures
        r == spec_next(state, event),
{
    match (state, event) {
        (LoopState::Stopped, _) => Step { state: LoopState::Stopped, action: LoopAction::Exit },
        (_, LoopEvent::Shutdown) => Step { state: LoopState::Stopped, action: LoopAction::Exit },
        (LoopState::Pausing, LoopEvent::PauseElapsed) => Step {
            state: LoopState::Claiming,
            action: LoopAction::Claim(CLAIM_BATCH),
        },
        (LoopState::Claiming, LoopEvent::Claimed(n)) => if n > 0 {
            Step {
                state: LoopState::Pausing,
                action: LoopAction::Dispatch { count: n, pause_millis: PAUSE_MILLIS },
            }
        } else {
            Step { state: LoopState::Idle, action: LoopAction::IdleWait(IDLE_MILLIS) }
        },
        (LoopState::Claiming, LoopEvent::ClaimFailed) => Step {
            state: LoopState::Idle,
            action: LoopAction::IdleWait(IDLE_MILLIS),
        },
        (LoopState::Idle, LoopEvent::IdleTimeout) => Step {
            state: LoopState::Pausing,
            action: LoopAction::Pause(PAUSE_MILLIS),
        },
        (LoopState::Idle, LoopEvent::Woken) => Step {
            state: LoopState::Pausing,
            action: LoopAction::Pause(PAUSE_MILLIS),
        },
        _ => Step {
            state,
            action: match state {
                LoopState::Pausing => LoopAction::Pause(PAUSE_MILLIS),
                LoopState::Claiming => LoopAction::Claim(CLAIM_BATCH),
                LoopState::Idle => LoopAction::IdleWait(IDLE_MILLIS),
                LoopState::Stopped => LoopAction::Exit,
            },
        },
    }
}

/// Shutdown is prompt: from any state, the shutdown signal leads to `Exit`.
pub proof fn lemma_shutdown_exits(state: LoopState)
    ensures
        spec_next(state, LoopEvent::Shutdown) == (Step { state: LoopState::Stopped, action: LoopAction::Exit }),
{
}

/// The loop never starves: from the idle wait, the timeout alone leads back
/// to a claim, after one pause.
pub proof fn lemma_idle_returns_to_claim()
    ensures
        spec_next(LoopState::Idle, LoopEvent::IdleTimeout).state == LoopState::Pausing,
        spec_next(LoopState::Pausing, LoopEvent::PauseElapsed) == (Step {
            state: LoopState::Claiming,
            action: LoopAction::Claim(CLAIM_BATCH),
        }),
{
}

} // verus!

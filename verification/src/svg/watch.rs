//! The decisions of the watch loop: when to wait, and when to rebuild.
//!
//! The loop itself waits for changes and timers and runs the rebuilds; it
//! hands each event to `watch_step` and does what the step asks for.
use vstd::prelude::*;

verus! {

/// Where the watch loop stands.
#[derive(Clone, Copy, Debug, PartialEq, Eq, Structural)]
pub enum WatchState {
    /// Nothing has changed since the last rebuild started.
    Idle,
    /// Something has changed; the debounce timer runs.
    Debouncing,
    /// A rebuild runs. `pending` tells whether something has changed since it
    /// started.
    Rebuilding { pending: bool },
}

/// What the watch loop is told.
#[derive(Clone, Copy, Debug, PartialEq, Eq, Structural)]
pub enum WatchEvent {
    /// An input has changed.
    Changed,
    /// The debounce timer has run out.
    TimerFired,
    /// The rebuild has ended, however it ended.
    RebuildDone,
}

/// What the watch loop has to do next.
#[derive(Clone, Copy, Debug, PartialEq, Eq, Structural)]
pub enum WatchAction {
    /// Go on waiting.
    Wait,
    /// Start the debounce timer with this many milliseconds.
    StartTimer { millis: u64 },
    /// Run a rebuild to its end.
    Rebuild,
}

/// The interval of the debounce timer: the one asked for, and one
/// millisecond at least.
pub open spec fn debounce_interval(debounce_ms: u64) -> u64 {
    if debounce_ms == 0 {
        1
    } else {
        debounce_ms
    }
}

/// The step of the watch loop. A change starts the debounce timer; further
/// changes while it runs are gathered; when it runs out, a rebuild starts. A
/// change during a rebuild is kept as pending, and a rebuild that ends with a
/// change pending starts the timer again.
pub open spec fn next(state: WatchState, event: WatchEvent, debounce_ms: u64) -> (
    WatchState,
    WatchAction,
) {
    match (state, event) {
        (WatchState::Idle, WatchEvent::Changed) => (
            WatchState::Debouncing,
            WatchAction::StartTimer { millis: debounce_interval(debounce_ms) },
        ),
        (WatchState::Debouncing, WatchEvent::TimerFired) => (
            WatchState::Rebuilding { pending: false },
            WatchAction::Rebuild,
        ),
        (WatchState::Rebuilding { pending }, WatchEvent::Changed) => (
            WatchState::Rebuilding { pending: true },
            WatchAction::Wait,
        ),
        (WatchState::Rebuilding { pending }, WatchEvent::RebuildDone) => if pending {
            (
                WatchState::Debouncing,
                WatchAction::StartTimer { millis: debounce_interval(debounce_ms) },
            )
        } else {
            (WatchState::Idle, WatchAction::Wait)
        },
        _ => (state, WatchAction::Wait),
    }
}

/// Whether the loop still owes a rebuild for a change.
pub open spec fn owes_rebuild(state: WatchState) -> bool {
    state == WatchState::Debouncing || state == WatchState::Rebuilding { pending: true }
}

/// No change is lost, and no rebuild starts while another runs: after a
/// change the loop owes a rebuild; it goes on owing it until a rebuild
/// starts; a rebuild starts only when the timer runs out, never during a
/// rebuild; and the timer never gets an interval of zero.
pub proof fn lemma_watch_keeps_changes(state: WatchState, event: WatchEvent, debounce_ms: u64)
    ensures
        event == WatchEvent::Changed ==> owes_rebuild(next(state, event, debounce_ms).0),
        owes_rebuild(state) ==> owes_rebuild(next(state, event, debounce_ms).0) || next(
            state,
            event,
            debounce_ms,
        ).1 == WatchAction::Rebuild,
        next(state, event, debounce_ms).1 == WatchAction::Rebuild ==> state
            == WatchState::Debouncing && event == WatchEvent::TimerFired,
        next(state, event, debounce_ms).1 matches WatchAction::StartTimer { millis } ==> millis
            >= 1,
{
}

/// The interval of the debounce timer for the interval asked for.
pub fn effective_debounce(debounce_ms: u64) -> (r: u64)
    ensures
        r == debounce_interval(debounce_ms),
{
    if debounce_ms == 0 {
        1
    } else {
        debounce_ms
    }
}

/// Decides what the watch loop does on `event` in `state`: the state it goes
/// to, and what it has to do.
pub fn watch_step(state: WatchState, event: WatchEvent, debounce_ms: u64) -> (r: (
    WatchState,
    WatchAction,
))
    ensures
        r == next(state, event, debounce_ms),
{
    match (state, event) {
        (WatchState::Idle, WatchEvent::Changed) => (
            WatchState::Debouncing,
            WatchAction::StartTimer { millis: effective_debounce(debounce_ms) },
        ),
        (WatchState::Debouncing, WatchEvent::TimerFired) => (
            WatchState::Rebuilding { pending: false },
            WatchAction::Rebuild,
        ),
        (WatchState::Rebuilding { pending: _ }, WatchEvent::Changed) => (
            WatchState::Rebuilding { pending: true },
            WatchAction::Wait,
        ),
        (WatchState::Rebuilding { pending }, WatchEvent::RebuildDone) => {
            if pending {
                (
                    WatchState::Debouncing,
                    WatchAction::StartTimer { millis: effective_debounce(debounce_ms) },
                )
            } else {
                (WatchState::Idle, WatchAction::Wait)
            }
        },
        _ => (state, WatchAction::Wait),
    }
}

} // verus!

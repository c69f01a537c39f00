//! Core engine of a tracker for concurrent AI coding-agent sessions running
//! in terminal-multiplexer panes.
//!
//! Two writers feed one authoritative registry of session records: a hook
//! pipeline that reacts to explicit lifecycle events pushed by the agent
//! tool, and a pane scanner that periodically infers state from pane
//! metadata and conversation transcripts. This crate holds the shared data
//! model, the registry with its timestamp tables and decision log, the hook
//! decision pipeline with its suppression and debounce rules, and the
//! transcript/pane classification heuristics. All timing rules compare
//! explicit millisecond clocks handed in by the caller, so the logic is
//! deterministic and testable. I/O, locking and transport live outside.

use vstd::prelude::*;

pub mod hook;
pub mod jsonio;
pub mod messages;
pub mod registry;
pub mod scanner;
pub mod settings;
pub mod state;
pub mod strutil;
pub mod transcript;

verus! {

/// Milliseconds a hook-driven write stays immune to scanner overwrite; a
/// Notification is likewise suppressed this long after a Stop for the same
/// session.
pub const HOOK_GRACE_PERIOD_MS: i64 = 10000;

/// Minimum milliseconds between two delivered notifications for one session.
pub const NOTIFY_DEBOUNCE_MS: i64 = 1000;

/// True when a mark set at `mark_ms` is still inside a window of `window_ms`
/// at time `now_ms`. A mark in the future counts as outside the window.
pub open spec fn spec_within_window(mark_ms: int, now_ms: int, window_ms: int) -> bool {
    mark_ms <= now_ms && now_ms - mark_ms < window_ms
}

/// Executable form of [`spec_within_window`].
pub fn within_window(mark_ms: i64, now_ms: i64, window_ms: i64) -> (r: bool)
    requires
        0 <= mark_ms,
        0 <= now_ms,
    ensures
        r == spec_within_window(mark_ms as int, now_ms as int, window_ms as int),
{
    mark_ms <= now_ms && now_ms - mark_ms < window_ms
}

} // verus!

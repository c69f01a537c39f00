//! Registry operations: upsert/get/list/remove, timestamp tables, the
//! notification debounce guard and the bounded decision log.

use c3_core::registry::{HookEvent, Registry};
use c3_core::state::{C3Session, SessionState};

fn session(id: &str, path: &str, state: SessionState) -> C3Session {
    C3Session {
        id: id.to_string(),
        project_name: "proj".to_string(),
        project_path: Some(path.to_string()),
        state,
        tmux_target: None,
        last_activity: 0,
        pending_action: None,
        metrics: None,
    }
}

fn entry(n: i64) -> HookEvent {
    HookEvent {
        timestamp: n,
        hook_type: "Stop".to_string(),
        cwd: "/p".to_string(),
        matched_session: None,
        new_state: "Complete".to_string(),
        skipped: false,
        skip_reason: None,
    }
}

#[test]
fn upsert_registers_and_replaces() {
    let mut reg = Registry::new();
    reg.upsert(session("A", "/p", SessionState::Spawning));
    reg.upsert(session("B", "/q", SessionState::Processing));
    assert_eq!(reg.list().len(), 2);
    // replacing A keeps one record per id
    reg.upsert(session("A", "/p2", SessionState::Complete));
    assert_eq!(reg.list().len(), 2);
    let a = reg.get("A").unwrap();
    assert_eq!(a.state, SessionState::Complete);
    assert_eq!(a.project_path.as_deref(), Some("/p2"));
}

#[test]
fn remove_drops_only_the_named_session() {
    let mut reg = Registry::new();
    reg.upsert(session("A", "/p", SessionState::Spawning));
    reg.upsert(session("B", "/q", SessionState::Processing));
    assert!(reg.remove("A"));
    assert!(!reg.remove("A"));
    assert!(reg.get("A").is_none());
    assert!(reg.get("B").is_some());
}

#[test]
fn stop_mark_expires_with_the_grace_window() {
    let mut reg = Registry::new();
    reg.mark_stopped("A", 2_000);
    assert!(reg.is_recently_stopped("A", 2_000));
    assert!(reg.is_recently_stopped("A", 11_999));
    assert!(!reg.is_recently_stopped("A", 12_000));
    assert!(!reg.is_recently_stopped("B", 2_000));
}

#[test]
fn notify_guard_debounces_per_session() {
    // two notify requests for one session within 1000 ms deliver exactly once
    let mut reg = Registry::new();
    assert!(reg.should_notify("A", 1_000));
    assert!(!reg.should_notify("A", 1_999));
    // the suppressed request did not refresh the mark: the window self-heals
    assert!(reg.should_notify("A", 2_000));
    // other sessions are independent
    assert!(reg.should_notify("B", 2_100));
}

#[test]
fn decision_log_keeps_newest_fifty() {
    let mut reg = Registry::new();
    let mut n: i64 = 0;
    while n < 55 {
        reg.log_hook_event(entry(n));
        n += 1;
    }
    assert_eq!(reg.hook_events.len(), 50);
    // oldest evicted first: entries 5..=54 remain
    assert_eq!(reg.hook_events[0].timestamp, 5);
    assert_eq!(reg.hook_events[49].timestamp, 54);
}

#[test]
fn list_is_a_snapshot_in_registration_order() {
    let mut reg = Registry::new();
    reg.upsert(session("A", "/p", SessionState::Spawning));
    reg.upsert(session("B", "/q", SessionState::Processing));
    let snapshot = reg.list();
    assert_eq!(snapshot[0].id, "A");
    assert_eq!(snapshot[1].id, "B");
}

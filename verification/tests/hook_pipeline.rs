//! End-to-end checks of the hook decision pipeline.

use c3_core::hook::{HookInput, TmuxContext};
use c3_core::registry::Registry;
use c3_core::settings::{AppSettings, ToolIdentity};
use c3_core::state::{C3Session, SessionState};

fn tool() -> ToolIdentity {
    ToolIdentity {
        command_name: "agent".to_string(),
        title_name: "Agent".to_string(),
        transcripts_dir: ".agent/projects".to_string(),
        display_name: "Agent".to_string(),
    }
}

fn session(id: &str, path: &str, state: SessionState) -> C3Session {
    C3Session {
        id: id.to_string(),
        project_name: "proj".to_string(),
        project_path: Some(path.to_string()),
        state,
        tmux_target: None,
        last_activity: 0,
        pending_action: None,
        metrics: None,
    }
}

fn hook(hook_type: &str, cwd: &str) -> HookInput {
    HookInput {
        hook_type: hook_type.to_string(),
        cwd: cwd.to_string(),
        session_id: None,
        tool_name: None,
        tool_command: None,
        skip_permissions: false,
        tmux: None,
    }
}

fn state_of(reg: &Registry, id: &str) -> SessionState {
    reg.get(id).expect("session must exist").state
}

#[test]
fn session_start_moves_spawning_to_processing() {
    // session A registered at /p, state Spawning; SessionStart at /p
    let mut reg = Registry::new();
    reg.upsert(session("A", "/p", SessionState::Spawning));
    let out = reg.handle_hook(&hook("SessionStart", "/p"), &AppSettings::default(), &tool(), 1_000);
    assert_eq!(out.response, "matched:A");
    assert_eq!(state_of(&reg, "A"), SessionState::Processing);
}

#[test]
fn notification_after_recent_stop_is_suppressed() {
    // A Processing; Stop at /p, then Notification 2s later
    let mut reg = Registry::new();
    reg.upsert(session("A", "/p", SessionState::Processing));
    let settings = AppSettings::default();
    let out_stop = reg.handle_hook(&hook("Stop", "/p"), &settings, &tool(), 10_000);
    assert_eq!(out_stop.response, "matched:A");
    assert_eq!(state_of(&reg, "A"), SessionState::Complete);

    let out = reg.handle_hook(&hook("Notification", "/p"), &settings, &tool(), 12_000);
    assert_eq!(out.response, "skipped:stop_recently");
    assert_eq!(state_of(&reg, "A"), SessionState::Complete);
    assert!(out.updated.is_none());
    assert!(out.notification.is_none());
    let last = reg.hook_events.last().expect("logged");
    assert!(last.skipped);
    assert_eq!(last.skip_reason.as_deref(), Some("Stop fired recently"));
}

#[test]
fn notification_after_grace_window_is_processed() {
    let mut reg = Registry::new();
    reg.upsert(session("A", "/p", SessionState::Processing));
    let settings = AppSettings::default();
    reg.handle_hook(&hook("Stop", "/p"), &settings, &tool(), 10_000);
    // 10 s later the window has elapsed, but the session is Complete: a late
    // Notification must not undo completion.
    let out = reg.handle_hook(&hook("Notification", "/p"), &settings, &tool(), 20_000);
    assert_eq!(out.response, "matched:A");
    assert_eq!(state_of(&reg, "A"), SessionState::Complete);
    let last = reg.hook_events.last().expect("logged");
    assert_eq!(last.skip_reason.as_deref(), Some("session already Complete"));
}

#[test]
fn notification_on_complete_session_is_skipped_but_matched() {
    // A already Complete, no recent stop: response names the match, state stays
    let mut reg = Registry::new();
    reg.upsert(session("A", "/p", SessionState::Complete));
    let out = reg.handle_hook(&hook("Notification", "/p"), &AppSettings::default(), &tool(), 1_000);
    assert_eq!(out.response, "matched:A");
    assert_eq!(state_of(&reg, "A"), SessionState::Complete);
    assert!(out.updated.is_none());
}

#[test]
fn permission_request_sets_pending_action_with_truncated_command() {
    let mut reg = Registry::new();
    reg.upsert(session("A", "/p", SessionState::Processing));
    let mut ev = hook("PermissionRequest", "/p");
    ev.tool_name = Some("Bash".to_string());
    ev.tool_command = Some("x".repeat(150));
    let out = reg.handle_hook(&ev, &AppSettings::default(), &tool(), 1_000);
    assert_eq!(out.response, "matched:A");
    let s = reg.get("A").unwrap();
    assert_eq!(s.state, SessionState::AwaitingPermission);
    let p = s.pending_action.expect("pending action present");
    assert_eq!(p.action_type, "permission");
    assert_eq!(p.description, "Wants to use Bash");
    assert_eq!(p.tool.as_deref(), Some("Bash"));
    let cmd = p.command.expect("command kept");
    assert_eq!(cmd.chars().count(), 100);
    assert!(cmd.ends_with("..."));
    assert_eq!(s.last_activity, 1_000);
}

#[test]
fn permission_request_with_checks_disabled_is_skipped() {
    let mut reg = Registry::new();
    reg.upsert(session("A", "/p", SessionState::Processing));
    let mut ev = hook("PermissionRequest", "/p");
    ev.skip_permissions = true;
    let out = reg.handle_hook(&ev, &AppSettings::default(), &tool(), 1_000);
    assert_eq!(out.response, "skipped:skip_permissions");
    assert_eq!(state_of(&reg, "A"), SessionState::Processing);
    assert!(out.notification.is_none());
    let last = reg.hook_events.last().expect("logged");
    assert!(last.skipped);
    assert_eq!(
        last.skip_reason.as_deref(),
        Some("--dangerously-skip-permissions")
    );
}

#[test]
fn unknown_hook_type_is_answered_and_logged() {
    let mut reg = Registry::new();
    reg.upsert(session("A", "/p", SessionState::Processing));
    let out = reg.handle_hook(&hook("SomethingElse", "/p"), &AppSettings::default(), &tool(), 1_000);
    assert_eq!(out.response, "unknown_hook");
    assert_eq!(state_of(&reg, "A"), SessionState::Processing);
    let last = reg.hook_events.last().expect("logged");
    assert_eq!(last.skip_reason.as_deref(), Some("unknown hook"));
}

#[test]
fn no_matching_session_reports_no_match() {
    let mut reg = Registry::new();
    reg.upsert(session("A", "/p", SessionState::Processing));
    let out = reg.handle_hook(&hook("Stop", "/elsewhere"), &AppSettings::default(), &tool(), 1_000);
    assert_eq!(out.response, "no_match");
    assert_eq!(state_of(&reg, "A"), SessionState::Processing);
    let last = reg.hook_events.last().expect("logged");
    assert_eq!(last.skip_reason.as_deref(), Some("no matching session"));
}

#[test]
fn prefix_match_selects_session_both_directions() {
    // hook cwd below the session path
    let mut reg = Registry::new();
    reg.upsert(session("A", "/home/u/proj", SessionState::Processing));
    let out = reg.handle_hook(&hook("Stop", "/home/u/proj/sub"), &AppSettings::default(), &tool(), 1_000);
    assert_eq!(out.response, "matched:A");

    // and symmetrically: session path below the hook cwd
    let mut reg2 = Registry::new();
    reg2.upsert(session("B", "/home/u/proj/sub", SessionState::Processing));
    let out2 = reg2.handle_hook(&hook("Stop", "/home/u/proj"), &AppSettings::default(), &tool(), 1_000);
    assert_eq!(out2.response, "matched:B");
}

#[test]
fn prefix_match_prefers_longest_common_prefix() {
    let mut reg = Registry::new();
    reg.upsert(session("SHORT", "/home/u", SessionState::Processing));
    reg.upsert(session("LONG", "/home/u/proj", SessionState::Processing));
    let out = reg.handle_hook(&hook("Stop", "/home/u/proj/sub"), &AppSettings::default(), &tool(), 1_000);
    assert_eq!(out.response, "matched:LONG");
}

#[test]
fn exact_match_wins_over_prefix_match() {
    let mut reg = Registry::new();
    reg.upsert(session("PREFIX", "/home/u/proj/sub/deeper", SessionState::Processing));
    reg.upsert(session("EXACT", "/home/u/proj/sub", SessionState::Processing));
    let out = reg.handle_hook(&hook("Stop", "/home/u/proj/sub"), &AppSettings::default(), &tool(), 1_000);
    assert_eq!(out.response, "matched:EXACT");
}

#[test]
fn same_event_delivered_twice_is_idempotent_on_state() {
    let mut reg = Registry::new();
    reg.upsert(session("A", "/p", SessionState::Processing));
    let settings = AppSettings::default();
    let ev = hook("Notification", "/p");
    reg.handle_hook(&ev, &settings, &tool(), 1_000);
    let first = reg.get("A").unwrap();
    reg.handle_hook(&ev, &settings, &tool(), 1_000);
    let second = reg.get("A").unwrap();
    assert_eq!(first.state, SessionState::AwaitingInput);
    assert_eq!(second.state, first.state);
    assert!(second.pending_action.is_none());
    // distinguishable only in the decision log
    assert_eq!(reg.hook_events.len(), 2);
}

#[test]
fn notification_carries_enriched_subtitle_and_sound() {
    let mut reg = Registry::new();
    reg.upsert(session("A", "/p", SessionState::Processing));
    let mut ev = hook("Notification", "/p");
    ev.tmux = Some(TmuxContext {
        session: "work".to_string(),
        window: "1".to_string(),
        pane: "2".to_string(),
        window_name: "editor".to_string(),
    });
    let out = reg.handle_hook(&ev, &AppSettings::default(), &tool(), 1_000);
    let n = out.notification.expect("notification requested");
    assert_eq!(n.message, "Agent is waiting for your response");
    assert_eq!(n.title, "c3 — proj");
    assert_eq!(n.subtitle, "Input Needed | work:1.2 (editor)");
    assert_eq!(n.notifier_sound.as_deref(), Some("Ping"));
    assert!(n.play_file.is_none());
}

#[test]
fn custom_sound_file_is_played_not_named() {
    let mut reg = Registry::new();
    reg.upsert(session("A", "/p", SessionState::Processing));
    let mut settings = AppSettings::default();
    settings.input_sound.sound = Some("/tmp/ding.aiff".to_string());
    let out = reg.handle_hook(&hook("Notification", "/p"), &settings, &tool(), 1_000);
    let n = out.notification.expect("notification requested");
    assert!(n.notifier_sound.is_none());
    assert_eq!(n.play_file.as_deref(), Some("/tmp/ding.aiff"));
}

#[test]
fn notifications_disabled_means_none_requested() {
    let mut reg = Registry::new();
    reg.upsert(session("A", "/p", SessionState::Processing));
    let mut settings = AppSettings::default();
    settings.notifications_enabled = false;
    let out = reg.handle_hook(&hook("Notification", "/p"), &settings, &tool(), 1_000);
    assert!(out.notification.is_none());
    assert_eq!(state_of(&reg, "A"), SessionState::AwaitingInput);
}

#[test]
fn post_tool_use_writes_silently_without_notification() {
    let mut reg = Registry::new();
    reg.upsert(session("A", "/p", SessionState::AwaitingPermission));
    let out = reg.handle_hook(&hook("PostToolUse", "/p"), &AppSettings::default(), &tool(), 1_000);
    assert_eq!(out.response, "matched:A");
    assert_eq!(state_of(&reg, "A"), SessionState::Processing);
    assert!(out.notification.is_none());
    // the write also cleared the pending action
    assert!(reg.get("A").unwrap().pending_action.is_none());
}

#[test]
fn rapid_notifications_debounce_to_one() {
    // two Notification hooks 500 ms apart: the second writes state but asks
    // for no notification
    let mut reg = Registry::new();
    reg.upsert(session("A", "/p", SessionState::Processing));
    let settings = AppSettings::default();
    let first = reg.handle_hook(&hook("Notification", "/p"), &settings, &tool(), 1_000);
    assert!(first.notification.is_some());
    let second = reg.handle_hook(&hook("Notification", "/p"), &settings, &tool(), 1_500);
    assert!(second.notification.is_none());
    // after the window the guard window reopens
    let third = reg.handle_hook(&hook("Notification", "/p"), &settings, &tool(), 2_600);
    assert!(third.notification.is_some());
}

#[test]
fn hook_write_protects_session_from_scanner() {
    let mut reg = Registry::new();
    reg.upsert(session("A", "/p", SessionState::Processing));
    reg.handle_hook(&hook("Stop", "/p"), &AppSettings::default(), &tool(), 1_000);
    assert!(reg.is_hook_protected("A", 5_000));
    assert!(!reg.is_hook_protected("A", 11_001));
}

#[test]
fn unmatched_hook_still_notifies_with_generic_title() {
    // a valid event with no session found is logged, answered with
    // no_match, and still produces a user-visible notification
    let mut reg = Registry::new();
    let out = reg.handle_hook(&hook("Notification", "/q"), &AppSettings::default(), &tool(), 1_000);
    assert_eq!(out.response, "no_match");
    let n = out.notification.expect("notification requested");
    assert_eq!(n.title, "c3");
    assert_eq!(n.subtitle, "Input Needed");
}

#[test]
fn disabled_completion_sound_keeps_the_notification_silent() {
    // the default settings disable the completion sound but not the message
    let mut reg = Registry::new();
    reg.upsert(session("A", "/p", SessionState::Processing));
    let out = reg.handle_hook(&hook("Stop", "/p"), &AppSettings::default(), &tool(), 1_000);
    let n = out.notification.expect("notification requested");
    assert_eq!(n.message, "Agent has finished processing");
    assert!(n.notifier_sound.is_none());
    assert!(n.play_file.is_none());
}

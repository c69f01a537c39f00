//! Client control messages against the registry, and the string helpers.

use c3_core::messages::{ClientMessage, ServerMessage};
use c3_core::registry::Registry;
use c3_core::state::{C3Session, PendingAction, SessionState};
use c3_core::strutil::{
    contains_str, ends_with, replace_char, split_char, starts_with, str_eq, trim_str,
    truncate_command,
};

fn session(id: &str, state: SessionState) -> C3Session {
    C3Session {
        id: id.to_string(),
        project_name: "proj".to_string(),
        project_path: Some("/p".to_string()),
        state,
        tmux_target: None,
        last_activity: 0,
        pending_action: None,
        metrics: None,
    }
}

#[test]
fn register_heartbeat_and_disconnect_round_trip() {
    let mut reg = Registry::new();
    let out = reg.apply_client_message(
        ClientMessage::Register { session: session("cli-1", SessionState::Spawning) },
        1_000,
    );
    assert_eq!(out.unwrap().id, "cli-1");
    assert_eq!(reg.get("cli-1").unwrap().state, SessionState::Spawning);

    reg.apply_client_message(ClientMessage::Heartbeat { session_id: "cli-1".to_string() }, 2_500);
    assert_eq!(reg.get("cli-1").unwrap().last_activity, 2_500);

    reg.apply_client_message(ClientMessage::Disconnect { session_id: "cli-1".to_string() }, 3_000);
    assert!(reg.get("cli-1").is_none());
}

#[test]
fn state_change_rewrites_state_and_pending() {
    let mut reg = Registry::new();
    reg.upsert(session("cli-1", SessionState::Processing));
    let out = reg.apply_client_message(
        ClientMessage::StateChange {
            session_id: "cli-1".to_string(),
            state: SessionState::AwaitingInput,
            pending_action: Some(PendingAction {
                action_type: "input".to_string(),
                description: "Waiting for user input".to_string(),
                tool: None,
                command: None,
            }),
        },
        4_000,
    );
    assert!(out.is_some());
    let s = reg.get("cli-1").unwrap();
    assert_eq!(s.state, SessionState::AwaitingInput);
    assert!(s.pending_action.is_some());
    assert_eq!(s.last_activity, 4_000);
    // a message for an unknown id is ignored
    let none = reg.apply_client_message(
        ClientMessage::Heartbeat { session_id: "ghost".to_string() },
        5_000,
    );
    assert!(none.is_none());
}

#[test]
fn pending_action_is_dropped_under_a_non_waiting_state() {
    // a register reporting Complete with a leftover pending action keeps the
    // record well formed
    let mut reg = Registry::new();
    let mut s = session("cli-2", SessionState::Complete);
    s.pending_action = Some(PendingAction {
        action_type: "input".to_string(),
        description: "stale".to_string(),
        tool: None,
        command: None,
    });
    reg.apply_client_message(ClientMessage::Register { session: s }, 1_000);
    assert!(reg.get("cli-2").unwrap().pending_action.is_none());
}

#[test]
fn server_messages_carry_their_payload() {
    let m = ServerMessage::Action { session_id: "cli-1".to_string(), action: "approve".to_string() };
    match m {
        ServerMessage::Action { session_id, action } => {
            assert_eq!(session_id, "cli-1");
            assert_eq!(action, "approve");
        }
        ServerMessage::Ping => panic!("expected an action"),
    }
}

#[test]
fn string_helpers_behave_like_their_specifications() {
    assert!(str_eq("abc", "abc"));
    assert!(!str_eq("abc", "abd"));
    assert!(starts_with("tmux:w:1", "tmux:"));
    assert!(!starts_with("w:1", "tmux:"));
    assert!(ends_with("log.jsonl", ".jsonl"));
    assert!(contains_str("user@localhost:~", "localhost"));
    assert!(!contains_str("short", "longer than it"));
    assert_eq!(trim_str("  padded \t"), "padded");
    // the whole Unicode white-space set is trimmed
    assert_eq!(trim_str("\u{a0}\u{2003}padded\u{3000}"), "padded");
    assert_eq!(replace_char("/a/b", '/', '-'), "-a-b");
    let parts = split_char("a\tb\t\tc", '\t');
    assert_eq!(parts, vec!["a", "b", "", "c"]);
    assert_eq!(split_char("plain", ':'), vec!["plain"]);
}

#[test]
fn long_commands_are_capped_at_one_hundred_characters() {
    let long = "y".repeat(120);
    let cut = truncate_command(&long);
    assert_eq!(cut.chars().count(), 100);
    assert_eq!(cut, format!("{}...", "y".repeat(97)));
    let short = truncate_command("make test");
    assert_eq!(short, "make test");
}

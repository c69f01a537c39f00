//! Pane-scanner decision logic: listing parsing, agent detection, name
//! derivation, the scan write with its grace arbitration, and pruning.

use c3_core::registry::Registry;
use c3_core::scanner::{
    cwd_to_project_dir, derive_project_name, find_active_jsonl, is_agent_pane, parse_pane_line,
    parse_tmux_target, pick_attached_session, session_id_for_target, FileStamp, PaneInfo,
    PaneObservation, TranscriptData,
};
use c3_core::settings::{AppSettings, ToolIdentity};
use c3_core::state::{C3Session, SessionState};
use c3_core::transcript::{ContentBlock, TranscriptContent, TranscriptEntry};

fn tool() -> ToolIdentity {
    ToolIdentity {
        command_name: "agent".to_string(),
        title_name: "Agent".to_string(),
        transcripts_dir: ".agent/projects".to_string(),
        display_name: "Agent".to_string(),
    }
}

fn pane(target: &str, cwd: &str, title: &str, command: &str) -> PaneInfo {
    PaneInfo {
        target: target.to_string(),
        cwd: cwd.to_string(),
        pane_title: title.to_string(),
        window_name: "win".to_string(),
        pane_command: command.to_string(),
    }
}

#[test]
fn pane_line_splits_into_six_fields() {
    let f = parse_pane_line("work:1.2\t123\tnode\t/home/u/proj\t✳ task\tmain")
        .expect("six fields parse");
    assert_eq!(f.target, "work:1.2");
    assert_eq!(f.pid, "123");
    assert_eq!(f.command, "node");
    assert_eq!(f.cwd, "/home/u/proj");
    assert_eq!(f.title, "✳ task");
    assert_eq!(f.window_name, "main");
    assert!(parse_pane_line("a\tb\tc").is_none());
}

#[test]
fn agent_panes_are_detected_by_command_or_title() {
    let f = parse_pane_line("t\t1\tagent\t/p\ttitle\tw").unwrap();
    assert!(is_agent_pane(&f, &tool(), false));
    let node = parse_pane_line("t\t1\tnode\t/p\ttitle\tw").unwrap();
    assert!(is_agent_pane(&node, &tool(), true));
    assert!(!is_agent_pane(&node, &tool(), false));
    // finished session: back at the shell but the title keeps the marker
    let done = parse_pane_line("t\t1\tzsh\t/p\t✳ task\tw").unwrap();
    assert!(is_agent_pane(&done, &tool(), false));
    let plain = parse_pane_line("t\t1\tzsh\t/p\tplain\tw").unwrap();
    assert!(!is_agent_pane(&plain, &tool(), false));
    // the marker alone does not rescue a non-shell foreground
    let vim = parse_pane_line("t\t1\tvim\t/p\t✳ task\tw").unwrap();
    assert!(!is_agent_pane(&vim, &tool(), false));
}

#[test]
fn project_name_comes_from_title_or_path() {
    assert_eq!(derive_project_name(&pane("t", "/p", "✳ Fix Upload", "agent"), &tool()), "Fix Upload");
    // a host-name title falls back to the last path component
    assert_eq!(
        derive_project_name(&pane("t", "/home/u/myproj", "MacBookPro.localdomain", "agent"), &tool()),
        "myproj"
    );
    assert_eq!(
        derive_project_name(&pane("t", "/home/u/myproj", "user@localhost:~", "agent"), &tool()),
        "myproj"
    );
    // a title that is only markers falls back too
    assert_eq!(derive_project_name(&pane("t", "/home/u/x", "✳✳  ", "agent"), &tool()), "x");
    // root directory yields the generic name
    assert_eq!(derive_project_name(&pane("t", "/", "", "agent"), &tool()), "agent");
}

#[test]
fn project_dir_replaces_separators() {
    assert_eq!(
        cwd_to_project_dir("/Users/jon", ".agent/projects", "/Users/jon/code/foo"),
        "/Users/jon/.agent/projects/-Users-jon-code-foo"
    );
}

#[test]
fn newest_jsonl_wins_with_last_tie_break() {
    let files = vec![
        FileStamp { name: "a.jsonl".to_string(), mtime_ms: 100 },
        FileStamp { name: "notes.txt".to_string(), mtime_ms: 999 },
        FileStamp { name: "b.jsonl".to_string(), mtime_ms: 300 },
        FileStamp { name: "c.jsonl".to_string(), mtime_ms: 300 },
    ];
    assert_eq!(find_active_jsonl(&files), Some(3));
    let none = vec![FileStamp { name: "x.log".to_string(), mtime_ms: 5 }];
    assert_eq!(find_active_jsonl(&none), None);
    // a bare ".jsonl" name has no stem and is no transcript
    let bare = vec![FileStamp { name: ".jsonl".to_string(), mtime_ms: 5 }];
    assert_eq!(find_active_jsonl(&bare), None);
}

#[test]
fn tmux_targets_parse_with_defaults() {
    let (s, w, p) = parse_tmux_target("work:1.2").unwrap();
    assert_eq!((s.as_str(), w.as_str(), p.as_str()), ("work", "1", "2"));
    let (s2, w2, p2) = parse_tmux_target("work:3").unwrap();
    assert_eq!((s2.as_str(), w2.as_str(), p2.as_str()), ("work", "3", "0"));
    assert!(parse_tmux_target("nocolon").is_none());
    assert!(parse_tmux_target("a:b:c").is_none());
}

#[test]
fn attached_session_is_picked_from_listing() {
    let lines = vec!["idle:0".to_string(), "work:1".to_string(), "other:1".to_string()];
    assert_eq!(pick_attached_session(&lines), "work");
    assert_eq!(pick_attached_session(&vec!["idle:0".to_string()]), "0");
}

#[test]
fn scan_registers_a_new_session_as_changed() {
    let mut reg = Registry::new();
    let obs = PaneObservation {
        pane: pane("work:1.2", "/p", "busy", "agent"),
        transcript: None,
    };
    let out = reg.apply_scan(&obs, &tool(), 5_000);
    assert!(out.changed);
    let s = out.session.expect("change event carries the record");
    assert_eq!(s.id, "tmux:work:1.2");
    assert_eq!(s.state, SessionState::Processing);
    assert_eq!(s.tmux_target.as_deref(), Some("work:1.2"));
    // no transcript at all: activity falls back to the current time
    assert_eq!(s.last_activity, 5_000);
}

#[test]
fn scan_is_silent_when_state_is_unchanged() {
    let mut reg = Registry::new();
    let obs = PaneObservation {
        pane: pane("work:1.2", "/p", "busy", "agent"),
        transcript: None,
    };
    reg.apply_scan(&obs, &tool(), 5_000);
    let again = reg.apply_scan(&obs, &tool(), 6_000);
    assert!(!again.changed);
    assert!(again.session.is_none());
    // the silent write still refreshed activity
    assert_eq!(reg.get("tmux:work:1.2").unwrap().last_activity, 6_000);
}

#[test]
fn shell_foreground_completes_with_transcript_time() {
    let mut reg = Registry::new();
    let mut e = TranscriptEntry {
        entry_type: "assistant".to_string(),
        is_meta: false,
        role: "assistant".to_string(),
        content: TranscriptContent::Text("bye".to_string()),
        timestamp: Some("2024-01-15T10:00:00Z".to_string()),
        message_timestamp: None,
        data_timestamp: None,
    };
    e.timestamp = Some("2024-01-15T10:00:00Z".to_string());
    let obs = PaneObservation {
        pane: pane("w:0.0", "/p", "✳ task", "zsh"),
        transcript: Some(TranscriptData {
            entries: vec![e],
            had_lines: true,
            age_secs: 100,
            file_mtime_ms: Some(999),
        }),
    };
    let out = reg.apply_scan(&obs, &tool(), 5_000);
    assert!(out.changed);
    let s = reg.get("tmux:w:0.0").unwrap();
    assert_eq!(s.state, SessionState::Complete);
    assert_eq!(s.last_activity, 1705312800000);
}

#[test]
fn idle_title_with_tool_use_transcript_awaits_permission() {
    // Scanner sees the idle glyph; the newest transcript entry is an
    // assistant turn with a tool-use block, file age 8 s.
    let mut reg = Registry::new();
    reg.upsert(C3Session {
        id: "tmux:w:0.0".to_string(),
        project_name: "proj".to_string(),
        project_path: Some("/p".to_string()),
        state: SessionState::Processing,
        tmux_target: Some("w:0.0".to_string()),
        last_activity: 0,
        pending_action: None,
        metrics: None,
    });
    let tool_block = ContentBlock {
        block_type: "tool_use".to_string(),
        text: None,
        tool_name: Some("Bash".to_string()),
        tool_command: Some("make".to_string()),
    };
    let e = TranscriptEntry {
        entry_type: "assistant".to_string(),
        is_meta: false,
        role: "assistant".to_string(),
        content: TranscriptContent::Blocks(vec![tool_block]),
        timestamp: None,
        message_timestamp: None,
        data_timestamp: None,
    };
    let obs = PaneObservation {
        pane: pane("w:0.0", "/p", "✳ task", "node"),
        transcript: Some(TranscriptData {
            entries: vec![e],
            had_lines: true,
            age_secs: 8,
            file_mtime_ms: Some(7_000),
        }),
    };
    let out = reg.apply_scan(&obs, &tool(), 10_000);
    assert!(out.changed);
    let s = reg.get("tmux:w:0.0").unwrap();
    assert_eq!(s.state, SessionState::AwaitingPermission);
    assert_eq!(s.pending_action.unwrap().tool.as_deref(), Some("Bash"));
    // no message timestamp: activity falls back to the file time
    assert_eq!(s.last_activity, 7_000);
}

#[test]
fn idle_title_without_transcript_awaits_input() {
    let mut reg = Registry::new();
    let obs = PaneObservation {
        pane: pane("w:0.0", "/p", "✳ task", "node"),
        transcript: None,
    };
    reg.apply_scan(&obs, &tool(), 1_000);
    let s = reg.get("tmux:w:0.0").unwrap();
    assert_eq!(s.state, SessionState::AwaitingInput);
    assert_eq!(s.pending_action.unwrap().action_type, "input");
}

#[test]
fn hook_protected_session_keeps_state_under_scan() {
    // grace invariant: within 10 s of a hook write, a scan may refresh only
    // path and target
    let mut reg = Registry::new();
    reg.upsert(C3Session {
        id: "tmux:w:0.0".to_string(),
        project_name: "proj".to_string(),
        project_path: Some("/p".to_string()),
        state: SessionState::Processing,
        tmux_target: Some("w:0.0".to_string()),
        last_activity: 0,
        pending_action: None,
        metrics: None,
    });
    reg.handle_hook(
        &c3_core::hook::HookInput {
            hook_type: "Stop".to_string(),
            cwd: "/p".to_string(),
            session_id: None,
            tool_name: None,
            tool_command: None,
            skip_permissions: false,
            tmux: None,
        },
        &AppSettings::default(),
        &tool(),
        10_000,
    );
    assert_eq!(reg.get("tmux:w:0.0").unwrap().state, SessionState::Complete);
    // a scan 3 s later sees an active pane, but may not override the hook
    let obs = PaneObservation {
        pane: pane("w:0.0", "/p/sub", "busy", "agent"),
        transcript: None,
    };
    let out = reg.apply_scan(&obs, &tool(), 13_000);
    assert!(!out.changed);
    let s = reg.get("tmux:w:0.0").unwrap();
    assert_eq!(s.state, SessionState::Complete);
    assert_eq!(s.last_activity, 10_000);
    assert_eq!(s.project_path.as_deref(), Some("/p/sub"));
    // past the window the scanner owns the record again
    let out2 = reg.apply_scan(&obs, &tool(), 21_000);
    assert!(out2.changed);
    assert_eq!(reg.get("tmux:w:0.0").unwrap().state, SessionState::Processing);
}

#[test]
fn prune_removes_vanished_panes_only() {
    let mut reg = Registry::new();
    let obs_a = PaneObservation { pane: pane("a:0.0", "/a", "t", "agent"), transcript: None };
    let obs_b = PaneObservation { pane: pane("b:0.0", "/b", "t", "agent"), transcript: None };
    reg.apply_scan(&obs_a, &tool(), 1_000);
    reg.apply_scan(&obs_b, &tool(), 1_000);
    // a session from another origin survives pruning
    reg.upsert(C3Session {
        id: "client-1".to_string(),
        project_name: "c".to_string(),
        project_path: None,
        state: SessionState::Processing,
        tmux_target: None,
        last_activity: 0,
        pending_action: None,
        metrics: None,
    });
    let removed = reg.prune_missing(&vec!["a:0.0".to_string()], true);
    assert_eq!(removed, vec!["tmux:b:0.0".to_string()]);
    assert!(reg.get("tmux:a:0.0").is_some());
    assert!(reg.get("tmux:b:0.0").is_none());
    assert!(reg.get("client-1").is_some());
}

#[test]
fn session_ids_carry_the_origin_prefix() {
    assert_eq!(session_id_for_target("w:1.2"), "tmux:w:1.2");
}

#[test]
fn failed_enumeration_removes_nothing() {
    // a failed pane listing is no signal: the prune must not treat it as
    // an empty pane set
    let mut reg = Registry::new();
    let obs = PaneObservation { pane: pane("a:0.0", "/a", "t", "agent"), transcript: None };
    reg.apply_scan(&obs, &tool(), 1_000);
    let removed = reg.prune_missing(&Vec::new(), false);
    assert!(removed.is_empty());
    assert!(reg.get("tmux:a:0.0").is_some());
    // a successful empty listing does remove the vanished pane
    let removed2 = reg.prune_missing(&Vec::new(), true);
    assert_eq!(removed2, vec!["tmux:a:0.0".to_string()]);
    assert!(reg.get("tmux:a:0.0").is_none());
}

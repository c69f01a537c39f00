//! Transcript classification over parsed record windows, and the JSON /
//! timestamp boundary exercised through the public parsing functions.

use c3_core::jsonio::tool_command_of;
use c3_core::state::SessionState;
use c3_core::transcript::{
    detect_state_from_entries, extract_message_timestamp, is_conversation_message, latest_timestamp,
    parse_transcript_line, parse_transcript_lines, tail_lines, ContentBlock, TranscriptContent,
    TranscriptEntry,
};

fn entry(entry_type: &str, role: &str, content: TranscriptContent) -> TranscriptEntry {
    TranscriptEntry {
        entry_type: entry_type.to_string(),
        is_meta: false,
        role: role.to_string(),
        content,
        timestamp: None,
        message_timestamp: None,
        data_timestamp: None,
    }
}

fn block(block_type: &str) -> ContentBlock {
    ContentBlock {
        block_type: block_type.to_string(),
        text: None,
        tool_name: None,
        tool_command: None,
    }
}

#[test]
fn assistant_tool_use_with_stale_file_awaits_permission() {
    // newest entry is an assistant turn with a tool-use block, file age 8 s
    let tool = ContentBlock {
        block_type: "tool_use".to_string(),
        text: None,
        tool_name: Some("Bash".to_string()),
        tool_command: Some("rm -rf build".to_string()),
    };
    let entries = vec![entry("assistant", "assistant", TranscriptContent::Blocks(vec![tool]))];
    let r = detect_state_from_entries(&entries, 8, true);
    assert_eq!(r.state, SessionState::AwaitingPermission);
    let p = r.pending_action.expect("pending action present");
    assert_eq!(p.tool.as_deref(), Some("Bash"));
    assert_eq!(p.description, "Wants to use Bash");
    assert_eq!(p.command.as_deref(), Some("rm -rf build"));
}

#[test]
fn assistant_tool_use_with_fresh_file_is_processing() {
    let entries = vec![entry(
        "assistant",
        "assistant",
        TranscriptContent::Blocks(vec![block("tool_use")]),
    )];
    let r = detect_state_from_entries(&entries, 3, true);
    assert_eq!(r.state, SessionState::Processing);
    assert!(r.pending_action.is_none());
}

#[test]
fn assistant_text_block_awaits_input() {
    let entries = vec![entry(
        "assistant",
        "assistant",
        TranscriptContent::Blocks(vec![block("text")]),
    )];
    let r = detect_state_from_entries(&entries, 0, true);
    assert_eq!(r.state, SessionState::AwaitingInput);
    let p = r.pending_action.expect("generic pending action");
    assert_eq!(p.action_type, "input");
    assert_eq!(p.description, "Waiting for user input");
}

#[test]
fn assistant_thinking_only_is_processing() {
    let entries = vec![entry(
        "assistant",
        "assistant",
        TranscriptContent::Blocks(vec![block("thinking")]),
    )];
    let r = detect_state_from_entries(&entries, 30, true);
    assert_eq!(r.state, SessionState::Processing);
}

#[test]
fn assistant_bare_string_awaits_input() {
    let entries = vec![entry(
        "assistant",
        "assistant",
        TranscriptContent::Text("done.".to_string()),
    )];
    let r = detect_state_from_entries(&entries, 0, true);
    assert_eq!(r.state, SessionState::AwaitingInput);
}

#[test]
fn user_tool_result_is_processing() {
    let entries = vec![entry(
        "user",
        "user",
        TranscriptContent::Blocks(vec![block("tool_result")]),
    )];
    let r = detect_state_from_entries(&entries, 60, true);
    assert_eq!(r.state, SessionState::Processing);
}

#[test]
fn stale_user_message_awaits_input_fresh_is_processing() {
    let entries = vec![entry("user", "user", TranscriptContent::Text("hi".to_string()))];
    let stale = detect_state_from_entries(&entries, 16, true);
    assert_eq!(stale.state, SessionState::AwaitingInput);
    let fresh = detect_state_from_entries(&entries, 15, true);
    assert_eq!(fresh.state, SessionState::Processing);
}

#[test]
fn noise_and_meta_records_are_skipped() {
    let mut meta = entry("user", "user", TranscriptContent::Text("hi".to_string()));
    meta.is_meta = true;
    assert!(!is_conversation_message(&meta));
    assert!(!is_conversation_message(&entry(
        "progress",
        "",
        TranscriptContent::Absent
    )));
    assert!(!is_conversation_message(&entry(
        "summary",
        "",
        TranscriptContent::Absent
    )));
    // synthetic user text is not a real turn
    assert!(!is_conversation_message(&entry(
        "user",
        "user",
        TranscriptContent::Text("<bash-stdout>ok".to_string())
    )));
    // a real one is
    assert!(is_conversation_message(&entry(
        "user",
        "user",
        TranscriptContent::Text("hello".to_string())
    )));
}

#[test]
fn interrupted_user_turn_is_skipped_and_scan_continues() {
    let interrupt = ContentBlock {
        block_type: "text".to_string(),
        text: Some("[Request interrupted by user]".to_string()),
        tool_name: None,
        tool_command: None,
    };
    let entries = vec![
        entry("assistant", "assistant", TranscriptContent::Blocks(vec![block("text")])),
        entry("user", "user", TranscriptContent::Blocks(vec![interrupt])),
    ];
    // the trailing interrupted turn is noise; the assistant text before it decides
    let r = detect_state_from_entries(&entries, 0, true);
    assert_eq!(r.state, SessionState::AwaitingInput);
}

#[test]
fn empty_window_follows_staleness_rule() {
    let entries: Vec<TranscriptEntry> = Vec::new();
    let stale = detect_state_from_entries(&entries, 16, true);
    assert_eq!(stale.state, SessionState::AwaitingInput);
    let fresh = detect_state_from_entries(&entries, 10, true);
    assert_eq!(fresh.state, SessionState::Processing);
    // no lines at all: no inference
    let none = detect_state_from_entries(&entries, 100, false);
    assert_eq!(none.state, SessionState::Processing);
    assert!(none.pending_action.is_none());
}

#[test]
fn timestamps_parse_and_newest_wins() {
    let mut early = entry("user", "user", TranscriptContent::Text("a".to_string()));
    early.timestamp = Some("2024-01-15T10:00:00Z".to_string());
    let mut late = entry("assistant", "assistant", TranscriptContent::Text("b".to_string()));
    late.message_timestamp = Some("2024-03-01T12:30:45.500Z".to_string());
    assert_eq!(extract_message_timestamp(&early), Some(1705312800000));
    assert_eq!(extract_message_timestamp(&late), Some(1709296245500));
    let entries = vec![early, late];
    assert_eq!(latest_timestamp(&entries), Some(1709296245500));
    let r = detect_state_from_entries(&entries, 0, true);
    assert_eq!(r.last_message_time, Some(1709296245500));
}

#[test]
fn newest_timestamp_wins_regardless_of_record_order() {
    // the newer timestamp sits on the earlier record: the maximum is taken,
    // not the last one found
    let mut newer = entry("user", "user", TranscriptContent::Text("a".to_string()));
    newer.timestamp = Some("2024-03-01T12:30:45.500Z".to_string());
    let mut older = entry("assistant", "assistant", TranscriptContent::Text("b".to_string()));
    older.timestamp = Some("2024-01-15T10:00:00Z".to_string());
    let entries = vec![newer, older];
    assert_eq!(latest_timestamp(&entries), Some(1709296245500));
}

#[test]
fn unparseable_timestamp_falls_through_to_next_location() {
    let mut e = entry("user", "user", TranscriptContent::Text("a".to_string()));
    e.timestamp = Some("not a date".to_string());
    e.data_timestamp = Some("2024-01-15T10:00:00Z".to_string());
    assert_eq!(extract_message_timestamp(&e), Some(1705312800000));
}

#[test]
fn parse_transcript_line_reads_real_records() {
    let line = "{\"type\":\"assistant\",\"timestamp\":\"2024-01-15T10:00:00Z\",\"message\":{\"role\":\"assistant\",\"content\":[{\"type\":\"tool_use\",\"name\":\"Bash\",\"input\":{\"command\":\"ls -la\"}}]}}";
    let e = parse_transcript_line(line).expect("valid JSON parses");
    assert_eq!(e.entry_type, "assistant");
    assert_eq!(e.role, "assistant");
    assert_eq!(e.timestamp.as_deref(), Some("2024-01-15T10:00:00Z"));
    match &e.content {
        TranscriptContent::Blocks(bs) => {
            assert_eq!(bs.len(), 1);
            assert_eq!(bs[0].block_type, "tool_use");
            assert_eq!(bs[0].tool_name.as_deref(), Some("Bash"));
            assert_eq!(bs[0].tool_command.as_deref(), Some("ls -la"));
        }
        _ => panic!("expected block content"),
    }
    assert!(parse_transcript_line("not json").is_none());

    let entries = parse_transcript_lines(&vec![
        line.to_string(),
        "garbage".to_string(),
        "{\"type\":\"system\"}".to_string(),
    ]);
    assert_eq!(entries.len(), 2);

    // the full path: a stale tool-use record classifies to awaiting permission
    let r = detect_state_from_entries(&entries, 8, true);
    assert_eq!(r.state, SessionState::AwaitingPermission);
    assert_eq!(r.last_message_time, Some(1705312800000));
}

#[test]
fn meta_flag_is_read_from_json() {
    let e = parse_transcript_line(
        "{\"type\":\"user\",\"isMeta\":true,\"message\":{\"role\":\"user\",\"content\":\"x\"}}",
    )
    .unwrap();
    assert!(e.is_meta);
    assert!(!is_conversation_message(&e));
}

#[test]
fn tool_command_is_extracted_from_tool_input() {
    let v: serde_json::Value =
        serde_json::from_str("{\"command\":\"cargo test\",\"cwd\":\"/p\"}").unwrap();
    assert_eq!(tool_command_of(&v).as_deref(), Some("cargo test"));
    let no_cmd: serde_json::Value = serde_json::from_str("{\"file\":\"a.rs\"}").unwrap();
    assert!(tool_command_of(&no_cmd).is_none());
    let not_text: serde_json::Value = serde_json::from_str("{\"command\":7}").unwrap();
    assert!(tool_command_of(&not_text).is_none());
}

#[test]
fn tail_lines_keeps_the_trailing_window() {
    let lines: Vec<String> = (0..40).map(|i| i.to_string()).collect();
    let t = tail_lines(lines, 30);
    assert_eq!(t.len(), 30);
    assert_eq!(t[0], "10");
    assert_eq!(t[29], "39");
    let short = tail_lines(vec!["a".to_string()], 30);
    assert_eq!(short, vec!["a".to_string()]);
}

//! Settings defaults, session metadata updates, and the pure halves of the
//! environment probes.

use c3_core::settings::{
    check_hook_status, config_dir, default_terminal, default_true, detect_terminal,
    effective_terminal, get_available_terminals, known_terminals, play_sound_file,
    session_meta_path, settings_path, AppSettings, SessionMetaStore, SoundConfig,
};

#[test]
fn defaults_match_the_documented_configuration() {
    assert_eq!(default_terminal(), "auto");
    assert!(default_true());
    let s = AppSettings::default();
    assert_eq!(s.terminal_app, "auto");
    assert!(s.notifications_enabled);
    assert!(s.permission_sound.enabled);
    assert!(s.input_sound.enabled);
    assert!(!s.complete_sound.enabled);
    let c = SoundConfig::default();
    assert!(c.enabled);
    assert!(c.sound.is_none());
}

#[test]
fn config_paths_live_under_home() {
    assert_eq!(config_dir("/Users/jon"), "/Users/jon/.config/c3");
    assert_eq!(settings_path("/Users/jon"), "/Users/jon/.config/c3/settings.json");
    assert_eq!(
        session_meta_path("/Users/jon"),
        "/Users/jon/.config/c3/session-meta.json"
    );
}

#[test]
fn meta_updates_set_clear_and_evict() {
    let mut store = SessionMetaStore::new();
    store.update_meta("w:1.2", Some("urgent".to_string()), None);
    assert_eq!(store.get_meta("w:1.2").tag.as_deref(), Some("urgent"));
    // pin without touching the tag
    store.update_meta("w:1.2", None, Some(true));
    let m = store.get_meta("w:1.2");
    assert_eq!(m.tag.as_deref(), Some("urgent"));
    assert!(m.pinned);
    // an empty tag clears it; the pin keeps the entry alive
    store.update_meta("w:1.2", Some(String::new()), None);
    let m2 = store.get_meta("w:1.2");
    assert!(m2.tag.is_none());
    assert!(m2.pinned);
    // removing the pin leaves nothing of substance: the entry is dropped
    store.update_meta("w:1.2", None, Some(false));
    assert_eq!(store.sessions.len(), 0);
    let gone = store.get_meta("w:1.2");
    assert!(gone.tag.is_none());
    assert!(!gone.pinned);
}

#[test]
fn meta_entries_are_independent_per_session() {
    let mut store = SessionMetaStore::new();
    store.update_meta("a", Some("one".to_string()), None);
    store.update_meta("b", None, Some(true));
    assert_eq!(store.get_meta("a").tag.as_deref(), Some("one"));
    assert!(!store.get_meta("a").pinned);
    assert!(store.get_meta("b").pinned);
    assert_eq!(store.sessions.len(), 2);
}

#[test]
fn terminal_detection_prefers_running_then_installed() {
    let names = known_terminals();
    assert_eq!(names.len(), 7);
    assert_eq!(names[0], "Ghostty");
    assert_eq!(names[6], "Terminal");

    let none = vec![false; 7];
    let mut running = vec![false; 7];
    running[3] = true;
    running[5] = true;
    assert_eq!(detect_terminal(&running, &none).as_deref(), Some("kitty"));
    let mut installed = vec![false; 7];
    installed[1] = true;
    assert_eq!(detect_terminal(&none, &installed).as_deref(), Some("iTerm"));
    assert!(detect_terminal(&none, &none).is_none());
}

#[test]
fn available_terminals_start_with_auto() {
    let mut installed = vec![false; 7];
    installed[0] = true;
    installed[6] = true;
    let avail = get_available_terminals(&installed);
    assert_eq!(avail, vec!["auto".to_string(), "Ghostty".to_string(), "Terminal".to_string()]);
}

#[test]
fn effective_terminal_resolves_auto() {
    let mut s = AppSettings::default();
    assert_eq!(effective_terminal(&s, Some("kitty".to_string())), "kitty");
    assert_eq!(effective_terminal(&s, None), "Terminal");
    s.terminal_app = "WezTerm".to_string();
    assert_eq!(effective_terminal(&s, Some("kitty".to_string())), "WezTerm");
}

#[test]
fn sound_names_resolve_to_system_files() {
    assert_eq!(play_sound_file("Ping"), "/System/Library/Sounds/Ping.aiff");
    assert_eq!(play_sound_file("/tmp/custom.aiff"), "/tmp/custom.aiff");
}

#[test]
fn hook_status_requires_both_config_and_script() {
    let st = check_hook_status(true, true, true, false, true);
    assert!(st.hooks_installed);
    assert!(!st.terminal_notifier_installed);
    let st2 = check_hook_status(true, false, true, true, true);
    assert!(!st2.hooks_installed);
    assert!(st2.hook_script_exists == false);
    let st3 = check_hook_status(false, true, false, false, false);
    assert!(!st3.hooks_installed);
    assert!(st3.hook_script_exists);
}

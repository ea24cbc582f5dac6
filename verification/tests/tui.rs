use ripsync::plan::{Action, Deletion, SyncPlan};
use ripsync::report::{Event, RunPhase, RunStatus};
use ripsync::tui::{kind_shown, Key, KeyEffect, KeyPress, LogKind, TuiState, Ui, LOG_CAP};

fn press(key: Key) -> KeyPress {
    KeyPress { key, ctrl: false }
}

fn ch(c: char) -> KeyPress {
    press(Key::Char(c))
}

#[test]
fn fresh_dashboard_is_planning() {
    let s = TuiState::new();
    assert_eq!(s.phase, RunPhase::Planning);
    assert_eq!(s.backend, "pending");
    assert!(s.active.is_empty() && s.log.is_empty() && !s.finished);
}

#[test]
fn file_progress_moves_through_the_active_list() {
    let mut s = TuiState::new();
    s.apply_event(Event::FileStart { rel: "a.txt".to_string(), len: 2048 }, "2.0 KiB");
    s.apply_event(Event::FileStart { rel: "b.txt".to_string(), len: 5 }, "5 B");
    assert_eq!(s.active, vec!["a.txt (2.0 KiB)".to_string(), "b.txt (5 B)".to_string()]);
    s.apply_event(
        Event::FileDone { rel: "a.txt".to_string(), action: Action::Copy, bytes: 2048 },
        "2.0 KiB",
    );
    assert_eq!(s.active, vec!["b.txt (5 B)".to_string()]);
    assert_eq!((s.files_done, s.bytes_done, s.copied), (1, 2048, 1));
    let last = s.log.back().unwrap();
    assert_eq!(last.kind, LogKind::Activity);
    assert_eq!(last.text, "copy a.txt (2.0 KiB)");
}

#[test]
fn finishing_a_file_drops_only_its_own_label() {
    let mut s = TuiState::new();
    s.apply_event(Event::FileStart { rel: "ab".to_string(), len: 1 }, "1 B");
    s.apply_event(Event::FileStart { rel: "a".to_string(), len: 1 }, "1 B");
    s.apply_event(Event::FileDone { rel: "a".to_string(), action: Action::Copy, bytes: 1 }, "1 B");
    assert_eq!(s.active, vec!["ab (1 B)".to_string()]);
    assert_eq!(s.files_done, 1);
    assert_eq!(s.bytes_done, 1);
    assert_eq!(s.copied, 1);
    s.apply_event(Event::FileDone { rel: "a".to_string(), action: Action::Copy, bytes: 1 }, "1 B");
    assert_eq!(s.active, vec!["ab (1 B)".to_string()]);
    s.apply_event(Event::FileDone { rel: "ab".to_string(), action: Action::Copy, bytes: 1 }, "1 B");
    assert!(s.active.is_empty());
}

#[test]
fn every_event_kind_updates_its_counter_or_log() {
    let mut s = TuiState::new();
    s.apply_event(Event::Phase(RunPhase::Copying), "");
    s.apply_event(Event::PlanningProgress { entries: 12 }, "");
    s.apply_event(
        Event::BackendSelected { backend: "portable".to_string(), reason: "forced".to_string() },
        "",
    );
    s.apply_event(Event::Planned { total_files: 3, total_bytes: 99, deletions: 1 }, "");
    s.apply_event(Event::DirDone { rel: "d".to_string(), action: Action::Update }, "");
    s.apply_event(Event::SymlinkDone { rel: "l".to_string(), action: Action::Copy }, "");
    s.apply_event(Event::Skipped { rel: "k".to_string() }, "");
    s.apply_event(Event::Deleted { rel: "old".to_string() }, "");
    s.apply_event(Event::Failed { rel: "bad".to_string(), error: "denied".to_string() }, "");
    s.apply_event(Event::VerificationProgress { checked: 2, total: 4, mismatches: 1 }, "");
    s.apply_event(
        Event::VerificationFailed { rel: "v".to_string(), detail: "mtime differs".to_string() },
        "",
    );
    assert_eq!(s.phase, RunPhase::Copying);
    assert_eq!(s.planning_entries, 12);
    assert_eq!((s.backend.as_str(), s.backend_reason.as_str()), ("portable", "forced"));
    assert_eq!((s.total_files, s.total_bytes), (3, 99));
    assert_eq!((s.copied, s.updated, s.skipped, s.deleted, s.errors), (1, 1, 1, 1, 1));
    assert_eq!((s.verify_checked, s.verify_total, s.verify_errors), (2, 4, 1));
    let lines: Vec<(LogKind, &str)> = s.log.iter().map(|l| (l.kind, l.text.as_str())).collect();
    assert_eq!(
        lines,
        vec![
            (LogKind::Activity, "update d"),
            (LogKind::Activity, "copy l"),
            (LogKind::Delete, "delete old"),
            (LogKind::Error, "bad: denied"),
            (LogKind::Verify, "v: mtime differs"),
        ]
    );
    s.apply_event(Event::Finished { status: RunStatus::Cancelled }, "");
    assert!(s.finished);
    assert_eq!(s.phase, RunPhase::Cancelled);
}

#[test]
fn log_keeps_the_newest_lines() {
    let mut s = TuiState::new();
    for i in 0..LOG_CAP + 3 {
        s.apply_event(Event::Deleted { rel: format!("f{i}") }, "");
    }
    assert_eq!(s.log.len(), LOG_CAP);
    assert_eq!(s.log.front().unwrap().text, "delete f3");
    assert_eq!(s.log.back().unwrap().text, format!("delete f{}", LOG_CAP + 2));
}

#[test]
fn counters_report_when_full() {
    let mut s = TuiState::new();
    s.errors = u64::MAX;
    assert!(!s.fits(&Event::Failed { rel: "x".to_string(), error: "e".to_string() }));
    assert!(s.fits(&Event::Deleted { rel: "x".to_string() }));
    s.bytes_done = u64::MAX - 1;
    let done = Event::FileDone { rel: "x".to_string(), action: Action::Copy, bytes: 2 };
    assert!(!s.fits(&done));
}

#[test]
fn review_screen_lists_the_deletions() {
    let mut s = TuiState::new();
    let plan = SyncPlan {
        actions: Vec::new(),
        deletions: vec![Deletion { rel: "a".to_string(), is_dir: false }, Deletion { rel: "b/c".to_string(), is_dir: true }],
    };
    s.set_deletions(&plan);
    assert_eq!(s.deletions, vec!["a".to_string(), "b/c".to_string()]);
}

#[test]
fn deletion_needs_the_typed_word() {
    let mut u = Ui::new();
    assert_eq!(u.handle_key(press(Key::Enter), RunPhase::Review, false), KeyEffect::Nothing);
    for c in "DELET".chars() {
        assert_eq!(u.handle_key(ch(c), RunPhase::Review, false), KeyEffect::Nothing);
    }
    assert_eq!(u.handle_key(press(Key::Enter), RunPhase::Review, false), KeyEffect::Nothing);
    u.handle_key(ch('X'), RunPhase::Review, false);
    u.handle_key(press(Key::Backspace), RunPhase::Review, false);
    u.handle_key(ch('E'), RunPhase::Review, false);
    assert_eq!(u.delete_input, "DELETE");
    assert_eq!(u.handle_key(press(Key::Enter), RunPhase::Review, false), KeyEffect::Decide(true));
    assert_eq!(u.handle_key(press(Key::Esc), RunPhase::Review, false), KeyEffect::Decide(false));
}

#[test]
fn cancel_goes_through_the_confirmation() {
    let mut u = Ui::new();
    assert_eq!(u.handle_key(ch('q'), RunPhase::Copying, false), KeyEffect::Nothing);
    assert!(u.cancel_confirm);
    assert_eq!(u.handle_key(ch('n'), RunPhase::Copying, false), KeyEffect::Nothing);
    assert!(!u.cancel_confirm);
    // A plain `c` does nothing; Ctrl-C asks.
    assert_eq!(u.handle_key(ch('c'), RunPhase::Copying, false), KeyEffect::Nothing);
    assert!(!u.cancel_confirm);
    u.handle_key(KeyPress { key: Key::Char('c'), ctrl: true }, RunPhase::Copying, false);
    assert!(u.cancel_confirm);
    assert_eq!(u.handle_key(ch('y'), RunPhase::Copying, false), KeyEffect::Cancel);
    assert_eq!(u.handle_key(press(Key::Enter), RunPhase::Copying, false), KeyEffect::Cancel);
    u.handle_key(press(Key::Esc), RunPhase::Copying, false);
    assert!(!u.cancel_confirm);
}

#[test]
fn pause_toggles_and_tabs_cycle() {
    let mut u = Ui::new();
    assert_eq!(u.handle_key(ch('p'), RunPhase::Copying, false), KeyEffect::Pause);
    assert_eq!(u.handle_key(ch('p'), RunPhase::Copying, true), KeyEffect::Resume);
    for expected in [1, 2, 3, 0, 1] {
        u.handle_key(press(Key::Tab), RunPhase::Copying, false);
        assert_eq!(u.tab, expected);
    }
    u.handle_key(ch('4'), RunPhase::Copying, false);
    assert_eq!(u.tab, 3);
    for expected in [1, 2, 3, 4, 0] {
        u.handle_key(ch('f'), RunPhase::Copying, false);
        assert_eq!(u.event_filter, expected);
    }
}

#[test]
fn filter_editing_and_scrolling() {
    let mut u = Ui::new();
    u.handle_key(ch('/'), RunPhase::Copying, false);
    assert!(u.editing_filter);
    for c in "logq".chars() {
        u.handle_key(ch(c), RunPhase::Copying, false);
    }
    u.handle_key(press(Key::Backspace), RunPhase::Copying, false);
    assert_eq!(u.filter, "log");
    assert!(!u.cancel_confirm);
    u.handle_key(press(Key::Enter), RunPhase::Copying, false);
    assert!(!u.editing_filter);
    assert_eq!(u.filter, "log");
    u.handle_key(press(Key::Esc), RunPhase::Copying, false);
    assert_eq!(u.filter, "");
    u.handle_key(press(Key::Up), RunPhase::Copying, false);
    assert_eq!(u.scroll, 0);
    u.handle_key(press(Key::PageDown), RunPhase::Copying, false);
    u.handle_key(ch('j'), RunPhase::Copying, false);
    assert_eq!(u.scroll, 11);
    u.handle_key(ch('k'), RunPhase::Copying, false);
    u.handle_key(press(Key::PageUp), RunPhase::Copying, false);
    assert_eq!(u.scroll, 0);
    u.handle_key(press(Key::End), RunPhase::Copying, false);
    assert_eq!(u.scroll, usize::MAX / 2);
    u.handle_key(press(Key::Home), RunPhase::Copying, false);
    assert_eq!(u.scroll, 0);
    u.handle_key(ch('?'), RunPhase::Copying, false);
    assert!(u.help);
}

#[test]
fn event_list_selection() {
    assert!(kind_shown(0, 0, LogKind::Activity));
    assert!(!kind_shown(3, 0, LogKind::Activity));
    assert!(kind_shown(3, 0, LogKind::Verify));
    assert!(kind_shown(0, 2, LogKind::Delete));
    assert!(!kind_shown(0, 2, LogKind::Error));
    assert!(!kind_shown(3, 1, LogKind::Activity));
    assert!(!kind_shown(3, 1, LogKind::Error));
}

use ripsync::console::{console_output_of, delete_preview, push_decimal, ConsoleMode, Output, RecordExtra};
use ripsync::plan::{Action, Deletion, SyncPlan};
use ripsync::report::{Event, RunPhase};

const PLAIN: ConsoleMode = ConsoleMode { json: false, quiet: false, verbose: 0, dry_run: false };

fn out(m: ConsoleMode, ev: Event) -> Output {
    console_output_of(&m, ev)
}

#[test]
fn decimal_digits() {
    for n in [0u64, 7, 10, 99, 1234567890, u64::MAX] {
        let mut s = "x".to_string();
        push_decimal(&mut s, n);
        assert_eq!(s, format!("x{n}"));
    }
}

#[test]
fn plain_lines_for_written_entries() {
    let done = Event::FileDone { rel: "a.txt".to_string(), action: Action::Copy, bytes: 5 };
    assert_eq!(out(PLAIN, done.clone()), Output::Stdout(format!("{:<7}{} ({} B)", "copy", "a.txt", 5)));
    assert_eq!(out(PLAIN, done.clone()), Output::Stdout("copy   a.txt (5 B)".to_string()));
    let dry = ConsoleMode { dry_run: true, ..PLAIN };
    assert_eq!(out(dry, done.clone()), Output::Stdout("[dry] copy   a.txt (5 B)".to_string()));
    let quiet = ConsoleMode { quiet: true, ..PLAIN };
    assert_eq!(out(quiet, done), Output::Nothing);
    let link = Event::SymlinkDone { rel: "l".to_string(), action: Action::Update };
    assert_eq!(out(PLAIN, link), Output::Stdout("update l (symlink)".to_string()));
    let gone = Event::Deleted { rel: "old".to_string() };
    assert_eq!(out(PLAIN, gone), Output::Stdout("\x1b[31mdelete old\x1b[0m".to_string()));
}

#[test]
fn verbosity_reveals_directories_and_skips() {
    let dir = Event::DirDone { rel: "d".to_string(), action: Action::Copy };
    assert_eq!(out(PLAIN, dir.clone()), Output::Nothing);
    let v1 = ConsoleMode { verbose: 1, ..PLAIN };
    assert_eq!(out(v1, dir), Output::Stdout("copy   d/".to_string()));
    let skip = Event::Skipped { rel: "s".to_string() };
    assert_eq!(out(v1, skip.clone()), Output::Nothing);
    let v2 = ConsoleMode { verbose: 2, ..PLAIN };
    assert_eq!(out(v2, skip), Output::Stdout("skip   s".to_string()));
}

#[test]
fn failures_go_to_standard_error_even_when_quiet() {
    let quiet = ConsoleMode { quiet: true, ..PLAIN };
    let fail = Event::Failed { rel: "x".to_string(), error: "denied".to_string() };
    assert_eq!(out(quiet, fail), Output::Stderr("\x1b[31merror\x1b[0m  x: denied".to_string()));
    let found = Event::VerificationFailed { rel: "y".to_string(), detail: "mode differs".to_string() };
    assert_eq!(out(PLAIN, found), Output::Stderr("verify  y: mode differs".to_string()));
}

#[test]
fn json_mode_records_every_entry() {
    let json = ConsoleMode { json: true, quiet: true, verbose: 0, dry_run: true };
    let done = Event::FileDone { rel: "a".to_string(), action: Action::Update, bytes: 9 };
    assert_eq!(
        out(json, done),
        Output::Record { event: "update".to_string(), path: "a".to_string(), extra: RecordExtra::Bytes(9) }
    );
    let dir = Event::DirDone { rel: "d".to_string(), action: Action::Copy };
    assert_eq!(
        out(json, dir),
        Output::Record { event: "mkdir".to_string(), path: "d".to_string(), extra: RecordExtra::Nothing }
    );
    let fail = Event::Failed { rel: "x".to_string(), error: "e".to_string() };
    assert_eq!(
        out(json, fail),
        Output::Record { event: "error".to_string(), path: "x".to_string(), extra: RecordExtra::Error("e".to_string()) }
    );
    assert_eq!(out(json, Event::Phase(RunPhase::Done)), Output::Nothing);
}

#[test]
fn deletion_preview_lines() {
    let plan = SyncPlan {
        actions: Vec::new(),
        deletions: vec![Deletion { rel: "a".to_string(), is_dir: false }, Deletion { rel: "b".to_string(), is_dir: false }],
    };
    assert_eq!(
        delete_preview(&plan, false, false),
        vec![
            String::new(),
            "\x1b[1;31mTO DELETE (2):\x1b[0m".to_string(),
            "  \x1b[31m- a\x1b[0m".to_string(),
            "  \x1b[31m- b\x1b[0m".to_string(),
            String::new(),
        ]
    );
    assert!(delete_preview(&plan, true, false).is_empty());
    assert!(delete_preview(&plan, false, true).is_empty());
    assert!(delete_preview(&SyncPlan::default(), false, false).is_empty());
}

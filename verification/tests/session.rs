use ripsync::args::{Args, BackendArg, FsyncArg, OutputFormat, ProfileArg, ReflinkArg, VerifyArg};
use ripsync::net::proto::Role;
use ripsync::report::RunStatus;
use ripsync::session::{
    approval_accepted, bwlimit_ignored_locally, bwlimit_local_warning, check_remote_flags, check_watch_flags, debounce_window,
    delete_gate, event_relevant, exit_code, outcome, remote_options, remote_role, remote_status,
    should_verify, split_words, ssh_command, wants_tui, DeleteGate, Failure, Refusal,
};

fn args() -> Args {
    Args {
        src: "src".to_string(),
        dst: "dst".to_string(),
        dry_run: false,
        delete: false,
        yes: false,
        checksum: false,
        delta: false,
        reflink: ReflinkArg::Auto,
        fsync: FsyncArg::Auto,
        backend: BackendArg::Auto,
        verify: VerifyArg::Off,
        index: true,
        hard_links: false,
        sparse: false,
        xattrs: false,
        acls: false,
        owner: false,
        group: false,
        exclude: Vec::new(),
        includes: Vec::new(),
        filter: Vec::new(),
        files_from: None,
        bwlimit: None,
        partial: false,
        watch: false,
        debounce: 300,
        no_tui: false,
        output: OutputFormat::Human,
        threads: None,
        profile: ProfileArg::Auto,
        verbose: 0,
        quiet: false,
        stats: false,
        server: false,
        rsh: "ssh".to_string(),
        whole_file: false,
        compress: false,
        compress_level: 3,
    }
}

#[test]
fn local_runs_accept_remote_only_flags() {
    assert!(!bwlimit_ignored_locally(&args()));
    assert!(!bwlimit_ignored_locally(&Args { partial: true, ..args() }));
    assert!(bwlimit_ignored_locally(&Args { bwlimit: Some("1M".to_string()), ..args() }));
    assert!(bwlimit_local_warning().contains("no effect on local copies"));
    assert_eq!(Refusal::EmptyRsh.message(), "--rsh is empty");
}

#[test]
fn delete_without_yes_is_gated() {
    let a = Args { delete: true, ..args() };
    assert_eq!(delete_gate(&a, 1, false), DeleteGate::Refuse(Refusal::DeleteNeedsYes));
    assert_eq!(
        Refusal::DeleteNeedsYes.message(),
        "--delete requires --yes in noninteractive mode"
    );
    assert_eq!(delete_gate(&a, 1, true), DeleteGate::AskApproval);
    let json = Args { output: OutputFormat::Json, ..a.clone() };
    assert_eq!(delete_gate(&json, 1, true), DeleteGate::Refuse(Refusal::DeleteNeedsYes));
    assert_eq!(delete_gate(&a, 0, false), DeleteGate::Proceed(false));
    let yes = Args { yes: true, ..a.clone() };
    assert_eq!(delete_gate(&yes, 3, false), DeleteGate::Proceed(true));
    let dry = Args { dry_run: true, ..a };
    assert_eq!(delete_gate(&dry, 3, false), DeleteGate::Proceed(false));
}

#[test]
fn approval_needs_the_exact_word() {
    assert!(approval_accepted("DELETE"));
    assert!(approval_accepted("DELETE\n"));
    assert!(approval_accepted("DELETE \r\n"));
    assert!(!approval_accepted(" DELETE"));
    assert!(!approval_accepted("delete"));
    assert!(!approval_accepted("yes"));
    assert!(!approval_accepted(""));
}

#[test]
fn dashboard_only_for_humans_on_a_terminal() {
    assert!(wants_tui(&args(), true));
    assert!(!wants_tui(&args(), false));
    assert!(!wants_tui(&Args { no_tui: true, ..args() }, true));
    assert!(!wants_tui(&Args { quiet: true, ..args() }, true));
    assert!(!wants_tui(&Args { output: OutputFormat::Json, ..args() }, true));
}

#[test]
fn run_outcome_and_index_persistence() {
    let o = outcome(&args(), 0, 0, 0);
    assert!(o.persist_index);
    assert_eq!(o.status, RunStatus::Success);
    assert_eq!(o.failure, None);
    let o = outcome(&args(), 0, 2, 0);
    assert!(!o.persist_index);
    assert_eq!(o.status, RunStatus::Failed);
    assert_eq!(o.failure, Some(Failure::EntryErrors(2)));
    let o = outcome(&args(), 0, 2, 1);
    assert_eq!(o.failure, Some(Failure::Mismatches(1)));
    assert!(!outcome(&Args { dry_run: true, ..args() }, 0, 0, 0).persist_index);
    assert!(!outcome(&Args { index: false, ..args() }, 0, 0, 0).persist_index);
    let unconfirmed = Args { delete: true, ..args() };
    assert!(!outcome(&unconfirmed, 1, 0, 0).persist_index);
    assert!(outcome(&unconfirmed, 0, 0, 0).persist_index);
    assert!(should_verify(false, 0));
    assert!(!should_verify(true, 0));
    assert!(!should_verify(false, 1));
    assert_eq!(exit_code(true), 130);
    assert_eq!(exit_code(false), 1);
}

#[test]
fn remote_runs_and_their_direction() {
    assert_eq!(check_remote_flags(&Args { dry_run: true, ..args() }), Err(Refusal::RemoteDryRun));
    assert_eq!(
        check_remote_flags(&Args { delete: true, ..args() }),
        Err(Refusal::RemoteDeleteNeedsYes)
    );
    assert!(check_remote_flags(&Args { delete: true, yes: true, ..args() }).is_ok());
    assert_eq!(remote_role(true, true), Err(Refusal::RemoteToRemote));
    assert_eq!(remote_role(false, false), Err(Refusal::BothLocal));
    assert_eq!(remote_role(true, false), Ok(Role::Pull));
    assert_eq!(remote_role(false, true), Ok(Role::Push));
    let o = remote_options(&Args { compress: true, checksum: true, ..args() });
    assert!(o.preserve_mode && o.preserve_mtime && o.compress && o.checksum);
    assert_eq!(o.compress_level, 3);
    assert_eq!(remote_status(0), RunStatus::Success);
    assert_eq!(remote_status(4), RunStatus::Failed);
}

#[test]
fn ssh_command_line() {
    assert_eq!(split_words("  ssh  -p 2222\t-x "), vec!["ssh", "-p", "2222", "-x"]);
    assert!(split_words(" \t ").is_empty());
    let cmd = ssh_command("ssh -p 2222", &Some("alice".to_string()), "box").unwrap();
    assert_eq!(cmd, vec!["ssh", "-p", "2222", "alice@box", "ripsync", "--server"]);
    let cmd = ssh_command("ssh", &None, "host").unwrap();
    assert_eq!(cmd, vec!["ssh", "host", "ripsync", "--server"]);
    assert_eq!(ssh_command("   ", &None, "host"), Err(Refusal::EmptyRsh));
}

#[test]
fn watch_ignores_its_own_index_and_dry_runs() {
    assert!(event_relevant(&vec!["dst/a.txt".to_string()]));
    assert!(!event_relevant(&vec!["dst/.ripsync/manifest.journal".to_string()]));
    assert!(event_relevant(&vec![
        "dst/.ripsync/manifest.bin".to_string(),
        "dst/b".to_string()
    ]));
    assert!(!event_relevant(&Vec::new()));
    assert_eq!(debounce_window(0), 1);
    assert_eq!(debounce_window(300), 300);
    assert_eq!(check_watch_flags(&Args { dry_run: true, ..args() }), Err(Refusal::WatchDryRun));
    assert!(check_watch_flags(&args()).is_ok());
}

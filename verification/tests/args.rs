use ripsync::args::{
    parse_backend, parse_fsync, parse_reflink, Args, BackendArg, CliSources, FileConfig, FsyncArg,
    OutputFormat, ProfileArg, ReflinkArg, VerifyArg,
};
use ripsync::copy::{Backend, FsyncMode, ReflinkMode};
use ripsync::tune::{Profile, RamClass};
use ripsync::verify::VerifyMode;

fn base_args() -> Args {
    Args {
        src: "src".to_string(),
        dst: "dst".to_string(),
        dry_run: false,
        delete: false,
        yes: false,
        checksum: false,
        delta: false,
        reflink: ReflinkArg::Auto,
        fsync: FsyncArg::Auto,
        backend: BackendArg::Auto,
        verify: VerifyArg::Off,
        index: true,
        hard_links: false,
        sparse: false,
        xattrs: false,
        acls: false,
        owner: false,
        group: false,
        exclude: Vec::new(),
        includes: Vec::new(),
        filter: Vec::new(),
        files_from: None,
        bwlimit: None,
        partial: false,
        watch: false,
        debounce: 300,
        no_tui: false,
        output: OutputFormat::Human,
        threads: None,
        profile: ProfileArg::Auto,
        verbose: 0,
        quiet: false,
        stats: false,
        server: false,
        rsh: "ssh".to_string(),
        whole_file: false,
        compress: false,
        compress_level: 3,
    }
}

const NOTHING_GIVEN: CliSources =
    CliSources { reflink: false, fsync: false, backend: false, threads: false, exclude: false };

#[test]
fn option_values_map_to_modes() {
    assert_eq!(ReflinkArg::Always.mode(), ReflinkMode::Always);
    assert_eq!(ReflinkArg::Never.mode(), ReflinkMode::Never);
    assert_eq!(FsyncArg::Never.mode(), FsyncMode::Never);
    assert_eq!(BackendArg::Uring.backend(), Backend::Uring);
    assert_eq!(BackendArg::Portable.backend(), Backend::Portable);
    assert_eq!(VerifyArg::Off.mode(), VerifyMode::Off);
    assert_eq!(VerifyArg::All.mode(), VerifyMode::All);
}

#[test]
fn config_values_are_read_ignoring_ascii_case() {
    assert_eq!(parse_reflink("Always"), Some(ReflinkArg::Always));
    assert_eq!(parse_reflink("NEVER"), Some(ReflinkArg::Never));
    assert_eq!(parse_reflink("sometimes"), None);
    assert_eq!(parse_fsync("auto"), Some(FsyncArg::Auto));
    assert_eq!(parse_backend("uRiNg"), Some(BackendArg::Uring));
    assert_eq!(parse_backend("portable "), None);
}

#[test]
fn explicit_profile_wins_over_detection() {
    let a = Args { profile: ProfileArg::Low, ..base_args() };
    assert_eq!(a.profile_for(64, Some(RamClass::Large)), Profile::Low);
    let auto = base_args();
    assert_eq!(auto.profile_for(16, Some(RamClass::Large)), Profile::High);
    assert_eq!(auto.profile_for(2, None), Profile::Low);
    assert_eq!(Args { threads: Some(5), ..base_args() }.thread_count(None), 5);
    assert!(base_args().thread_count(None) >= 1);
}

#[test]
fn config_supplies_defaults_the_command_line_left_open() {
    let mut a = base_args();
    let cfg = FileConfig {
        reflink: Some("never".to_string()),
        fsync: Some("bogus".to_string()),
        backend: Some("portable".to_string()),
        threads: Some(8),
        exclude: Some(vec!["*.tmp".to_string()]),
    };
    let w = a.apply_config(cfg, &NOTHING_GIVEN);
    assert_eq!(a.reflink, ReflinkArg::Never);
    assert_eq!(a.fsync, FsyncArg::Auto);
    assert_eq!(a.backend, BackendArg::Portable);
    assert_eq!(a.threads, Some(8));
    assert_eq!(a.exclude, vec!["*.tmp".to_string()]);
    assert!(!w.reflink && w.fsync && !w.backend);
    assert_eq!(a.rsh, "ssh");
}

#[test]
fn command_line_always_wins_over_config() {
    let mut a = Args {
        reflink: ReflinkArg::Always,
        threads: Some(2),
        exclude: vec!["keep".to_string()],
        ..base_args()
    };
    let given = CliSources { reflink: true, exclude: true, ..NOTHING_GIVEN };
    let cfg = FileConfig {
        reflink: Some("bogus".to_string()),
        fsync: None,
        backend: None,
        threads: Some(8),
        exclude: Some(vec!["*.tmp".to_string()]),
    };
    let w = a.apply_config(cfg, &given);
    assert_eq!(a.reflink, ReflinkArg::Always);
    assert_eq!(a.threads, Some(2));
    assert_eq!(a.exclude, vec!["keep".to_string()]);
    assert!(!w.reflink && !w.fsync && !w.backend);
}

//! Command-line settings, as the program's parser fills them in, and what
//! they resolve to.

use vstd::prelude::*;

use crate::copy::{Backend, FsyncMode, ReflinkMode};
use crate::tune::{classify, classify_spec, params_spec, Profile, RamClass};
use crate::verify::VerifyMode;
use crate::text::chars_of;

verus! {

/// Command-line form of the device performance tier.
#[derive(Debug, Clone, Copy, PartialEq, Eq, Structural)]
pub enum ProfileArg {
    /// Detect the tier automatically from CPU count and RAM.
    Auto,
    /// Conserve resources for small or constrained devices.
    Low,
    /// Balanced desktop or laptop defaults.
    Balanced,
    /// Use workstation or server hardware fully.
    High,
}

/// How to render output.
#[derive(Debug, Clone, Copy, PartialEq, Eq, Structural)]
pub enum OutputFormat {
    /// Human-readable text.
    Human,
    /// Machine-readable JSON (final report).
    Json,
}

/// Command-line form of the reflink strategy.
#[derive(Debug, Clone, Copy, PartialEq, Eq, Structural)]
pub enum ReflinkArg {
    /// Try reflink, fall back when unsupported.
    Auto,
    /// Require reflink; fail if unavailable.
    Always,
    /// Never attempt reflink.
    Never,
}

/// Command-line form of the fsync strategy.
#[derive(Debug, Clone, Copy, PartialEq, Eq, Structural)]
pub enum FsyncArg {
    /// Skip per-file fsync; fsync touched directories once at the end.
    Auto,
    /// Fsync every file before rename.
    Always,
    /// Skip all fsync.
    Never,
}

/// Command-line form of the copy backend.
#[derive(Debug, Clone, Copy, PartialEq, Eq, Structural)]
pub enum BackendArg {
    /// Portable-first automatic selection.
    Auto,
    /// Force the `io_uring` backend.
    Uring,
    /// Force the portable backend.
    Portable,
}

/// Command-line form of post-copy verification.
#[derive(Debug, Clone, Copy, PartialEq, Eq, Structural)]
pub enum VerifyArg {
    /// Do not verify.
    Off,
    /// Verify copied and updated entries.
    Changed,
    /// Compare the complete source and destination trees.
    All,
}

impl ReflinkArg {
    /// The reflink mode this option selects.
    pub fn mode(self) -> (m: ReflinkMode)
        ensures
            m == (match self {
                ReflinkArg::Auto => ReflinkMode::Auto,
                ReflinkArg::Always => ReflinkMode::Always,
                ReflinkArg::Never => ReflinkMode::Never,
            }),
    {
        match self {
            ReflinkArg::Auto => ReflinkMode::Auto,
            ReflinkArg::Always => ReflinkMode::Always,
            ReflinkArg::Never => ReflinkMode::Never,
        }
    }
}

impl FsyncArg {
    /// The fsync mode this option selects.
    pub fn mode(self) -> (m: FsyncMode)
        ensures
            m == (match self {
                FsyncArg::Auto => FsyncMode::Auto,
                FsyncArg::Always => FsyncMode::Always,
                FsyncArg::Never => FsyncMode::Never,
            }),
    {
        match self {
            FsyncArg::Auto => FsyncMode::Auto,
            FsyncArg::Always => FsyncMode::Always,
            FsyncArg::Never => FsyncMode::Never,
        }
    }
}

impl BackendArg {
    /// The backend this option selects.
    pub fn backend(self) -> (b: Backend)
        ensures
            b == (match self {
                BackendArg::Auto => Backend::Auto,
                BackendArg::Uring => Backend::Uring,
                BackendArg::Portable => Backend::Portable,
            }),
    {
        match self {
            BackendArg::Auto => Backend::Auto,
            BackendArg::Uring => Backend::Uring,
            BackendArg::Portable => Backend::Portable,
        }
    }
}

impl VerifyArg {
    /// The verification scope this option selects.
    pub fn mode(self) -> (m: VerifyMode)
        ensures
            m == (match self {
                VerifyArg::Off => VerifyMode::Off,
                VerifyArg::Changed => VerifyMode::Changed,
                VerifyArg::All => VerifyMode::All,
            }),
    {
        match self {
            VerifyArg::Off => VerifyMode::Off,
            VerifyArg::Changed => VerifyMode::Changed,
            VerifyArg::All => VerifyMode::All,
        }
    }
}

/// Calls `num_cpus::get()`. Claims what the crate documents: the count of
/// available logical CPUs is at least 1. Which count comes back depends on
/// the machine and is not stated.
#[verifier::external_body]
fn cpu_count() -> (n: usize)
    ensures
        n >= 1,
{
    num_cpus::get()
}

/// The program's settings.
#[derive(Debug, Clone)]
pub struct Args {
    /// Source directory (local path or `[user@]host:path`).
    pub src: String,
    /// Destination directory (made an exact mirror of the source).
    pub dst: String,
    /// Plan only: print a readable summary and change nothing.
    pub dry_run: bool,
    /// Mirror deletions (entries in the destination but not the source).
    pub delete: bool,
    /// Confirm destructive actions (required for deletions to happen).
    pub yes: bool,
    /// Compare by content hash instead of size and mtime.
    pub checksum: bool,
    /// Force delta transfer even locally.
    pub delta: bool,
    /// Copy-on-write reflink strategy.
    pub reflink: ReflinkArg,
    /// Durability versus speed.
    pub fsync: FsyncArg,
    /// File-copy backend.
    pub backend: BackendArg,
    /// Post-copy verification scope.
    pub verify: VerifyArg,
    /// Use the persistent destination index.
    pub index: bool,
    /// Preserve hardlinked source files as hardlinks.
    pub hard_links: bool,
    /// Preserve sparse-file holes.
    pub sparse: bool,
    /// Preserve non-ACL extended attributes.
    pub xattrs: bool,
    /// Preserve POSIX ACL attributes.
    pub acls: bool,
    /// Preserve numeric owner id.
    pub owner: bool,
    /// Preserve numeric group id.
    pub group: bool,
    /// Exclude patterns (repeatable).
    pub exclude: Vec<String>,
    /// Include patterns (repeatable), checked before excludes.
    pub includes: Vec<String>,
    /// Ordered `"+ PAT"` / `"- PAT"` rules, highest priority.
    pub filter: Vec<String>,
    /// File listing the paths to transfer.
    pub files_from: Option<String>,
    /// Upload rate limit for remote transfers.
    pub bwlimit: Option<String>,
    /// Keep partially transferred files (accepted for compatibility).
    pub partial: bool,
    /// Watch the source and re-sync on every change.
    pub watch: bool,
    /// Debounce window in milliseconds for watching.
    pub debounce: u64,
    /// Plain line output instead of the dashboard.
    pub no_tui: bool,
    /// Output format.
    pub output: OutputFormat,
    /// Worker threads; overrides the tier's thread count.
    pub threads: Option<usize>,
    /// Performance tier.
    pub profile: ProfileArg,
    /// Verbosity level.
    pub verbose: u8,
    /// Suppress per-entry output.
    pub quiet: bool,
    /// Print a final summary block.
    pub stats: bool,
    /// Act as the remote protocol peer over stdin/stdout.
    pub server: bool,
    /// Remote shell program for `host:path` transfers.
    pub rsh: String,
    /// Transfer whole files instead of computing deltas.
    pub whole_file: bool,
    /// Compress whole-file payloads on the wire with zstd.
    pub compress: bool,
    /// zstd level for compression.
    pub compress_level: i32,
}

/// The tier an `--profile` choice resolves to on a machine with `cores` CPUs
/// and RAM of class `ram` (only `auto` looks at the machine).
pub open spec fn profile_choice(profile: ProfileArg, cores: usize, ram: Option<RamClass>) -> Profile {
    match profile {
        ProfileArg::Auto => classify_spec(cores, ram),
        ProfileArg::Low => Profile::Low,
        ProfileArg::Balanced => Profile::Balanced,
        ProfileArg::High => Profile::High,
    }
}

impl Args {
    /// The tier `--profile` selects on a machine with `cores` CPUs and RAM of
    /// class `ram`.
    pub fn profile_for(&self, cores: usize, ram: Option<RamClass>) -> (p: Profile)
        ensures
            p == profile_choice(self.profile, cores, ram),
    {
        match self.profile {
            ProfileArg::Auto => classify(cores, ram),
            ProfileArg::Low => Profile::Low,
            ProfileArg::Balanced => Profile::Balanced,
            ProfileArg::High => Profile::High,
        }
    }

    /// Resolves the device performance tier: `--profile`, or auto-detection
    /// from this machine's CPU count and the given RAM class.
    pub fn resolve_profile(&self, ram: Option<RamClass>) -> (p: Profile)
        ensures
            exists|cores: usize| cores >= 1 && p == profile_choice(self.profile, cores, ram),
    {
        let cores = cpu_count();
        self.profile_for(cores, ram)
    }

    /// Resolves the worker-thread count: an explicit `--threads`, else the
    /// count implied by the resolved tier on this machine.
    pub fn thread_count(&self, ram: Option<RamClass>) -> (n: usize)
        ensures
            self.threads matches Some(t) ==> n == t,
            self.threads is None ==> exists|c1: usize, c2: usize|
                c1 >= 1 && c2 >= 1 && n == params_spec(profile_choice(self.profile, c1, ram), c2).threads,
    {
        match self.threads {
            Some(t) => t,
            None => {
                let c1 = cpu_count();
                let p = self.profile_for(c1, ram);
                let c2 = cpu_count();
                let t = p.params(c2).threads;
                proof {
                    assert(c1 >= 1 && c2 >= 1 && t == params_spec(profile_choice(self.profile, c1, ram), c2).threads);
                }
                t
            },
        }
    }
}

// ---------------------------------------------------------------------------
// Configuration-file defaults
// ---------------------------------------------------------------------------

/// `c` in ASCII lowercase (other characters unchanged).
pub open spec fn ascii_lower(c: char) -> char {
    if 'A' <= c && c <= 'Z' {
        ((c as u32) + 32) as char
    } else {
        c
    }
}

/// `text` and `name` are equal ignoring ASCII case.
#[verifier::opaque]
pub open spec fn spells(text: Seq<char>, name: Seq<char>) -> bool {
    text.len() == name.len() && forall|i: int|
        0 <= i < text.len() ==> #[trigger] ascii_lower(text[i]) == ascii_lower(name[i])
}

/// The code point of `c` in ASCII lowercase.
fn lower_code(c: char) -> (r: u32)
    ensures
        r == ascii_lower(c) as u32,
{
    if 'A' <= c && c <= 'Z' {
        (c as u32) + 32
    } else {
        c as u32
    }
}

/// Whether `text` and `name` are equal ignoring ASCII case (what
/// `str::eq_ignore_ascii_case` decides).
fn spells_exec(text: &str, name: &str) -> (r: bool)
    ensures
        r == spells(text@, name@),
{
    proof {
        reveal(spells);
    }
    let a = chars_of(text);
    let b = chars_of(name);
    if a.len() != b.len() {
        return false;
    }
    let mut i: usize = 0;
    while i < a.len()
        invariant
            a@ == text@,
            b@ == name@,
            a@.len() == b@.len(),
            i <= a@.len(),
            forall|j: int| 0 <= j < i ==> #[trigger] ascii_lower(a@[j]) == ascii_lower(b@[j]),
        decreases a@.len() - i,
    {
        if lower_code(a[i]) != lower_code(b[i]) {
            proof {
                reveal(spells);
                assert(ascii_lower(text@[i as int]) != ascii_lower(name@[i as int]));
                assert(!spells(text@, name@));
            }
            return false;
        }
        i += 1;
    }
    proof {
        reveal(spells);
    }
    true
}

/// The reflink option a configuration value names (`auto`, `always` or
/// `never`, in any ASCII case).
pub open spec fn reflink_named(text: Seq<char>) -> Option<ReflinkArg> {
    if spells(text, "auto"@) {
        Some(ReflinkArg::Auto)
    } else if spells(text, "always"@) {
        Some(ReflinkArg::Always)
    } else if spells(text, "never"@) {
        Some(ReflinkArg::Never)
    } else {
        None
    }
}

/// The fsync option a configuration value names.
pub open spec fn fsync_named(text: Seq<char>) -> Option<FsyncArg> {
    if spells(text, "auto"@) {
        Some(FsyncArg::Auto)
    } else if spells(text, "always"@) {
        Some(FsyncArg::Always)
    } else if spells(text, "never"@) {
        Some(FsyncArg::Never)
    } else {
        None
    }
}

/// The backend option a configuration value names.
pub open spec fn backend_named(text: Seq<char>) -> Option<BackendArg> {
    if spells(text, "auto"@) {
        Some(BackendArg::Auto)
    } else if spells(text, "uring"@) {
        Some(BackendArg::Uring)
    } else if spells(text, "portable"@) {
        Some(BackendArg::Portable)
    } else {
        None
    }
}

/// Reads a reflink option from a configuration value.
pub fn parse_reflink(text: &str) -> (r: Option<ReflinkArg>)
    ensures
        r == reflink_named(text@),
{
    if spells_exec(text, "auto") {
        Some(ReflinkArg::Auto)
    } else if spells_exec(text, "always") {
        Some(ReflinkArg::Always)
    } else if spells_exec(text, "never") {
        Some(ReflinkArg::Never)
    } else {
        None
    }
}

/// Reads an fsync option from a configuration value.
pub fn parse_fsync(text: &str) -> (r: Option<FsyncArg>)
    ensures
        r == fsync_named(text@),
{
    if spells_exec(text, "auto") {
        Some(FsyncArg::Auto)
    } else if spells_exec(text, "always") {
        Some(FsyncArg::Always)
    } else if spells_exec(text, "never") {
        Some(FsyncArg::Never)
    } else {
        None
    }
}

/// Reads a backend option from a configuration value.
pub fn parse_backend(text: &str) -> (r: Option<BackendArg>)
    ensures
        r == backend_named(text@),
{
    if spells_exec(text, "auto") {
        Some(BackendArg::Auto)
    } else if spells_exec(text, "uring") {
        Some(BackendArg::Uring)
    } else if spells_exec(text, "portable") {
        Some(BackendArg::Portable)
    } else {
        None
    }
}

/// The keys a configuration file may set.
#[derive(Debug, Clone)]
pub struct FileConfig {
    /// Default reflink strategy.
    pub reflink: Option<String>,
    /// Default fsync strategy.
    pub fsync: Option<String>,
    /// Default backend.
    pub backend: Option<String>,
    /// Default thread count.
    pub threads: Option<usize>,
    /// Default exclude patterns.
    pub exclude: Option<Vec<String>>,
}

/// Which of the configurable flags were given on the command line.
#[derive(Debug, Clone, Copy, PartialEq, Eq, Structural)]
pub struct CliSources {
    /// `--reflink` was given.
    pub reflink: bool,
    /// `--fsync` was given.
    pub fsync: bool,
    /// `--backend` was given.
    pub backend: bool,
    /// `--threads` was given.
    pub threads: bool,
    /// `--exclude` was given.
    pub exclude: bool,
}

/// Which configured values were set, counted, and not understood (and were
/// therefore ignored).
#[derive(Debug, Clone, Copy, PartialEq, Eq, Structural)]
pub struct ConfigWarnings {
    /// The `reflink` value.
    pub reflink: bool,
    /// The `fsync` value.
    pub fsync: bool,
    /// The `backend` value.
    pub backend: bool,
}

/// The reflink setting after the configuration file: its value counts
/// when the flag was not given and the value is understood.
pub open spec fn reflink_after(given: bool, raw: Option<String>, current: ReflinkArg) -> ReflinkArg {
    match raw {
        Some(t) => if !given && reflink_named(t@) is Some {
            reflink_named(t@)->Some_0
        } else {
            current
        },
        None => current,
    }
}

/// The fsync setting after the configuration file.
pub open spec fn fsync_after(given: bool, raw: Option<String>, current: FsyncArg) -> FsyncArg {
    match raw {
        Some(t) => if !given && fsync_named(t@) is Some {
            fsync_named(t@)->Some_0
        } else {
            current
        },
        None => current,
    }
}

/// The backend setting after the configuration file.
pub open spec fn backend_after(given: bool, raw: Option<String>, current: BackendArg) -> BackendArg {
    match raw {
        Some(t) => if !given && backend_named(t@) is Some {
            backend_named(t@)->Some_0
        } else {
            current
        },
        None => current,
    }
}

/// A key is reported when its value counts but is not understood.
pub open spec fn misread_key(given: bool, raw: Option<String>, understood: bool) -> bool {
    !given && raw is Some && !understood
}

fn reflink_setting(given: bool, raw: &Option<String>, current: ReflinkArg) -> (r: (ReflinkArg, bool))
    ensures
        r.0 == reflink_after(given, *raw, current),
        r.1 == misread_key(given, *raw, raw matches Some(t) && reflink_named(t@) is Some),
{
    if given {
        return (current, false);
    }
    match raw {
        Some(t) => match parse_reflink(t.as_str()) {
            Some(v) => (v, false),
            None => (current, true),
        },
        None => (current, false),
    }
}

fn fsync_setting(given: bool, raw: &Option<String>, current: FsyncArg) -> (r: (FsyncArg, bool))
    ensures
        r.0 == fsync_after(given, *raw, current),
        r.1 == misread_key(given, *raw, raw matches Some(t) && fsync_named(t@) is Some),
{
    if given {
        return (current, false);
    }
    match raw {
        Some(t) => match parse_fsync(t.as_str()) {
            Some(v) => (v, false),
            None => (current, true),
        },
        None => (current, false),
    }
}

fn backend_setting(given: bool, raw: &Option<String>, current: BackendArg) -> (r: (BackendArg, bool))
    ensures
        r.0 == backend_after(given, *raw, current),
        r.1 == misread_key(given, *raw, raw matches Some(t) && backend_named(t@) is Some),
{
    if given {
        return (current, false);
    }
    match raw {
        Some(t) => match parse_backend(t.as_str()) {
            Some(v) => (v, false),
            None => (current, true),
        },
        None => (current, false),
    }
}

/// Two settings agree on everything a configuration file cannot set.
pub open spec fn same_unconfigured(a: Args, b: Args) -> bool {
    &&& a.src == b.src
    &&& a.dst == b.dst
    &&& a.dry_run == b.dry_run
    &&& a.delete == b.delete
    &&& a.yes == b.yes
    &&& a.checksum == b.checksum
    &&& a.delta == b.delta
    &&& a.verify == b.verify
    &&& a.index == b.index
    &&& a.hard_links == b.hard_links
    &&& a.sparse == b.sparse
    &&& a.xattrs == b.xattrs
    &&& a.acls == b.acls
    &&& a.owner == b.owner
    &&& a.group == b.group
    &&& a.includes == b.includes
    &&& a.filter == b.filter
    &&& a.files_from == b.files_from
    &&& a.bwlimit == b.bwlimit
    &&& a.partial == b.partial
    &&& a.watch == b.watch
    &&& a.debounce == b.debounce
    &&& a.no_tui == b.no_tui
    &&& a.output == b.output
    &&& a.profile == b.profile
    &&& a.verbose == b.verbose
    &&& a.quiet == b.quiet
    &&& a.stats == b.stats
    &&& a.server == b.server
    &&& a.rsh == b.rsh
    &&& a.whole_file == b.whole_file
    &&& a.compress == b.compress
    &&& a.compress_level == b.compress_level
}

fn exclude_setting(given: bool, raw: Option<Vec<String>>, current: Vec<String>) -> (r: Vec<String>)
    ensures
        r == if !given && raw is Some {
            raw->Some_0
        } else {
            current
        },
{
    if given {
        return current;
    }
    match raw {
        Some(globs) => globs,
        None => current,
    }
}

impl Args {
    fn set_configured(
        &mut self,
        reflink: ReflinkArg,
        fsync: FsyncArg,
        backend: BackendArg,
        threads: Option<usize>,
        exclude: Vec<String>,
    )
        ensures
            final(self).reflink == reflink,
            final(self).fsync == fsync,
            final(self).backend == backend,
            final(self).threads == threads,
            final(self).exclude == exclude,
            same_unconfigured(*final(self), *old(self)),
    {
        self.reflink = reflink;
        self.fsync = fsync;
        self.backend = backend;
        self.threads = threads;
        self.exclude = exclude;
    }

    /// Applies configuration-file defaults to every flag not given on the
    /// command line (the command line always wins; a thread count applies
    /// only when none is set). Reports the values that were not understood
    /// (and were ignored).
    pub fn apply_config(&mut self, cfg: FileConfig, given: &CliSources) -> (w: ConfigWarnings)
        ensures
            final(self).reflink == reflink_after(given.reflink, cfg.reflink, old(self).reflink),
            final(self).fsync == fsync_after(given.fsync, cfg.fsync, old(self).fsync),
            final(self).backend == backend_after(given.backend, cfg.backend, old(self).backend),
            final(self).threads == if !given.threads && old(self).threads is None {
                cfg.threads
            } else {
                old(self).threads
            },
            final(self).exclude == if !given.exclude && cfg.exclude is Some {
                cfg.exclude->Some_0
            } else {
                old(self).exclude
            },
            same_unconfigured(*final(self), *old(self)),
            w.reflink == misread_key(given.reflink, cfg.reflink, cfg.reflink matches Some(t) && reflink_named(t@) is Some),
            w.fsync == misread_key(given.fsync, cfg.fsync, cfg.fsync matches Some(t) && fsync_named(t@) is Some),
            w.backend == misread_key(given.backend, cfg.backend, cfg.backend matches Some(t) && backend_named(t@) is Some),
    {
        let (reflink, bad_reflink) = reflink_setting(given.reflink, &cfg.reflink, self.reflink);
        let (fsync, bad_fsync) = fsync_setting(given.fsync, &cfg.fsync, self.fsync);
        let (backend, bad_backend) = backend_setting(given.backend, &cfg.backend, self.backend);
        let threads = match self.threads {
            Some(t) => Some(t),
            None => if given.threads {
                None
            } else {
                cfg.threads
            },
        };
        let mut current: Vec<String> = Vec::new();
        std::mem::swap(&mut self.exclude, &mut current);
        let exclude = exclude_setting(given.exclude, cfg.exclude, current);
        self.set_configured(reflink, fsync, backend, threads, exclude);
        ConfigWarnings { reflink: bad_reflink, fsync: bad_fsync, backend: bad_backend }
    }
}

} // verus!

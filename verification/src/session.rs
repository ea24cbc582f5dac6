//! The decisions a run takes around planning and applying: which flags are
//! refused, when deletions may proceed, when the index is saved, how a run
//! ends, how a remote transfer is set up, which watch events matter, and
//! which configuration-file defaults apply.
//!
//! The program performs each step (reading the terminal, spawning ssh,
//! watching the filesystem) and asks here what follows.

use vstd::prelude::*;

use crate::args::{Args, BackendArg, FsyncArg, ReflinkArg};
use crate::filter::{is_whitespace, is_whitespace_spec};
use crate::net::proto::{NetOptions, Role};
use crate::paths::components;
use crate::report::RunStatus;
use crate::text::{chars_of, string_of};

verus! {

/// Why a run refuses to go on.
#[derive(Debug, Clone, Copy, PartialEq, Eq, Structural)]
pub enum Refusal {
    /// Deletions need `--yes` when nobody can be asked.
    DeleteNeedsYes,
    /// The interactive approval of deletions was not given.
    ApprovalRejected,
    /// Watching cannot be combined with a dry run.
    WatchDryRun,
    /// Dry runs are not supported for remote transfers.
    RemoteDryRun,
    /// Remote deletions need `--yes`.
    RemoteDeleteNeedsYes,
    /// Both ends are remote.
    RemoteToRemote,
    /// Neither end is remote.
    BothLocal,
    /// The remote shell command is empty.
    EmptyRsh,
}

/// The message a refusal is reported with.
pub open spec fn refusal_text(r: Refusal) -> Seq<char> {
    match r {
        Refusal::DeleteNeedsYes => "--delete requires --yes in noninteractive mode"@,
        Refusal::ApprovalRejected => "delete approval rejected before mutation"@,
        Refusal::WatchDryRun => "--watch cannot be combined with --dry-run"@,
        Refusal::RemoteDryRun => "--dry-run is not yet supported for remote transfers"@,
        Refusal::RemoteDeleteNeedsYes => "--delete over a remote transfer requires --yes (no interactive preview yet)"@,
        Refusal::RemoteToRemote => "remote-to-remote transfers are not supported"@,
        Refusal::BothLocal => "run_remote called with two local paths"@,
        Refusal::EmptyRsh => "--rsh is empty"@,
    }
}

impl Refusal {
    /// The message this refusal is reported with.
    pub fn message(self) -> (s: &'static str)
        ensures
            s@ == refusal_text(self),
    {
        match self {
            Refusal::DeleteNeedsYes => "--delete requires --yes in noninteractive mode",
            Refusal::ApprovalRejected => "delete approval rejected before mutation",
            Refusal::WatchDryRun => "--watch cannot be combined with --dry-run",
            Refusal::RemoteDryRun => "--dry-run is not yet supported for remote transfers",
            Refusal::RemoteDeleteNeedsYes => "--delete over a remote transfer requires --yes (no interactive preview yet)",
            Refusal::RemoteToRemote => "remote-to-remote transfers are not supported",
            Refusal::BothLocal => "run_remote called with two local paths",
            Refusal::EmptyRsh => "--rsh is empty",
        }
    }
}

/// Whether a local run warns that `--bwlimit` has no effect: the limit only
/// applies to remote transfers, so a local run warns and proceeds (and
/// `--partial` is accepted silently, writes being atomic anyway).
pub fn bwlimit_ignored_locally(args: &Args) -> (r: bool)
    ensures
        r == (args.bwlimit is Some),
{
    args.bwlimit.is_some()
}

/// The warning a local run prints for `--bwlimit`.
pub fn bwlimit_local_warning() -> (s: &'static str)
    ensures
        s@ == "--bwlimit has no effect on local copies"@,
{
    "--bwlimit has no effect on local copies"
}

/// The live dashboard is used for human output on a terminal, unless turned
/// off or quiet.
pub fn wants_tui(args: &Args, stdout_is_terminal: bool) -> (r: bool)
    ensures
        r == (!args.no_tui && args.output == crate::args::OutputFormat::Human && !args.quiet
            && stdout_is_terminal),
{
    !args.no_tui && args.output == crate::args::OutputFormat::Human && !args.quiet
        && stdout_is_terminal
}

/// What happens before deletions may touch the destination.
#[derive(Debug, Clone, Copy, PartialEq, Eq, Structural)]
pub enum DeleteGate {
    /// Go on; the flag says whether deletions are confirmed.
    Proceed(bool),
    /// Ask the user to type `DELETE`.
    AskApproval,
    /// Stop before anything changes.
    Refuse(Refusal),
}

/// The delete guard: no destination mutation starts before destructive
/// approval. With deletions pending, unconfirmed and not a dry run, a human
/// on a terminal is asked; anyone else is refused.
pub fn delete_gate(args: &Args, deletions: usize, interactive: bool) -> (g: DeleteGate)
    ensures
        g == (if args.delete && !args.yes && !args.dry_run && deletions > 0 {
            if args.output == crate::args::OutputFormat::Human && interactive {
                DeleteGate::AskApproval
            } else {
                DeleteGate::Refuse(Refusal::DeleteNeedsYes)
            }
        } else {
            DeleteGate::Proceed(args.yes)
        }),
{
    if args.delete && !args.yes && !args.dry_run && deletions > 0 {
        if args.output == crate::args::OutputFormat::Human && interactive {
            DeleteGate::AskApproval
        } else {
            DeleteGate::Refuse(Refusal::DeleteNeedsYes)
        }
    } else {
        DeleteGate::Proceed(args.yes)
    }
}

/// `s` without trailing whitespace.
pub open spec fn trim_end_spec(s: Seq<char>) -> Seq<char>
    decreases s.len(),
{
    if s.len() > 0 && is_whitespace_spec(s.last()) {
        trim_end_spec(s.drop_last())
    } else {
        s
    }
}

/// Whether an interactive answer approves deletions: exactly `DELETE`, up
/// to trailing whitespace.
pub fn approval_accepted(answer: &str) -> (r: bool)
    ensures
        r == (trim_end_spec(answer@) == "DELETE"@),
{
    let cs = chars_of(answer);
    let mut n: usize = cs.len();
    proof {
        assert(cs@.take(n as int) =~= cs@);
    }
    while n > 0 && is_whitespace(cs[n - 1])
        invariant
            n <= cs@.len(),
            trim_end_spec(cs@.take(n as int)) == trim_end_spec(cs@),
        decreases n,
    {
        proof {
            let t = cs@.take(n as int);
            assert(t.last() == cs@[n - 1]);
            assert(t.drop_last() =~= cs@.take(n - 1));
        }
        n -= 1;
    }
    proof {
        let t = cs@.take(n as int);
        if n > 0 {
            assert(t.last() == cs@[n - 1]);
        }
        assert(trim_end_spec(t) == t);
        reveal_strlit("DELETE");
    }
    let ok = n == 6 && cs[0] == 'D' && cs[1] == 'E' && cs[2] == 'L' && cs[3] == 'E' && cs[4]
        == 'T' && cs[5] == 'E';
    proof {
        let t = cs@.take(n as int);
        if ok {
            assert(t =~= "DELETE"@);
        }
        if t == "DELETE"@ {
            assert(t[0] == 'D' && t[1] == 'E' && t[2] == 'L' && t[3] == 'E' && t[4] == 'T' && t[5] == 'E');
        }
    }
    ok
}

/// Verification runs after a real apply without per-entry errors.
pub fn should_verify(dry_run: bool, errors: u64) -> (r: bool)
    ensures
        r == (!dry_run && errors == 0),
{
    !dry_run && errors == 0
}

/// Why a finished run still fails.
#[derive(Debug, Clone, Copy, PartialEq, Eq, Structural)]
pub enum Failure {
    /// Verification found this many mismatches.
    Mismatches(usize),
    /// This many entries failed.
    EntryErrors(u64),
}

/// How a run ends, once applied (and verified).
#[derive(Debug, Clone, Copy, PartialEq, Eq, Structural)]
pub struct Outcome {
    /// Save the persistent index.
    pub persist_index: bool,
    /// The final status.
    pub status: RunStatus,
    /// Why the run fails, if it does (mismatches first).
    pub failure: Option<Failure>,
}

/// The end of a run: it succeeded when no entry failed and verification
/// found nothing; the index is saved only for a successful real run with the
/// index on whose deletions, if any were asked for, were all confirmed.
pub open spec fn outcome_spec(args: Args, deletions: usize, errors: u64, mismatches: usize) -> Outcome {
    let successful = errors == 0 && mismatches == 0;
    let deletes_complete = !args.delete || args.yes || deletions == 0;
    Outcome {
        persist_index: args.index && !args.dry_run && successful && deletes_complete,
        status: if successful {
            RunStatus::Success
        } else {
            RunStatus::Failed
        },
        failure: if mismatches > 0 {
            Some(Failure::Mismatches(mismatches))
        } else if errors > 0 {
            Some(Failure::EntryErrors(errors))
        } else {
            None
        },
    }
}

/// How a run ends (see [`outcome_spec`]).
pub fn outcome(args: &Args, deletions: usize, errors: u64, mismatches: usize) -> (o: Outcome)
    ensures
        o == outcome_spec(*args, deletions, errors, mismatches),
{
    let successful = errors == 0 && mismatches == 0;
    let deletes_complete = !args.delete || args.yes || deletions == 0;
    Outcome {
        persist_index: args.index && !args.dry_run && successful && deletes_complete,
        status: if successful {
            RunStatus::Success
        } else {
            RunStatus::Failed
        },
        failure: if mismatches > 0 {
            Some(Failure::Mismatches(mismatches))
        } else if errors > 0 {
            Some(Failure::EntryErrors(errors))
        } else {
            None
        },
    }
}

/// A run never records the index after a failure, and a run that saved it
/// ended successfully.
pub proof fn lemma_index_only_after_success(args: Args, deletions: usize, errors: u64, mismatches: usize)
    ensures
        outcome_spec(args, deletions, errors, mismatches).persist_index ==> outcome_spec(
            args,
            deletions,
            errors,
            mismatches,
        ).status == RunStatus::Success,
        outcome_spec(args, deletions, errors, mismatches).status == RunStatus::Success
            <==> outcome_spec(args, deletions, errors, mismatches).failure is None,
        args.dry_run ==> !outcome_spec(args, deletions, errors, mismatches).persist_index,
{
}

/// The process exit code for a failed run: 130 when it was cancelled, 1
/// otherwise.
pub fn exit_code(cancelled: bool) -> (c: i32)
    ensures
        c == (if cancelled {
            130i32
        } else {
            1i32
        }),
{
    if cancelled {
        130
    } else {
        1
    }
}

/// A remote run refuses a dry run, then unconfirmed deletions.
pub fn check_remote_flags(args: &Args) -> (r: Result<(), Refusal>)
    ensures
        args.dry_run ==> r == Err::<(), Refusal>(Refusal::RemoteDryRun),
        !args.dry_run && args.delete && !args.yes ==> r == Err::<(), Refusal>(
            Refusal::RemoteDeleteNeedsYes,
        ),
        !args.dry_run && !(args.delete && !args.yes) ==> r is Ok,
{
    if args.dry_run {
        return Err(Refusal::RemoteDryRun);
    }
    if args.delete && !args.yes {
        return Err(Refusal::RemoteDeleteNeedsYes);
    }
    Ok(())
}

/// The direction of a remote transfer: pull when only the source is remote,
/// push when only the destination is.
pub fn remote_role(src_remote: bool, dst_remote: bool) -> (r: Result<Role, Refusal>)
    ensures
        src_remote && dst_remote ==> r == Err::<Role, Refusal>(Refusal::RemoteToRemote),
        !src_remote && !dst_remote ==> r == Err::<Role, Refusal>(Refusal::BothLocal),
        src_remote && !dst_remote ==> r == Ok::<Role, Refusal>(Role::Pull),
        !src_remote && dst_remote ==> r == Ok::<Role, Refusal>(Role::Push),
{
    if src_remote && dst_remote {
        Err(Refusal::RemoteToRemote)
    } else if !src_remote && !dst_remote {
        Err(Refusal::BothLocal)
    } else if src_remote {
        Ok(Role::Pull)
    } else {
        Ok(Role::Push)
    }
}

/// The transfer options negotiated for a remote run: modes and mtimes are
/// always preserved; the rest comes from the settings.
pub fn remote_options(args: &Args) -> (o: NetOptions)
    ensures
        o == (NetOptions {
            delete: args.delete,
            checksum: args.checksum,
            preserve_mode: true,
            preserve_mtime: true,
            whole_file: args.whole_file,
            compress: args.compress,
            compress_level: args.compress_level,
        }),
{
    NetOptions {
        delete: args.delete,
        checksum: args.checksum,
        preserve_mode: true,
        preserve_mtime: true,
        whole_file: args.whole_file,
        compress: args.compress,
        compress_level: args.compress_level,
    }
}

/// The words of `s`: its maximal runs of non-whitespace, in order (the
/// state is the words so far and the word being read).
pub open spec fn scan_words(s: Seq<char>) -> (Seq<Seq<char>>, Seq<char>)
    decreases s.len(),
{
    if s.len() == 0 {
        (seq![], seq![])
    } else {
        let (ws, cur) = scan_words(s.drop_last());
        if is_whitespace_spec(s.last()) {
            if cur.len() > 0 {
                (ws.push(cur), seq![])
            } else {
                (ws, seq![])
            }
        } else {
            (ws, cur.push(s.last()))
        }
    }
}

/// The words of `s` (`str::split_whitespace`).
pub open spec fn words(s: Seq<char>) -> Seq<Seq<char>> {
    let (ws, cur) = scan_words(s);
    if cur.len() > 0 {
        ws.push(cur)
    } else {
        ws
    }
}

/// Splits `s` into its words (see [`words`]).
pub fn split_words(s: &str) -> (v: Vec<String>)
    ensures
        v@.map_values(|w: String| w@) == words(s@),
{
    let cs = chars_of(s);
    let mut out: Vec<String> = Vec::new();
    let mut start: usize = 0;
    let mut i: usize = 0;
    proof {
        assert(cs@.take(0) =~= Seq::<char>::empty());
        assert(out@.map_values(|w: String| w@) =~= Seq::<Seq<char>>::empty());
        assert(cs@.subrange(0, 0) =~= Seq::<char>::empty());
    }
    while i < cs.len()
        invariant
            start <= i <= cs@.len(),
            out@.map_values(|w: String| w@) == scan_words(cs@.take(i as int)).0,
            cs@.subrange(start as int, i as int) == scan_words(cs@.take(i as int)).1,
        decreases cs@.len() - i,
    {
        proof {
            let t = cs@.take(i + 1);
            assert(t.drop_last() =~= cs@.take(i as int));
            assert(t.last() == cs@[i as int]);
        }
        if is_whitespace(cs[i]) {
            if i > start {
                let w = string_of(cs.as_slice(), start, i);
                let ghost before = out@;
                out.push(w);
                proof {
                    assert(out@.map_values(|w: String| w@) =~= before.map_values(|w: String| w@).push(
                        cs@.subrange(start as int, i as int),
                    ));
                }
            }
            start = i + 1;
            proof {
                assert(cs@.subrange(start as int, i + 1) =~= Seq::<char>::empty());
            }
        } else {
            proof {
                assert(cs@.subrange(start as int, i + 1) =~= cs@.subrange(start as int, i as int).push(
                    cs@[i as int],
                ));
            }
        }
        i += 1;
    }
    proof {
        assert(cs@.take(i as int) =~= cs@);
    }
    if i > start {
        let w = string_of(cs.as_slice(), start, i);
        let ghost before = out@;
        out.push(w);
        proof {
            assert(out@.map_values(|w: String| w@) =~= before.map_values(|w: String| w@).push(
                cs@.subrange(start as int, i as int),
            ));
        }
    }
    out
}

/// The `user@host` (or bare `host`) that ssh is pointed at.
pub open spec fn ssh_target_spec(user: Option<String>, host: Seq<char>) -> Seq<char> {
    match user {
        Some(u) => u@ + seq!['@'] + host,
        None => host,
    }
}

/// The remote-shell command line: the first word of `rsh` is the program,
/// its other words are options, then the target, `ripsync` and `--server`.
/// An `rsh` with no words is refused.
pub fn ssh_command(rsh: &str, user: &Option<String>, host: &str) -> (r: Result<Vec<String>, Refusal>)
    ensures
        words(rsh@).len() == 0 ==> r == Err::<Vec<String>, Refusal>(Refusal::EmptyRsh),
        words(rsh@).len() > 0 ==> (r matches Ok(v) && v@.map_values(|w: String| w@) == words(rsh@)
            + seq![ssh_target_spec(*user, host@), "ripsync"@, "--server"@]),
{
    let mut v = split_words(rsh);
    if v.len() == 0 {
        return Err(Refusal::EmptyRsh);
    }
    let target = match user {
        Some(u) => {
            let mut cs = chars_of(u.as_str());
            cs.push('@');
            let mut hs = chars_of(host);
            cs.append(&mut hs);
            string_of(cs.as_slice(), 0, cs.len())
        },
        None => host.to_owned(),
    };
    proof {
        if user is Some {
            assert(target@ =~= ssh_target_spec(*user, host@));
        }
    }
    let ghost before = v@;
    v.push(target);
    v.push("ripsync".to_owned());
    v.push("--server".to_owned());
    proof {
        assert(v@.map_values(|w: String| w@) =~= before.map_values(|w: String| w@) + seq![
            ssh_target_spec(*user, host@),
            "ripsync"@,
            "--server"@,
        ]);
    }
    Ok(v)
}

/// A remote transfer succeeded when no entry failed.
pub fn remote_status(errors: u64) -> (s: RunStatus)
    ensures
        s == (if errors == 0 {
            RunStatus::Success
        } else {
            RunStatus::Failed
        }),
{
    if errors == 0 {
        RunStatus::Success
    } else {
        RunStatus::Failed
    }
}

/// A watch event matters unless every path it names lies inside an index
/// directory (so a sync does not retrigger itself).
pub open spec fn event_relevant_spec(paths: Seq<String>) -> bool {
    !(forall|i: int|
        0 <= i < paths.len() ==> components(#[trigger] paths[i]@).contains(
            crate::index::RIPSYNC_DIR@,
        ))
}

fn mentions_index_dir(path: &str) -> (r: bool)
    ensures
        r == components(path@).contains(crate::index::RIPSYNC_DIR@),
{
    let comps = crate::paths::components_of(chars_of(path).as_slice());
    let name = chars_of(crate::index::RIPSYNC_DIR);
    let mut i: usize = 0;
    while i < comps.len()
        invariant
            comps@.len() == components(path@).len(),
            forall|j: int| 0 <= j < comps@.len() ==> comps@[j]@ == components(path@)[j],
            name@ == crate::index::RIPSYNC_DIR@,
            i <= comps@.len(),
            forall|j: int| 0 <= j < i ==> components(path@)[j] != crate::index::RIPSYNC_DIR@,
        decreases comps@.len() - i,
    {
        if crate::text::same_chars(comps[i].as_slice(), name.as_slice()) {
            proof {
                assert(components(path@)[i as int] == crate::index::RIPSYNC_DIR@);
            }
            return true;
        }
        i += 1;
    }
    false
}

/// Whether a watch event should trigger a sync (see [`event_relevant_spec`]).
pub fn event_relevant(paths: &Vec<String>) -> (r: bool)
    ensures
        r == event_relevant_spec(paths@),
{
    let mut i: usize = 0;
    while i < paths.len()
        invariant
            i <= paths@.len(),
            forall|j: int|
                0 <= j < i ==> components(#[trigger] paths@[j]@).contains(crate::index::RIPSYNC_DIR@),
        decreases paths@.len() - i,
    {
        if !mentions_index_dir(paths[i].as_str()) {
            return true;
        }
        i += 1;
    }
    false
}

/// The debounce window of a watch, in milliseconds: at least one.
pub fn debounce_window(ms: u64) -> (w: u64)
    ensures
        w == (if ms < 1 {
            1
        } else {
            ms
        }),
{
    if ms < 1 {
        1
    } else {
        ms
    }
}

/// Watching refuses a dry run.
pub fn check_watch_flags(args: &Args) -> (r: Result<(), Refusal>)
    ensures
        args.dry_run ==> r == Err::<(), Refusal>(Refusal::WatchDryRun),
        !args.dry_run ==> r is Ok,
{
    if args.dry_run {
        Err(Refusal::WatchDryRun)
    } else {
        Ok(())
    }
}

} // verus!

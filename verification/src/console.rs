//! What the plain console reporter writes for each event: a line on standard
//! output or standard error, a record for the JSON report, or nothing, as the
//! output format, quietness and verbosity decide.
//!
//! The program writes the lines and assembles the JSON document.

use vstd::prelude::*;

use crate::plan::SyncPlan;
use crate::report::Event;
use crate::text::{push_char, push_text};
use crate::tui::{action_text, action_word};

verus! {

/// The decimal digit for `d` (below ten).
pub open spec fn digit_char(d: nat) -> char {
    if d == 0 {
        '0'
    } else if d == 1 {
        '1'
    } else if d == 2 {
        '2'
    } else if d == 3 {
        '3'
    } else if d == 4 {
        '4'
    } else if d == 5 {
        '5'
    } else if d == 6 {
        '6'
    } else if d == 7 {
        '7'
    } else if d == 8 {
        '8'
    } else {
        '9'
    }
}

/// The decimal digits of `n`, most significant first, without leading
/// zeros (`0` for zero).
pub open spec fn decimal(n: nat) -> Seq<char>
    decreases n,
{
    if n < 10 {
        seq![digit_char(n)]
    } else {
        decimal(n / 10).push(digit_char(n % 10))
    }
}

fn digit(d: u64) -> (c: char)
    requires
        d < 10,
    ensures
        c == digit_char(d as nat),
{
    if d == 0 {
        '0'
    } else if d == 1 {
        '1'
    } else if d == 2 {
        '2'
    } else if d == 3 {
        '3'
    } else if d == 4 {
        '4'
    } else if d == 5 {
        '5'
    } else if d == 6 {
        '6'
    } else if d == 7 {
        '7'
    } else if d == 8 {
        '8'
    } else {
        '9'
    }
}

/// Appends the decimal digits of `n`.
pub fn push_decimal(s: &mut String, n: u64)
    ensures
        final(s)@ == old(s)@ + decimal(n as nat),
    decreases n,
{
    let ghost start = s@;
    if n >= 10 {
        push_decimal(s, n / 10);
    }
    push_char(s, digit(n % 10));
    proof {
        if n >= 10 {
            assert(decimal(n as nat) == decimal((n / 10) as nat).push(digit_char((n % 10) as nat)));
            assert(start + decimal(n as nat) =~= (start + decimal((n / 10) as nat)).push(
                digit_char((n % 10) as nat),
            ));
        } else {
            assert(decimal(n as nat) == seq![digit_char(n as nat)]);
            assert(start + decimal(n as nat) =~= start.push(digit_char((n % 10) as nat)));
        }
    }
}

/// `s` padded with spaces on the right to at least `width` characters.
pub open spec fn padded(s: Seq<char>, width: nat) -> Seq<char> {
    if s.len() < width {
        s + Seq::new((width - s.len()) as nat, |i: int| ' ')
    } else {
        s
    }
}

/// Appends `t` padded with spaces to at least `width` characters.
fn push_padded(s: &mut String, t: &str, width: usize)
    ensures
        final(s)@ == old(s)@ + padded(t@, width as nat),
{
    let ghost start = s@;
    push_text(s, t);
    let n = crate::text::chars_of(t).len();
    let mut k: usize = n;
    while k < width
        invariant
            n == t@.len(),
            k >= n,
            n < width ==> k <= width,
            n >= width ==> k == n,
            s@ == start + t@ + Seq::new((k - n) as nat, |i: int| ' '),
        decreases width - k,
    {
        push_char(s, ' ');
        proof {
            assert(Seq::new((k - n) as nat, |i: int| ' ').push(' ') =~= Seq::new(
                (k + 1 - n) as nat,
                |i: int| ' ',
            ));
        }
        k += 1;
    }
    proof {
        if t@.len() < width {
            assert(k == width);
        } else {
            assert(Seq::new((k - n) as nat, |i: int| ' ') =~= Seq::<char>::empty());
        }
    }
}

/// The extra field of a JSON record.
#[derive(Debug, Clone, PartialEq, Eq)]
pub enum RecordExtra {
    /// No extra field.
    Nothing,
    /// `"bytes"`: the bytes written.
    Bytes(u64),
    /// `"error"`: the error text.
    Error(String),
    /// `"detail"`: what verification found.
    Detail(String),
}

/// The extra field as values.
pub enum ExtraView {
    Nothing,
    Bytes(u64),
    Error(Seq<char>),
    Detail(Seq<char>),
}

impl View for RecordExtra {
    type V = ExtraView;

    open spec fn view(&self) -> ExtraView {
        match self {
            RecordExtra::Nothing => ExtraView::Nothing,
            RecordExtra::Bytes(n) => ExtraView::Bytes(*n),
            RecordExtra::Error(e) => ExtraView::Error(e@),
            RecordExtra::Detail(d) => ExtraView::Detail(d@),
        }
    }
}

/// What the console reporter does with one event.
#[derive(Debug, Clone, PartialEq, Eq)]
pub enum Output {
    /// Nothing is written.
    Nothing,
    /// A line on standard output.
    Stdout(String),
    /// A line on standard error.
    Stderr(String),
    /// A record for the JSON report.
    Record {
        /// The `"event"` field.
        event: String,
        /// The `"path"` field.
        path: String,
        /// The extra field, if any.
        extra: RecordExtra,
    },
}

/// The reporter's output as values.
pub enum OutputView {
    Nothing,
    Stdout(Seq<char>),
    Stderr(Seq<char>),
    Record { event: Seq<char>, path: Seq<char>, extra: ExtraView },
}

impl View for Output {
    type V = OutputView;

    open spec fn view(&self) -> OutputView {
        match self {
            Output::Nothing => OutputView::Nothing,
            Output::Stdout(l) => OutputView::Stdout(l@),
            Output::Stderr(l) => OutputView::Stderr(l@),
            Output::Record { event, path, extra } => OutputView::Record {
                event: event@,
                path: path@,
                extra: extra@,
            },
        }
    }
}

/// How the console reporter is set up.
#[derive(Debug, Clone, Copy, PartialEq, Eq, Structural)]
pub struct ConsoleMode {
    /// JSON output (else plain lines).
    pub json: bool,
    /// `--quiet`.
    pub quiet: bool,
    /// `-v` count.
    pub verbose: u8,
    /// A dry run (plain output lines get the `[dry] ` prefix).
    pub dry_run: bool,
}

/// A plain output line, with the dry-run prefix where it applies.
pub open spec fn stdout_line(m: ConsoleMode, msg: Seq<char>) -> OutputView {
    OutputView::Stdout(
        if m.dry_run {
            "[dry] "@ + msg
        } else {
            msg
        },
    )
}

/// A JSON record without an extra field.
pub open spec fn plain_record(event: Seq<char>, path: Seq<char>) -> OutputView {
    OutputView::Record { event, path, extra: ExtraView::Nothing }
}

/// What the console reporter writes for an event. In JSON mode every
/// per-entry event becomes a record; otherwise written files, symlinks and
/// deletions are listed unless quiet, directories with `-v`, skipped entries
/// with `-vv`, and failures and verification findings always go to standard
/// error. Lifecycle events write nothing.
pub open spec fn console_output(m: ConsoleMode, ev: Event) -> OutputView {
    match ev {
        Event::FileDone { rel, action, bytes } => if m.json {
            OutputView::Record {
                event: action_text(action),
                path: rel@,
                extra: ExtraView::Bytes(bytes),
            }
        } else if !m.quiet {
            stdout_line(
                m,
                padded(action_text(action), 7) + rel@ + " ("@ + decimal(bytes as nat) + " B)"@,
            )
        } else {
            OutputView::Nothing
        },
        Event::DirDone { rel, action } => if m.json {
            plain_record("mkdir"@, rel@)
        } else if !m.quiet && m.verbose >= 1 {
            stdout_line(m, padded(action_text(action), 7) + rel@ + "/"@)
        } else {
            OutputView::Nothing
        },
        Event::SymlinkDone { rel, action } => if m.json {
            plain_record("symlink"@, rel@)
        } else if !m.quiet {
            stdout_line(m, padded(action_text(action), 7) + rel@ + " (symlink)"@)
        } else {
            OutputView::Nothing
        },
        Event::Skipped { rel } => if m.json {
            plain_record("skip"@, rel@)
        } else if !m.quiet && m.verbose >= 2 {
            stdout_line(m, padded("skip"@, 7) + rel@)
        } else {
            OutputView::Nothing
        },
        Event::Deleted { rel } => if m.json {
            plain_record("delete"@, rel@)
        } else if !m.quiet {
            stdout_line(m, "\x1b[31m"@ + padded("delete"@, 7) + rel@ + "\x1b[0m"@)
        } else {
            OutputView::Nothing
        },
        Event::Failed { rel, error } => if m.json {
            OutputView::Record { event: "error"@, path: rel@, extra: ExtraView::Error(error@) }
        } else {
            OutputView::Stderr("\x1b[31merror\x1b[0m  "@ + rel@ + ": "@ + error@)
        },
        Event::VerificationFailed { rel, detail } => if m.json {
            OutputView::Record {
                event: "verification_error"@,
                path: rel@,
                extra: ExtraView::Detail(detail@),
            }
        } else {
            OutputView::Stderr("verify  "@ + rel@ + ": "@ + detail@)
        },
        _ => OutputView::Nothing,
    }
}

/// A plain output line, with the dry-run prefix where it applies.
fn to_stdout(m: &ConsoleMode, msg: String) -> (o: Output)
    ensures
        o@ == stdout_line(*m, msg@),
{
    if m.dry_run {
        let mut line = "[dry] ".to_owned();
        push_text(&mut line, msg.as_str());
        Output::Stdout(line)
    } else {
        Output::Stdout(msg)
    }
}

/// What the console reporter writes for `ev` (see [`console_output`]).
pub fn console_output_of(m: &ConsoleMode, ev: Event) -> (o: Output)
    ensures
        o@ == console_output(*m, ev),
{
    match ev {
        Event::FileDone { rel, action, bytes } => {
            if m.json {
                Output::Record {
                    event: action_word(action).to_owned(),
                    path: rel,
                    extra: RecordExtra::Bytes(bytes),
                }
            } else if !m.quiet {
                let mut line = String::new();
                push_padded(&mut line, action_word(action), 7);
                push_text(&mut line, rel.as_str());
                push_text(&mut line, " (");
                push_decimal(&mut line, bytes);
                push_text(&mut line, " B)");
                proof {
                    assert(line@ =~= padded(action_text(action), 7) + rel@ + " ("@ + decimal(
                        bytes as nat,
                    ) + " B)"@);
                }
                to_stdout(m, line)
            } else {
                Output::Nothing
            }
        },
        Event::DirDone { rel, action } => {
            if m.json {
                Output::Record { event: "mkdir".to_owned(), path: rel, extra: RecordExtra::Nothing }
            } else if !m.quiet && m.verbose >= 1 {
                let mut line = String::new();
                push_padded(&mut line, action_word(action), 7);
                push_text(&mut line, rel.as_str());
                push_text(&mut line, "/");
                proof {
                    assert(line@ =~= padded(action_text(action), 7) + rel@ + "/"@);
                }
                to_stdout(m, line)
            } else {
                Output::Nothing
            }
        },
        Event::SymlinkDone { rel, action } => {
            if m.json {
                Output::Record {
                    event: "symlink".to_owned(),
                    path: rel,
                    extra: RecordExtra::Nothing,
                }
            } else if !m.quiet {
                let mut line = String::new();
                push_padded(&mut line, action_word(action), 7);
                push_text(&mut line, rel.as_str());
                push_text(&mut line, " (symlink)");
                proof {
                    assert(line@ =~= padded(action_text(action), 7) + rel@ + " (symlink)"@);
                }
                to_stdout(m, line)
            } else {
                Output::Nothing
            }
        },
        Event::Skipped { rel } => {
            if m.json {
                Output::Record { event: "skip".to_owned(), path: rel, extra: RecordExtra::Nothing }
            } else if !m.quiet && m.verbose >= 2 {
                let mut line = String::new();
                push_padded(&mut line, "skip", 7);
                push_text(&mut line, rel.as_str());
                proof {
                    assert(line@ =~= padded("skip"@, 7) + rel@);
                }
                to_stdout(m, line)
            } else {
                Output::Nothing
            }
        },
        Event::Deleted { rel } => {
            if m.json {
                Output::Record { event: "delete".to_owned(), path: rel, extra: RecordExtra::Nothing }
            } else if !m.quiet {
                let mut line = "\x1b[31m".to_owned();
                push_padded(&mut line, "delete", 7);
                push_text(&mut line, rel.as_str());
                push_text(&mut line, "\x1b[0m");
                proof {
                    assert(line@ =~= "\x1b[31m"@ + padded("delete"@, 7) + rel@ + "\x1b[0m"@);
                }
                to_stdout(m, line)
            } else {
                Output::Nothing
            }
        },
        Event::Failed { rel, error } => {
            if m.json {
                Output::Record { event: "error".to_owned(), path: rel, extra: RecordExtra::Error(error) }
            } else {
                let mut line = "\x1b[31merror\x1b[0m  ".to_owned();
                push_text(&mut line, rel.as_str());
                push_text(&mut line, ": ");
                push_text(&mut line, error.as_str());
                proof {
                    assert(line@ =~= "\x1b[31merror\x1b[0m  "@ + rel@ + ": "@ + error@);
                }
                Output::Stderr(line)
            }
        },
        Event::VerificationFailed { rel, detail } => {
            if m.json {
                Output::Record {
                    event: "verification_error".to_owned(),
                    path: rel,
                    extra: RecordExtra::Detail(detail),
                }
            } else {
                let mut line = "verify  ".to_owned();
                push_text(&mut line, rel.as_str());
                push_text(&mut line, ": ");
                push_text(&mut line, detail.as_str());
                proof {
                    assert(line@ =~= "verify  "@ + rel@ + ": "@ + detail@);
                }
                Output::Stderr(line)
            }
        },
        _ => Output::Nothing,
    }
}

/// The lines of the deletion preview shown before applying: nothing when
/// there are no deletions, in JSON mode or when quiet; otherwise a blank
/// line and the red heading `TO DELETE (n):`, one line per deleted path, and
/// a closing blank line.
pub open spec fn preview_lines(deletions: Seq<crate::plan::Deletion>, json: bool, quiet: bool) -> Seq<
    Seq<char>,
> {
    if deletions.len() == 0 || json || quiet {
        seq![]
    } else {
        seq![Seq::empty(), "\x1b[1;31mTO DELETE ("@ + decimal(deletions.len()) + "):\x1b[0m"@]
            + deletions.map_values(
            |d: crate::plan::Deletion| "  \x1b[31m- "@ + d.rel@ + "\x1b[0m"@,
        ) + seq![Seq::empty()]
    }
}

/// The deletion preview's lines (see [`preview_lines`]).
pub fn delete_preview(plan: &SyncPlan, json: bool, quiet: bool) -> (v: Vec<String>)
    ensures
        v@.map_values(|s: String| s@) == preview_lines(plan.deletions@, json, quiet),
{
    let mut out: Vec<String> = Vec::new();
    if plan.deletions.len() == 0 || json || quiet {
        proof {
            assert(out@.map_values(|s: String| s@) =~= Seq::<Seq<char>>::empty());
        }
        return out;
    }
    let mut heading = "\x1b[1;31mTO DELETE (".to_owned();
    push_decimal(&mut heading, plan.deletions.len() as u64);
    push_text(&mut heading, "):\x1b[0m");
    out.push(String::new());
    out.push(heading);
    let ghost head = out@.map_values(|s: String| s@);
    let mut i: usize = 0;
    while i < plan.deletions.len()
        invariant
            i <= plan.deletions@.len(),
            out@.len() == 2 + i,
            out@.take(2).map_values(|s: String| s@) == head,
            forall|j: int|
                0 <= j < i ==> #[trigger] out@[2 + j]@ == "  \x1b[31m- "@ + plan.deletions@[j].rel@
                    + "\x1b[0m"@,
        decreases plan.deletions@.len() - i,
    {
        let mut line = "  \x1b[31m- ".to_owned();
        push_text(&mut line, plan.deletions[i].rel.as_str());
        push_text(&mut line, "\x1b[0m");
        let ghost prev = out@;
        out.push(line);
        proof {
            assert(out@.take(2) =~= prev.take(2));
        }
        i += 1;
    }
    out.push(String::new());
    proof {
        let want = preview_lines(plan.deletions@, json, quiet);
        let got = out@.map_values(|s: String| s@);
        assert(head =~= seq![Seq::<char>::empty(), "\x1b[1;31mTO DELETE ("@ + decimal(
            plan.deletions@.len(),
        ) + "):\x1b[0m"@]);
        assert(got.len() == want.len());
        assert forall|j: int| 0 <= j < got.len() implies got[j] == want[j] by {
            if j < 2 {
                assert(got[j] == out@.take(2).map_values(|s: String| s@)[j]);
            } else if j < 2 + plan.deletions@.len() {
                assert(out@[2 + (j - 2)]@ == "  \x1b[31m- "@ + plan.deletions@[j - 2].rel@
                    + "\x1b[0m"@);
            }
        }
        assert(got =~= want);
    }
    out
}

} // verus!

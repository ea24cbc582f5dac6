//! The live dashboard's state: what it shows of a run as the run's events
//! arrive, and the keyboard state machine that pauses, cancels and approves
//! deletions.
//!
//! Drawing the dashboard and reading the keyboard happen in the program; it
//! hands each event and each key press to the functions here.

use std::collections::VecDeque;

use vstd::prelude::*;

use crate::plan::{Action, SyncPlan};
use crate::report::{final_phase, Event, RunPhase};
use crate::text::{chars_of, push_text, same_chars, starts_with_text, string_of};

verus! {

broadcast use vstd::std_specs::vecdeque::group_vec_dequeue_axioms;

/// The most lines the event log keeps; older lines fall off the front.
pub const LOG_CAP: usize = 4000;

/// The category of an event-log line.
#[derive(Debug, Clone, Copy, PartialEq, Eq, Structural)]
pub enum LogKind {
    /// A file, directory or symlink was written or found current.
    Activity,
    /// An entry was deleted.
    Delete,
    /// An entry failed.
    Error,
    /// Verification found a difference.
    Verify,
}

/// One line of the event log.
#[derive(Debug, Clone)]
pub struct LogLine {
    /// Its category.
    pub kind: LogKind,
    /// Its text.
    pub text: String,
}

/// What the dashboard shows of a run.
pub struct TuiState {
    /// The current lifecycle phase.
    pub phase: RunPhase,
    /// The selected copy backend (`pending` until one is chosen).
    pub backend: String,
    /// Why that backend was chosen.
    pub backend_reason: String,
    /// Entries seen so far while planning.
    pub planning_entries: usize,
    /// Files the plan copies or updates.
    pub total_files: usize,
    /// Bytes the plan transfers.
    pub total_bytes: u64,
    /// Files finished so far.
    pub files_done: u64,
    /// Bytes finished so far.
    pub bytes_done: u64,
    /// Entries copied.
    pub copied: u64,
    /// Entries updated.
    pub updated: u64,
    /// Entries deleted.
    pub deleted: u64,
    /// Entries skipped.
    pub skipped: u64,
    /// Entries that failed.
    pub errors: u64,
    /// Entries verified so far.
    pub verify_checked: usize,
    /// Entries to verify.
    pub verify_total: usize,
    /// Mismatches found so far.
    pub verify_errors: usize,
    /// Labels of the files in flight (`path (size)`).
    pub active: Vec<String>,
    /// The paths the plan deletes.
    pub deletions: Vec<String>,
    /// The event log, oldest first, at most [`LOG_CAP`] lines.
    pub log: VecDeque<LogLine>,
    /// The run has ended.
    pub finished: bool,
}

/// The dashboard state as values.
pub struct TuiView {
    pub phase: RunPhase,
    pub backend: Seq<char>,
    pub backend_reason: Seq<char>,
    pub planning_entries: usize,
    pub total_files: usize,
    pub total_bytes: u64,
    pub files_done: u64,
    pub bytes_done: u64,
    pub copied: u64,
    pub updated: u64,
    pub deleted: u64,
    pub skipped: u64,
    pub errors: u64,
    pub verify_checked: usize,
    pub verify_total: usize,
    pub verify_errors: usize,
    pub active: Seq<Seq<char>>,
    pub deletions: Seq<Seq<char>>,
    pub log: Seq<(LogKind, Seq<char>)>,
    pub finished: bool,
}

/// The texts of a list of strings.
pub open spec fn texts(v: Seq<String>) -> Seq<Seq<char>> {
    v.map_values(|s: String| s@)
}

/// The lines of a log as values.
pub open spec fn log_lines(v: Seq<LogLine>) -> Seq<(LogKind, Seq<char>)> {
    v.map_values(|l: LogLine| (l.kind, l.text@))
}

impl View for TuiState {
    type V = TuiView;

    open spec fn view(&self) -> TuiView {
        TuiView {
            phase: self.phase,
            backend: self.backend@,
            backend_reason: self.backend_reason@,
            planning_entries: self.planning_entries,
            total_files: self.total_files,
            total_bytes: self.total_bytes,
            files_done: self.files_done,
            bytes_done: self.bytes_done,
            copied: self.copied,
            updated: self.updated,
            deleted: self.deleted,
            skipped: self.skipped,
            errors: self.errors,
            verify_checked: self.verify_checked,
            verify_total: self.verify_total,
            verify_errors: self.verify_errors,
            active: texts(self.active@),
            deletions: texts(self.deletions@),
            log: log_lines(self.log@),
            finished: self.finished,
        }
    }
}

/// The word for an action.
pub open spec fn action_text(action: Action) -> Seq<char> {
    match action {
        Action::Copy => "copy"@,
        Action::Update => "update"@,
        Action::Skip => "skip"@,
    }
}

/// The word for an action.
pub fn action_word(action: Action) -> (s: &'static str)
    ensures
        s@ == action_text(action),
{
    match action {
        Action::Copy => "copy",
        Action::Update => "update",
        Action::Skip => "skip",
    }
}

/// The log after appending a line: when the log is full the oldest line
/// falls off first.
pub open spec fn log_push(log: Seq<(LogKind, Seq<char>)>, kind: LogKind, text: Seq<char>) -> Seq<
    (LogKind, Seq<char>),
> {
    if log.len() == LOG_CAP {
        log.drop_first().push((kind, text))
    } else {
        log.push((kind, text))
    }
}

/// Whether `label` is the label of a file in flight at `rel`: `rel`, then
/// `" ("`, then a rendered size (which holds no `(`), then the rest of the
/// label. The path part is everything before the label's last `" ("`, so it
/// must equal `rel` exactly, not merely start with it.
pub open spec fn label_of(label: Seq<char>, rel: Seq<char>) -> bool {
    &&& rel.len() + 2 <= label.len()
    &&& label.take(rel.len() as int) == rel
    &&& label[rel.len() as int] == ' '
    &&& label[rel.len() + 1int] == '('
    &&& forall|j: int| rel.len() + 2 <= j < label.len() ==> #[trigger] label[j] != '('
}

/// Index of the first label of a file in flight at `rel`, or `labels.len()`
/// when there is none.
pub open spec fn first_label_of(labels: Seq<Seq<char>>, rel: Seq<char>) -> int
    decreases labels.len(),
{
    if labels.len() == 0 {
        0
    } else if label_of(labels[0], rel) {
        0
    } else {
        1 + first_label_of(labels.drop_first(), rel)
    }
}

/// The files in flight once `rel` is done: the first label of `rel` is
/// replaced by the last one, which is dropped; the other transfers stay.
pub open spec fn finish_active(labels: Seq<Seq<char>>, rel: Seq<char>) -> Seq<Seq<char>> {
    let i = first_label_of(labels, rel);
    if i < labels.len() {
        labels.update(i, labels.last()).drop_last()
    } else {
        labels
    }
}

/// Whether `label` is the label of a file in flight at `rel` (see
/// [`label_of`]).
fn is_label_of(label: &str, rel: &str) -> (r: bool)
    ensures
        r == label_of(label@, rel@),
{
    if !starts_with_text(label, rel) {
        return false;
    }
    let a = chars_of(label);
    let n = chars_of(rel).len();
    if a.len() - n < 2 {
        return false;
    }
    if a[n] != ' ' || a[n + 1] != '(' {
        return false;
    }
    let mut j: usize = n + 2;
    while j < a.len()
        invariant
            a@ == label@,
            n == rel@.len(),
            n + 2 <= j <= a@.len(),
            forall|k: int| n + 2 <= k < j ==> a@[k] != '(',
        decreases a@.len() - j,
    {
        if a[j] == '(' {
            return false;
        }
        j += 1;
    }
    true
}

/// The label of a file in flight: its path and, in brackets, its size as the
/// program renders it.
pub open spec fn active_label(rel: Seq<char>, size: Seq<char>) -> Seq<char> {
    rel + " ("@ + size + ")"@
}

/// The counters after one entry finished with `action`.
pub open spec fn count_action(v: TuiView, action: Action) -> TuiView {
    match action {
        Action::Copy => TuiView { copied: (v.copied + 1) as u64, ..v },
        Action::Update => TuiView { updated: (v.updated + 1) as u64, ..v },
        Action::Skip => TuiView { skipped: (v.skipped + 1) as u64, ..v },
    }
}

/// The counter `action` increments has room.
pub open spec fn action_fits(v: TuiView, action: Action) -> bool {
    match action {
        Action::Copy => v.copied < u64::MAX,
        Action::Update => v.updated < u64::MAX,
        Action::Skip => v.skipped < u64::MAX,
    }
}

/// None of the counters an event increments would overflow.
pub open spec fn event_fits(v: TuiView, ev: Event) -> bool {
    match ev {
        Event::FileDone { action, bytes, .. } => v.files_done < u64::MAX && v.bytes_done + bytes
            <= u64::MAX && action_fits(v, action),
        Event::DirDone { action, .. } => action_fits(v, action),
        Event::SymlinkDone { action, .. } => action_fits(v, action),
        Event::Skipped { .. } => v.skipped < u64::MAX,
        Event::Deleted { .. } => v.deleted < u64::MAX,
        Event::Failed { .. } => v.errors < u64::MAX,
        _ => true,
    }
}

/// The dashboard after one event. `size` is the program's rendering of the
/// event's byte count (the length of a started file, the bytes of a
/// finished one); other events ignore it.
pub open spec fn next_view(v: TuiView, ev: Event, size: Seq<char>) -> TuiView {
    match ev {
        Event::Phase(phase) => TuiView { phase, ..v },
        Event::PlanningProgress { entries } => TuiView { planning_entries: entries, ..v },
        Event::BackendSelected { backend, reason } => TuiView {
            backend: backend@,
            backend_reason: reason@,
            ..v
        },
        Event::Planned { total_files, total_bytes, .. } => TuiView { total_files, total_bytes, ..v },
        Event::FileStart { rel, .. } => TuiView {
            active: v.active.push(active_label(rel@, size)),
            ..v
        },
        Event::FileDone { rel, action, bytes } => {
            let counted = count_action(v, action);
            TuiView {
                active: finish_active(v.active, rel@),
                files_done: (v.files_done + 1) as u64,
                bytes_done: (v.bytes_done + bytes) as u64,
                log: log_push(
                    v.log,
                    LogKind::Activity,
                    action_text(action) + " "@ + rel@ + " ("@ + size + ")"@,
                ),
                ..counted
            }
        },
        Event::DirDone { rel, action } => {
            let counted = count_action(v, action);
            TuiView {
                log: log_push(v.log, LogKind::Activity, action_text(action) + " "@ + rel@),
                ..counted
            }
        },
        Event::SymlinkDone { rel, action } => {
            let counted = count_action(v, action);
            TuiView {
                log: log_push(v.log, LogKind::Activity, action_text(action) + " "@ + rel@),
                ..counted
            }
        },
        Event::Skipped { .. } => TuiView { skipped: (v.skipped + 1) as u64, ..v },
        Event::Deleted { rel } => TuiView {
            deleted: (v.deleted + 1) as u64,
            log: log_push(v.log, LogKind::Delete, "delete "@ + rel@),
            ..v
        },
        Event::Failed { rel, error } => TuiView {
            errors: (v.errors + 1) as u64,
            log: log_push(v.log, LogKind::Error, rel@ + ": "@ + error@),
            ..v
        },
        Event::VerificationProgress { checked, total, mismatches } => TuiView {
            verify_checked: checked,
            verify_total: total,
            verify_errors: mismatches,
            ..v
        },
        Event::VerificationFailed { rel, detail } => TuiView {
            log: log_push(v.log, LogKind::Verify, rel@ + ": "@ + detail@),
            ..v
        },
        Event::Finished { status } => TuiView { finished: true, phase: final_phase_spec(status), ..v },
    }
}

/// The phase a run ends in for each final status (see [`final_phase`]).
pub open spec fn final_phase_spec(status: crate::report::RunStatus) -> RunPhase {
    match status {
        crate::report::RunStatus::Success => RunPhase::Done,
        crate::report::RunStatus::Cancelled => RunPhase::Cancelled,
        crate::report::RunStatus::Failed => RunPhase::Failed,
    }
}

proof fn lemma_first_label_of(labels: Seq<Seq<char>>, rel: Seq<char>)
    ensures
        0 <= first_label_of(labels, rel) <= labels.len(),
        first_label_of(labels, rel) < labels.len() ==> label_of(
            labels[first_label_of(labels, rel)],
            rel,
        ),
        forall|j: int| 0 <= j < first_label_of(labels, rel) ==> !label_of(#[trigger] labels[j], rel),
    decreases labels.len(),
{
    if labels.len() > 0 && !label_of(labels[0], rel) {
        lemma_first_label_of(labels.drop_first(), rel);
        assert forall|j: int| 0 <= j < first_label_of(labels, rel) implies !label_of(
            #[trigger] labels[j],
            rel,
        ) by {
            if j > 0 {
                assert(labels[j] == labels.drop_first()[j - 1]);
            }
        }
    }
}

impl TuiState {
    /// The state before a run: planning, backend `pending`, nothing counted.
    pub fn new() -> (s: TuiState)
        ensures
            s@ == (TuiView {
                phase: RunPhase::Planning,
                backend: "pending"@,
                backend_reason: Seq::empty(),
                planning_entries: 0,
                total_files: 0,
                total_bytes: 0,
                files_done: 0,
                bytes_done: 0,
                copied: 0,
                updated: 0,
                deleted: 0,
                skipped: 0,
                errors: 0,
                verify_checked: 0,
                verify_total: 0,
                verify_errors: 0,
                active: Seq::empty(),
                deletions: Seq::empty(),
                log: Seq::empty(),
                finished: false,
            }),
    {
        let s = TuiState {
            phase: RunPhase::Planning,
            backend: "pending".to_owned(),
            backend_reason: String::new(),
            planning_entries: 0,
            total_files: 0,
            total_bytes: 0,
            files_done: 0,
            bytes_done: 0,
            copied: 0,
            updated: 0,
            deleted: 0,
            skipped: 0,
            errors: 0,
            verify_checked: 0,
            verify_total: 0,
            verify_errors: 0,
            active: Vec::new(),
            deletions: Vec::new(),
            log: VecDeque::new(),
            finished: false,
        };
        proof {
            assert(texts(s.active@) =~= Seq::<Seq<char>>::empty());
            assert(texts(s.deletions@) =~= Seq::<Seq<char>>::empty());
            assert(log_lines(s.log@) =~= Seq::<(LogKind, Seq<char>)>::empty());
        }
        s
    }

    /// Appends a line to the event log, dropping the oldest when it is full.
    fn log_line(&mut self, kind: LogKind, text: String)
        ensures
            final(self)@ == (TuiView { log: log_push(old(self)@.log, kind, text@), ..old(self)@ }),
    {
        let ghost before = self.log@;
        if self.log.len() == LOG_CAP {
            let _ = self.log.pop_front();
            proof {
                assert(log_lines(self.log@) =~= log_lines(before).drop_first());
            }
        }
        let ghost mid = self.log@;
        self.log.push_back(LogLine { kind, text });
        proof {
            assert(log_lines(self.log@) =~= log_lines(mid).push((kind, text@)));
        }
    }

    /// Counts an entry finished with `action`.
    fn count(&mut self, action: Action)
        requires
            action_fits(old(self)@, action),
        ensures
            final(self)@ == count_action(old(self)@, action),
    {
        match action {
            Action::Copy => self.copied = self.copied + 1,
            Action::Update => self.updated = self.updated + 1,
            Action::Skip => self.skipped = self.skipped + 1,
        }
    }

    /// Whether the counter `action` increments has room.
    fn action_room(&self, action: Action) -> (b: bool)
        ensures
            b == action_fits(self@, action),
    {
        match action {
            Action::Copy => self.copied < u64::MAX,
            Action::Update => self.updated < u64::MAX,
            Action::Skip => self.skipped < u64::MAX,
        }
    }

    /// Whether the counters `ev` increments have room (see [`event_fits`]).
    pub fn fits(&self, ev: &Event) -> (r: bool)
        ensures
            r == event_fits(self@, *ev),
    {
        match ev {
            Event::FileDone { action, bytes, .. } => self.files_done < u64::MAX && *bytes
                <= u64::MAX - self.bytes_done && self.action_room(*action),
            Event::DirDone { action, .. } => self.action_room(*action),
            Event::SymlinkDone { action, .. } => self.action_room(*action),
            Event::Skipped { .. } => self.skipped < u64::MAX,
            Event::Deleted { .. } => self.deleted < u64::MAX,
            Event::Failed { .. } => self.errors < u64::MAX,
            _ => true,
        }
    }

    /// Updates the dashboard with one event (see [`next_view`]). `size` is
    /// the program's rendering of the event's byte count.
    pub fn apply_event(&mut self, ev: Event, size: &str)
        requires
            event_fits(old(self)@, ev),
        ensures
            final(self)@ == next_view(old(self)@, ev, size@),
    {
        match ev {
            Event::Phase(phase) => {
                self.phase = phase;
            },
            Event::PlanningProgress { entries } => {
                self.planning_entries = entries;
            },
            Event::BackendSelected { backend, reason } => {
                self.backend = backend;
                self.backend_reason = reason;
            },
            Event::Planned { total_files, total_bytes, .. } => {
                self.total_files = total_files;
                self.total_bytes = total_bytes;
            },
            Event::FileStart { rel, .. } => {
                let mut label = rel;
                push_text(&mut label, " (");
                push_text(&mut label, size);
                push_text(&mut label, ")");
                let ghost before = self.active@;
                self.active.push(label);
                proof {
                    assert(texts(self.active@) =~= texts(before).push(label@));
                }
            },
            Event::FileDone { rel, action, bytes } => {
                self.finish_file(rel.as_str());
                self.files_done = self.files_done + 1;
                self.bytes_done = self.bytes_done + bytes;
                self.count(action);
                let mut text = action_word(action).to_owned();
                push_text(&mut text, " ");
                push_text(&mut text, rel.as_str());
                push_text(&mut text, " (");
                push_text(&mut text, size);
                push_text(&mut text, ")");
                self.log_line(LogKind::Activity, text);
            },
            Event::DirDone { rel, action } => {
                self.count(action);
                let mut text = action_word(action).to_owned();
                push_text(&mut text, " ");
                push_text(&mut text, rel.as_str());
                self.log_line(LogKind::Activity, text);
            },
            Event::SymlinkDone { rel, action } => {
                self.count(action);
                let mut text = action_word(action).to_owned();
                push_text(&mut text, " ");
                push_text(&mut text, rel.as_str());
                self.log_line(LogKind::Activity, text);
            },
            Event::Skipped { .. } => {
                self.skipped = self.skipped + 1;
            },
            Event::Deleted { rel } => {
                self.deleted = self.deleted + 1;
                let mut text = "delete ".to_owned();
                push_text(&mut text, rel.as_str());
                self.log_line(LogKind::Delete, text);
            },
            Event::Failed { rel, error } => {
                self.errors = self.errors + 1;
                let mut text = rel;
                push_text(&mut text, ": ");
                push_text(&mut text, error.as_str());
                self.log_line(LogKind::Error, text);
            },
            Event::VerificationProgress { checked, total, mismatches } => {
                self.verify_checked = checked;
                self.verify_total = total;
                self.verify_errors = mismatches;
            },
            Event::VerificationFailed { rel, detail } => {
                let mut text = rel;
                push_text(&mut text, ": ");
                push_text(&mut text, detail.as_str());
                self.log_line(LogKind::Verify, text);
            },
            Event::Finished { status } => {
                self.finished = true;
                self.phase = final_phase(status);
            },
        }
    }

    /// Drops the label of a finished file from the files in flight (see
    /// [`finish_active`]).
    fn finish_file(&mut self, rel: &str)
        ensures
            final(self)@ == (TuiView { active: finish_active(old(self)@.active, rel@), ..old(self)@ }),
    {
        let ghost labels = texts(self.active@);
        proof {
            lemma_first_label_of(labels, rel@);
        }
        let mut i: usize = 0;
        while i < self.active.len()
            invariant
                *self == *old(self),
                i <= self.active@.len(),
                labels == texts(self.active@),
                forall|j: int| 0 <= j < i ==> !label_of(#[trigger] labels[j], rel@),
                0 <= first_label_of(labels, rel@) <= labels.len(),
                first_label_of(labels, rel@) < labels.len() ==> label_of(
                    labels[first_label_of(labels, rel@)],
                    rel@,
                ),
                forall|j: int|
                    0 <= j < first_label_of(labels, rel@) ==> !label_of(#[trigger] labels[j], rel@),
            decreases self.active@.len() - i,
        {
            if is_label_of(self.active[i].as_str(), rel) {
                proof {
                    assert(labels[i as int] == self.active@[i as int]@);
                    assert(first_label_of(labels, rel@) == i);
                }
                let _ = self.active.swap_remove(i);
                proof {
                    assert(texts(self.active@) =~= labels.update(i as int, labels.last()).drop_last());
                }
                return;
            }
            proof {
                assert(labels[i as int] == self.active@[i as int]@);
            }
            i += 1;
        }
        proof {
            assert(first_label_of(labels, rel@) == labels.len());
        }
    }

    /// Records the paths the plan deletes, for the review screen.
    pub fn set_deletions(&mut self, plan: &SyncPlan)
        ensures
            final(self)@ == (TuiView {
                deletions: plan.deletions@.map_values(|d: crate::plan::Deletion| d.rel@),
                ..old(self)@
            }),
    {
        let mut out: Vec<String> = Vec::new();
        let mut i: usize = 0;
        while i < plan.deletions.len()
            invariant
                i <= plan.deletions@.len(),
                texts(out@) == plan.deletions@.take(i as int).map_values(
                    |d: crate::plan::Deletion| d.rel@,
                ),
            decreases plan.deletions@.len() - i,
        {
            let ghost prev = out@;
            out.push(plan.deletions[i].rel.clone());
            proof {
                assert(texts(out@) =~= texts(prev).push(plan.deletions@[i as int].rel@));
                assert(plan.deletions@.take(i + 1).map_values(|d: crate::plan::Deletion| d.rel@)
                    =~= plan.deletions@.take(i as int).map_values(
                    |d: crate::plan::Deletion| d.rel@,
                ).push(plan.deletions@[i as int].rel@));
            }
            i += 1;
        }
        proof {
            assert(plan.deletions@.take(plan.deletions@.len() as int) =~= plan.deletions@);
        }
        self.deletions = out;
    }
}

/// The kind of log line an event adds, if it adds one.
pub open spec fn logged_kind(ev: Event) -> Option<LogKind> {
    match ev {
        Event::FileDone { .. } => Some(LogKind::Activity),
        Event::DirDone { .. } => Some(LogKind::Activity),
        Event::SymlinkDone { .. } => Some(LogKind::Activity),
        Event::Deleted { .. } => Some(LogKind::Delete),
        Event::Failed { .. } => Some(LogKind::Error),
        Event::VerificationFailed { .. } => Some(LogKind::Verify),
        _ => None,
    }
}

/// The event log never holds more than [`LOG_CAP`] lines: an event that logs
/// appends exactly one line of its kind (the oldest line falling off a full
/// log), and any other event leaves the log as it was.
pub proof fn lemma_log_bounded(v: TuiView, ev: Event, size: Seq<char>)
    requires
        v.log.len() <= LOG_CAP,
    ensures
        next_view(v, ev, size).log.len() <= LOG_CAP,
        match logged_kind(ev) {
            Some(k) => {
                let log = next_view(v, ev, size).log;
                &&& log.len() == if v.log.len() == LOG_CAP {
                    v.log.len()
                } else {
                    v.log.len() + 1
                }
                &&& log.last().0 == k
                &&& log.drop_last() == if v.log.len() == LOG_CAP {
                    v.log.drop_first()
                } else {
                    v.log
                }
            },
            None => next_view(v, ev, size).log == v.log,
        },
{
}

/// A file's label in the active list names that file and no other: for a
/// rendered size without `(`, the label of `rel` is a label of `rel`, and of
/// no other path (so finishing `a` never drops the label of `ab`).
pub proof fn lemma_label_names_its_path(rel: Seq<char>, size: Seq<char>, other: Seq<char>)
    requires
        forall|j: int| 0 <= j < size.len() ==> #[trigger] size[j] != '(',
    ensures
        label_of(active_label(rel, size), rel),
        label_of(active_label(rel, size), other) ==> other == rel,
{
    reveal_strlit(" (");
    reveal_strlit(")");
    let l = active_label(rel, size);
    let n = rel.len() as int;
    assert(l.len() == n + 3 + size.len());
    assert(l.take(n) =~= rel);
    assert forall|j: int| n + 2 <= j < l.len() implies #[trigger] l[j] != '(' by {
        if j < n + 2 + size.len() {
            assert(l[j] == size[j - n - 2]);
        }
    }
    if label_of(l, other) {
        let m = other.len() as int;
        assert(l[n + 1] == '(');
        assert(l[m + 1] == '(');
        if m < n {
            assert(m + 2 <= n + 1 < l.len());
        }
        if n < m {
            assert(n + 2 <= m + 1 < l.len());
        }
        assert(m == n);
        assert(other =~= l.take(m));
    }
}

// ---------------------------------------------------------------------------
// Keyboard
// ---------------------------------------------------------------------------

/// A key, as the dashboard distinguishes them.
#[derive(Debug, Clone, Copy, PartialEq, Eq, Structural)]
pub enum Key {
    /// A character key.
    Char(char),
    Enter,
    Esc,
    Backspace,
    Tab,
    Up,
    Down,
    PageUp,
    PageDown,
    Home,
    End,
    /// Any other key.
    Other,
}

/// A key press: the key and whether Control was held.
#[derive(Debug, Clone, Copy, PartialEq, Eq, Structural)]
pub struct KeyPress {
    /// The key.
    pub key: Key,
    /// Control was held.
    pub ctrl: bool,
}

/// What a key press asks of the run.
#[derive(Debug, Clone, Copy, PartialEq, Eq, Structural)]
pub enum KeyEffect {
    /// Nothing beyond the view itself.
    Nothing,
    /// Cancel the run.
    Cancel,
    /// Answer the deletion review: approved or rejected.
    Decide(bool),
    /// Pause the run.
    Pause,
    /// Resume the paused run.
    Resume,
}

/// The dashboard's view state: selected tab, scrolling, the event filter,
/// the help and cancel overlays, and the deletion confirmation being typed.
pub struct Ui {
    /// Selected tab (0 to 3).
    pub tab: usize,
    /// Scroll offset of the list.
    pub scroll: usize,
    /// Text the event list is filtered by.
    pub filter: String,
    /// The filter text is being edited.
    pub editing_filter: bool,
    /// Which log kind the event list shows (0: all, then one kind each).
    pub event_filter: usize,
    /// The help overlay is shown.
    pub help: bool,
    /// The cancel confirmation is shown.
    pub cancel_confirm: bool,
    /// What has been typed to confirm deletions.
    pub delete_input: String,
}

/// The view state as values.
pub struct UiView {
    pub tab: usize,
    pub scroll: usize,
    pub filter: Seq<char>,
    pub editing_filter: bool,
    pub event_filter: usize,
    pub help: bool,
    pub cancel_confirm: bool,
    pub delete_input: Seq<char>,
}

impl View for Ui {
    type V = UiView;

    open spec fn view(&self) -> UiView {
        UiView {
            tab: self.tab,
            scroll: self.scroll,
            filter: self.filter@,
            editing_filter: self.editing_filter,
            event_filter: self.event_filter,
            help: self.help,
            cancel_confirm: self.cancel_confirm,
            delete_input: self.delete_input@,
        }
    }
}

/// `s` without its last character (unchanged when empty).
pub open spec fn pop_char(s: Seq<char>) -> Seq<char> {
    if s.len() > 0 {
        s.drop_last()
    } else {
        s
    }
}

/// The tab a digit key selects.
pub open spec fn digit_tab(c: char) -> Option<usize> {
    if c == '1' {
        Some(0)
    } else if c == '2' {
        Some(1)
    } else if c == '3' {
        Some(2)
    } else if c == '4' {
        Some(3)
    } else {
        None
    }
}

/// One key press. While the filter is edited, keys edit it; while the cancel
/// confirmation is shown, `y` or Enter cancels and `n` or Esc dismisses it;
/// during the deletion review, keys type the confirmation, Esc rejects and
/// Enter approves once exactly `DELETE` was typed. Otherwise keys switch
/// tabs, pause or resume, open the cancel confirmation (`q`, Ctrl-C), the
/// filter (`/`) and help (`?`), cycle the event kind (`f`) and scroll.
pub open spec fn key_step(u: UiView, k: KeyPress, phase: RunPhase, paused: bool) -> (
    UiView,
    KeyEffect,
) {
    if u.editing_filter {
        match k.key {
            Key::Esc => (UiView { editing_filter: false, filter: Seq::empty(), ..u }, KeyEffect::Nothing),
            Key::Enter => (UiView { editing_filter: false, ..u }, KeyEffect::Nothing),
            Key::Backspace => (UiView { filter: pop_char(u.filter), ..u }, KeyEffect::Nothing),
            Key::Char(c) => (UiView { filter: u.filter.push(c), ..u }, KeyEffect::Nothing),
            _ => (u, KeyEffect::Nothing),
        }
    } else if u.cancel_confirm {
        match k.key {
            Key::Char(c) => if c == 'y' {
                (u, KeyEffect::Cancel)
            } else if c == 'n' {
                (UiView { cancel_confirm: false, ..u }, KeyEffect::Nothing)
            } else {
                (u, KeyEffect::Nothing)
            },
            Key::Enter => (u, KeyEffect::Cancel),
            Key::Esc => (UiView { cancel_confirm: false, ..u }, KeyEffect::Nothing),
            _ => (u, KeyEffect::Nothing),
        }
    } else if phase == RunPhase::Review {
        match k.key {
            Key::Esc => (u, KeyEffect::Decide(false)),
            Key::Backspace => (UiView { delete_input: pop_char(u.delete_input), ..u }, KeyEffect::Nothing),
            Key::Enter => if u.delete_input == "DELETE"@ {
                (u, KeyEffect::Decide(true))
            } else {
                (u, KeyEffect::Nothing)
            },
            Key::Char(c) => (UiView { delete_input: u.delete_input.push(c), ..u }, KeyEffect::Nothing),
            _ => (u, KeyEffect::Nothing),
        }
    } else {
        match k.key {
            Key::Tab => (UiView { tab: ((u.tab + 1) % 4) as usize, ..u }, KeyEffect::Nothing),
            Key::Char(c) => if digit_tab(c) is Some {
                (UiView { tab: digit_tab(c)->Some_0, ..u }, KeyEffect::Nothing)
            } else if c == 'p' {
                (u, if paused {
                    KeyEffect::Resume
                } else {
                    KeyEffect::Pause
                })
            } else if c == 'q' || (c == 'c' && k.ctrl) {
                (UiView { cancel_confirm: true, ..u }, KeyEffect::Nothing)
            } else if c == '/' {
                (UiView { editing_filter: true, ..u }, KeyEffect::Nothing)
            } else if c == 'f' {
                (UiView { event_filter: ((u.event_filter + 1) % 5) as usize, ..u }, KeyEffect::Nothing)
            } else if c == '?' {
                (UiView { help: !u.help, ..u }, KeyEffect::Nothing)
            } else if c == 'j' {
                (UiView { scroll: u.scroll.saturating_add(1), ..u }, KeyEffect::Nothing)
            } else if c == 'k' {
                (UiView { scroll: u.scroll.saturating_sub(1), ..u }, KeyEffect::Nothing)
            } else {
                (u, KeyEffect::Nothing)
            },
            Key::Esc => (UiView { help: false, filter: Seq::empty(), ..u }, KeyEffect::Nothing),
            Key::Down => (UiView { scroll: u.scroll.saturating_add(1), ..u }, KeyEffect::Nothing),
            Key::Up => (UiView { scroll: u.scroll.saturating_sub(1), ..u }, KeyEffect::Nothing),
            Key::PageDown => (UiView { scroll: u.scroll.saturating_add(10), ..u }, KeyEffect::Nothing),
            Key::PageUp => (UiView { scroll: u.scroll.saturating_sub(10), ..u }, KeyEffect::Nothing),
            Key::Home => (UiView { scroll: 0, ..u }, KeyEffect::Nothing),
            Key::End => (UiView { scroll: (usize::MAX / 2) as usize, ..u }, KeyEffect::Nothing),
            _ => (u, KeyEffect::Nothing),
        }
    }
}

/// `s` without its last character (unchanged when empty).
fn without_last(s: &String) -> (r: String)
    ensures
        r@ == pop_char(s@),
{
    let cs = chars_of(s.as_str());
    if cs.len() == 0 {
        return String::new();
    }
    let r = string_of(cs.as_slice(), 0, cs.len() - 1);
    proof {
        assert(cs@.subrange(0, cs@.len() - 1) =~= s@.drop_last());
    }
    r
}

/// `s` with `c` appended.
fn with_char(s: &String, c: char) -> (r: String)
    ensures
        r@ == s@.push(c),
{
    let mut cs = chars_of(s.as_str());
    cs.push(c);
    let r = string_of(cs.as_slice(), 0, cs.len());
    proof {
        assert(cs@.subrange(0, cs@.len() as int) =~= s@.push(c));
    }
    r
}

impl Ui {
    /// The view state a dashboard opens with: first tab, nothing typed.
    pub fn new() -> (u: Ui)
        ensures
            u@ == (UiView {
                tab: 0,
                scroll: 0,
                filter: Seq::empty(),
                editing_filter: false,
                event_filter: 0,
                help: false,
                cancel_confirm: false,
                delete_input: Seq::empty(),
            }),
    {
        Ui {
            tab: 0,
            scroll: 0,
            filter: String::new(),
            editing_filter: false,
            event_filter: 0,
            help: false,
            cancel_confirm: false,
            delete_input: String::new(),
        }
    }

    /// Handles one key press (see [`key_step`]): updates the view state and
    /// returns what the press asks of the run. `phase` is the run's phase and
    /// `paused` whether it is paused.
    pub fn handle_key(&mut self, k: KeyPress, phase: RunPhase, paused: bool) -> (e: KeyEffect)
        ensures
            (final(self)@, e) == key_step(old(self)@, k, phase, paused),
    {
        if self.editing_filter {
            match k.key {
                Key::Esc => {
                    self.editing_filter = false;
                    self.filter = String::new();
                },
                Key::Enter => {
                    self.editing_filter = false;
                },
                Key::Backspace => {
                    self.filter = without_last(&self.filter);
                },
                Key::Char(c) => {
                    self.filter = with_char(&self.filter, c);
                },
                _ => {},
            }
            return KeyEffect::Nothing;
        }
        if self.cancel_confirm {
            match k.key {
                Key::Char(c) => {
                    if c == 'y' {
                        return KeyEffect::Cancel;
                    } else if c == 'n' {
                        self.cancel_confirm = false;
                    }
                },
                Key::Enter => {
                    return KeyEffect::Cancel;
                },
                Key::Esc => {
                    self.cancel_confirm = false;
                },
                _ => {},
            }
            return KeyEffect::Nothing;
        }
        if phase == RunPhase::Review {
            match k.key {
                Key::Esc => {
                    return KeyEffect::Decide(false);
                },
                Key::Backspace => {
                    self.delete_input = without_last(&self.delete_input);
                },
                Key::Enter => {
                    let typed = chars_of(self.delete_input.as_str());
                    let word = chars_of("DELETE");
                    if same_chars(typed.as_slice(), word.as_slice()) {
                        return KeyEffect::Decide(true);
                    }
                },
                Key::Char(c) => {
                    self.delete_input = with_char(&self.delete_input, c);
                },
                _ => {},
            }
            return KeyEffect::Nothing;
        }
        match k.key {
            Key::Tab => {
                self.tab = (self.tab % 4 + 1) % 4;
            },
            Key::Char(c) => {
                if c == '1' {
                    self.tab = 0;
                } else if c == '2' {
                    self.tab = 1;
                } else if c == '3' {
                    self.tab = 2;
                } else if c == '4' {
                    self.tab = 3;
                } else if c == 'p' {
                    if paused {
                        return KeyEffect::Resume;
                    } else {
                        return KeyEffect::Pause;
                    }
                } else if c == 'q' || (c == 'c' && k.ctrl) {
                    self.cancel_confirm = true;
                } else if c == '/' {
                    self.editing_filter = true;
                } else if c == 'f' {
                    self.event_filter = (self.event_filter % 5 + 1) % 5;
                } else if c == '?' {
                    self.help = !self.help;
                } else if c == 'j' {
                    self.scroll = self.scroll.saturating_add(1);
                } else if c == 'k' {
                    self.scroll = self.scroll.saturating_sub(1);
                }
            },
            Key::Esc => {
                self.help = false;
                self.filter = String::new();
            },
            Key::Down => {
                self.scroll = self.scroll.saturating_add(1);
            },
            Key::Up => {
                self.scroll = self.scroll.saturating_sub(1);
            },
            Key::PageDown => {
                self.scroll = self.scroll.saturating_add(10);
            },
            Key::PageUp => {
                self.scroll = self.scroll.saturating_sub(10);
            },
            Key::Home => {
                self.scroll = 0;
            },
            Key::End => {
                self.scroll = usize::MAX / 2;
            },
            _ => {},
        }
        KeyEffect::Nothing
    }
}

/// Whether the event list shows a line of `kind`: the errors tab (3) shows
/// errors and verification findings only, and a selected event kind
/// (`event_filter` 1 to 4: activity, deletes, errors, verification) shows
/// that kind only.
pub open spec fn shows_kind(tab: usize, event_filter: usize, kind: LogKind) -> bool {
    &&& (tab == 3 ==> (kind == LogKind::Error || kind == LogKind::Verify))
    &&& (event_filter == 1 ==> kind == LogKind::Activity)
    &&& (event_filter == 2 ==> kind == LogKind::Delete)
    &&& (event_filter == 3 ==> kind == LogKind::Error)
    &&& (event_filter == 4 ==> kind == LogKind::Verify)
}

/// Whether the event list shows a line of `kind` (see [`shows_kind`]).
pub fn kind_shown(tab: usize, event_filter: usize, kind: LogKind) -> (r: bool)
    ensures
        r == shows_kind(tab, event_filter, kind),
{
    let wanted = tab != 3 || kind == LogKind::Error || kind == LogKind::Verify;
    let selected = if event_filter == 1 {
        kind == LogKind::Activity
    } else if event_filter == 2 {
        kind == LogKind::Delete
    } else if event_filter == 3 {
        kind == LogKind::Error
    } else if event_filter == 4 {
        kind == LogKind::Verify
    } else {
        true
    };
    wanted && selected
}

/// Deletions are approved only from the review screen, by Enter, once
/// exactly `DELETE` has been typed (and neither the filter editor nor the
/// cancel confirmation is open); the run is cancelled only from the cancel
/// confirmation.
pub proof fn lemma_only_typed_delete_approves(u: UiView, k: KeyPress, phase: RunPhase, paused: bool)
    ensures
        key_step(u, k, phase, paused).1 == KeyEffect::Decide(true) ==> (phase == RunPhase::Review
            && !u.editing_filter && !u.cancel_confirm && k.key == Key::Enter && u.delete_input
            == "DELETE"@),
        key_step(u, k, phase, paused).1 == KeyEffect::Cancel ==> (u.cancel_confirm
            && !u.editing_filter),
{
}

/// The selected tab stays one of the four and the event kind one of the
/// five, whatever is pressed.
pub proof fn lemma_tabs_stay_in_range(u: UiView, k: KeyPress, phase: RunPhase, paused: bool)
    requires
        u.tab < 4,
        u.event_filter < 5,
    ensures
        key_step(u, k, phase, paused).0.tab < 4,
        key_step(u, k, phase, paused).0.event_filter < 5,
{
}

} // verus!
